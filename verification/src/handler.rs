//! The handler: the state machine that owns all per-peer session and
//! in-flight-challenge state, matches inbound packets against the behaviour
//! script, and issues outbound packets.
use crate::behaviour::{
    Action, ActionV, Behaviours, BehavioursV, CustomResponse, CustomResponseV, DeclarativeV,
    Expect, Request, Response, ResponseActV,
};
use crate::crypto::{derived_session_keys, random_bytes16, LocalKey};
use crate::errors::Error;
use crate::rpc::{
    parse_message, response_bytes, response_wf, Message, MessageV, RequestBodyV, RequestId,
    RequestV, ResponseBody, ResponseV, RpcRequest, RpcResponse,
};
use crate::session::{
    encrypted_packet, establish_outcome, session_plaintext, KeysV, Session, SessionV,
};
use crate::wire::{header_wf, packet_aad, packet_wf, Packet, PacketHeader, PacketKind};
use vstd::prelude::*;

verus! {

// ---------------------------------------------------------------------------
// Addresses and challenges
// ---------------------------------------------------------------------------

/// The identity of a remote endpoint: its node id and socket address.
pub struct NodeAddress {
    /// The remote's 32-byte node identifier.
    pub node_id: Vec<u8>,
    /// The remote's IP address, as four or sixteen octets.
    pub ip: Vec<u8>,
    /// The remote's UDP port.
    pub port: u16,
}

/// The spec-level image of an address, used as a map key.
pub struct NodeAddressV {
    pub node_id: Seq<u8>,
    pub ip: Seq<u8>,
    pub port: u16,
}

impl View for NodeAddress {
    type V = NodeAddressV;

    open spec fn view(&self) -> NodeAddressV {
        NodeAddressV { node_id: self.node_id@, ip: self.ip@, port: self.port }
    }
}

/// What an address must respect.
pub open spec fn node_address_wf(a: NodeAddressV) -> bool {
    a.node_id.len() == 32 && (a.ip.len() == 4 || a.ip.len() == 16)
}

impl NodeAddress {
    /// Compares two addresses by value.
    pub fn same_as(&self, other: &NodeAddress) -> (r: bool)
        ensures
            r <==> self@ == other@,
    {
        if self.port != other.port {
            return false;
        }
        if !bytes_eq(&self.node_id, &other.node_id) {
            return false;
        }
        if !bytes_eq(&self.ip, &other.ip) {
            return false;
        }
        proof {
            assert(self@ == other@);
        }
        true
    }

    /// Copies an address.
    pub fn duplicate(&self) -> (r: NodeAddress)
        ensures
            r@ == self@,
    {
        let r = NodeAddress {
            node_id: crate::bytes::subvec(&self.node_id, 0, self.node_id.len()),
            ip: crate::bytes::subvec(&self.ip, 0, self.ip.len()),
            port: self.port,
        };
        proof {
            assert(r.node_id@ =~= self.node_id@);
            assert(r.ip@ =~= self.ip@);
        }
        r
    }
}

/// Compares two byte vectors by value.
pub fn bytes_eq(a: &Vec<u8>, b: &Vec<u8>) -> (r: bool)
    ensures
        r <==> a@ == b@,
{
    if a.len() != b.len() {
        return false;
    }
    let mut i: usize = 0;
    while i < a.len()
        invariant
            i <= a@.len(),
            a@.len() == b@.len(),
            forall|j: int| 0 <= j < i ==> a@[j] == b@[j],
        decreases a@.len() - i,
    {
        if a[i] != b[i] {
            return false;
        }
        i = i + 1;
    }
    proof {
        assert(a@ =~= b@);
    }
    true
}

/// A challenge (WHOAREYOU) object used to handle and send challenges.
pub struct Challenge {
    /// The challenge data: the authenticated data of the challenge packet.
    pub data: Vec<u8>,
    /// The remote's record if we know it; a challenge can come from an
    /// unknown node.
    pub remote_enr: Option<Vec<u8>>,
}

/// The spec-level image of a challenge.
pub struct ChallengeV {
    pub data: Seq<u8>,
    pub remote_enr: Option<Seq<u8>>,
}

impl View for Challenge {
    type V = ChallengeV;

    open spec fn view(&self) -> ChallengeV {
        ChallengeV {
            data: self.data@,
            remote_enr: match &self.remote_enr {
                Some(r) => Some(r@),
                None => None,
            },
        }
    }
}

// ---------------------------------------------------------------------------
// Address-keyed stores
// ---------------------------------------------------------------------------

/// A map from node addresses to values, backed by a vector with unique keys.
pub struct AddrMap<T: View> {
    entries: Vec<(NodeAddress, T)>,
}

impl<T: View> AddrMap<T> {
    #[verifier::type_invariant]
    spec fn inv(self) -> bool {
        forall|i: int, j: int|
            0 <= i < j < self.entries@.len() ==> (#[trigger] self.entries@[i]).0@ != (
            #[trigger] self.entries@[j]).0@
    }

    /// The index holding a key.
    closed spec fn idx(self, k: NodeAddressV) -> int {
        choose|i: int| 0 <= i < self.entries@.len() && (#[trigger] self.entries@[i]).0@ == k
    }

    pub closed spec fn view(self) -> Map<NodeAddressV, T::V> {
        Map::new(
            |k: NodeAddressV|
                exists|i: int|
                    0 <= i < self.entries@.len() && (#[trigger] self.entries@[i]).0@ == k,
            |k: NodeAddressV| self.entries@[self.idx(k)].1@,
        )
    }

    /// An empty store.
    pub fn new() -> (r: AddrMap<T>)
        ensures
            r@ == Map::<NodeAddressV, T::V>::empty(),
    {
        let r = AddrMap { entries: Vec::new() };
        proof {
            assert(r@ =~= Map::<NodeAddressV, T::V>::empty());
        }
        r
    }

    /// The index of the entry holding the address, if any.
    fn find(&self, addr: &NodeAddress) -> (r: Option<usize>)
        ensures
            r is Some <==> self@.contains_key(addr@),
            r matches Some(i) ==> 0 <= i < self.entries@.len() && self.entries@[i as int].0@
                == addr@ && self@[addr@] == self.entries@[i as int].1@,
    {
        proof {
            use_type_invariant(self);
        }
        let mut i: usize = 0;
        while i < self.entries.len()
            invariant
                i <= self.entries@.len(),
                forall|j: int| 0 <= j < i ==> (#[trigger] self.entries@[j]).0@ != addr@,
            decreases self.entries@.len() - i,
        {
            if self.entries[i].0.same_as(addr) {
                proof {
                    use_type_invariant(self);
                    assert(self.entries@[i as int].0@ == addr@);
                    assert(self@.contains_key(addr@));
                    let w = self.idx(addr@);
                    assert(self.entries@[w].0@ == addr@);
                    assert(w == i);
                }
                return Some(i);
            }
            i = i + 1;
        }
        proof {
            assert(!self@.contains_key(addr@));
        }
        None
    }

    /// Whether the store holds the address.
    pub fn contains(&self, addr: &NodeAddress) -> (r: bool)
        ensures
            r <==> self@.contains_key(addr@),
    {
        self.find(addr).is_some()
    }

    /// A reference to the value held for the address.
    pub fn get(&self, addr: &NodeAddress) -> (r: Option<&T>)
        ensures
            r is Some <==> self@.contains_key(addr@),
            r matches Some(v) ==> v@ == self@[addr@],
    {
        match self.find(addr) {
            Some(i) => Some(&self.entries[i].1),
            None => None,
        }
    }

    /// A key's index determines its value in the view.
    proof fn lemma_at(self, x: int)
        requires
            self.inv(),
            0 <= x < self.entries@.len(),
        ensures
            self@.contains_key(self.entries@[x].0@),
            self@[self.entries@[x].0@] == self.entries@[x].1@,
    {
        let k = self.entries@[x].0@;
        assert(self@.contains_key(k));
        let w = self.idx(k);
        assert(0 <= w < self.entries@.len() && self.entries@[w].0@ == k);
        assert(w == x);
    }

    /// Inserts or replaces the value held for the address.
    pub fn insert(&mut self, addr: NodeAddress, v: T)
        ensures
            final(self)@ == old(self)@.insert(addr@, v@),
    {
        proof {
            use_type_invariant(&*self);
        }
        let ghost b = self.entries@;
        let found = self.find(&addr);
        let mut entries: Vec<(NodeAddress, T)> = Vec::new();
        std::mem::swap(&mut entries, &mut self.entries);
        match found {
            Some(i) => {
                let _ = entries.swap_remove(i);
                entries.push((addr, v));
            },
            None => {
                entries.push((addr, v));
            },
        }
        proof {
            let a = entries@;
            assert forall|x: int, y: int| 0 <= x < y < a.len() implies (#[trigger] a[x]).0@ != (
            #[trigger] a[y]).0@ by {
                if y < a.len() - 1 {
                } else {
                    assert(a[y].0@ == addr@);
                }
            }
        }
        self.entries = entries;
        proof {
            let a = self.entries@;
            assert(self@ =~= old(self)@.insert(addr@, v@)) by {
                assert forall|k: NodeAddressV| self@.contains_key(k) <==> old(self)@.insert(
                    addr@,
                    v@,
                ).contains_key(k) by {
                    if k == addr@ {
                        assert(a[a.len() - 1].0@ == addr@);
                        assert(self@.contains_key(k));
                    } else {
                        if self@.contains_key(k) {
                            let x = choose|x: int|
                                0 <= x < a.len() && (#[trigger] a[x]).0@ == k;
                            if found matches Some(i) && x == i as int {
                                assert(b[b.len() - 1].0@ == k);
                            } else {
                                assert(b[x].0@ == k);
                            }
                        }
                        if old(self)@.contains_key(k) {
                            let y = choose|y: int|
                                0 <= y < b.len() && (#[trigger] b[y]).0@ == k;
                            match found {
                                Some(i) => {
                                    if y == b.len() - 1 && y != i as int {
                                        assert(a[i as int].0@ == k);
                                    } else {
                                        assert(y != i as int);
                                        assert(a[y].0@ == k);
                                    }
                                },
                                None => {
                                    assert(a[y].0@ == k);
                                },
                            }
                        }
                    }
                }
                assert forall|k: NodeAddressV| #![auto] self@.contains_key(k) implies self@[k]
                    == old(self)@.insert(addr@, v@)[k] by {
                    if k == addr@ {
                        self.lemma_at(a.len() - 1);
                    } else {
                        let x = choose|x: int| 0 <= x < a.len() && (#[trigger] a[x]).0@ == k;
                        self.lemma_at(x);
                        match found {
                            Some(i) => {
                                if x == i as int {
                                    old(self).lemma_at(b.len() - 1);
                                } else {
                                    old(self).lemma_at(x);
                                }
                            },
                            None => {
                                old(self).lemma_at(x);
                            },
                        }
                    }
                }
            }
        }
    }

    /// Removes and returns the value held for the address.
    pub fn remove(&mut self, addr: &NodeAddress) -> (r: Option<T>)
        ensures
            final(self)@ == old(self)@.remove(addr@),
            r is Some <==> old(self)@.contains_key(addr@),
            r matches Some(v) ==> v@ == old(self)@[addr@],
    {
        proof {
            use_type_invariant(&*self);
        }
        let ghost b = self.entries@;
        let found = self.find(addr);
        match found {
            Some(i) => {
                let mut entries: Vec<(NodeAddress, T)> = Vec::new();
                std::mem::swap(&mut entries, &mut self.entries);
                let (_, v) = entries.swap_remove(i);
                proof {
                    let a = entries@;
                    assert forall|x: int, y: int| 0 <= x < y < a.len() implies (
                    #[trigger] a[x]).0@ != (#[trigger] a[y]).0@ by {}
                }
                self.entries = entries;
                proof {
                    let a = self.entries@;
                    assert(self@ =~= old(self)@.remove(addr@)) by {
                        assert forall|k: NodeAddressV| self@.contains_key(k) <==> old(
                            self,
                        )@.remove(addr@).contains_key(k) by {
                            if self@.contains_key(k) {
                                let x = choose|x: int|
                                    0 <= x < a.len() && (#[trigger] a[x]).0@ == k;
                                if x == i as int {
                                    assert(b[b.len() - 1].0@ == k);
                                } else {
                                    assert(b[x].0@ == k);
                                }
                            }
                            if old(self)@.contains_key(k) && k != addr@ {
                                let y = choose|y: int|
                                    0 <= y < b.len() && (#[trigger] b[y]).0@ == k;
                                if y == b.len() - 1 && y != i as int {
                                    assert(a[i as int].0@ == k);
                                } else {
                                    assert(y != i as int);
                                    assert(a[y].0@ == k);
                                }
                            }
                        }
                        assert forall|k: NodeAddressV| #![auto] self@.contains_key(k) implies
                            self@[k] == old(self)@.remove(addr@)[k] by {
                            let x = choose|x: int| 0 <= x < a.len() && (#[trigger] a[x]).0@ == k;
                            self.lemma_at(x);
                            if x == i as int {
                                old(self).lemma_at(b.len() - 1);
                            } else {
                                old(self).lemma_at(x);
                            }
                        }
                    }
                }
                Some(v)
            },
            None => {
                proof {
                    assert(self@ =~= old(self)@.remove(addr@));
                }
                None
            },
        }
    }
}

// ---------------------------------------------------------------------------
// Packets in flight, local identity, faults
// ---------------------------------------------------------------------------

/// One decoded inbound datagram, tagged with its sender's address.
pub struct InboundPacket {
    pub src_ip: Vec<u8>,
    pub src_port: u16,
    pub header: PacketHeader,
    pub message: Vec<u8>,
    pub authenticated_data: Vec<u8>,
}

/// One outbound packet and where to send it.
pub struct OutboundPacket {
    pub node_address: NodeAddress,
    pub packet: Packet,
}

/// The mock's own identity: its key, id, and the address data it answers
/// pings with.
pub struct LocalNode {
    pub key: LocalKey,
    pub node_id: Vec<u8>,
    pub enr_seq: u64,
    pub ip: Vec<u8>,
    pub udp_port: u16,
}

/// What the local identity must respect.
pub open spec fn local_node_wf(l: LocalNode) -> bool {
    l.node_id@.len() == 32 && l.ip@.len() == 4 && l.udp_port > 0
}

/// What an inbound packet handed to the handler must respect.
pub open spec fn inbound_wf(p: InboundPacket) -> bool {
    header_wf(p.header) && (p.src_ip@.len() == 4 || p.src_ip@.len() == 16)
}

/// A protocol-sequencing violation: fatal to the whole mock-peer run,
/// because it means either a broken scenario script or a real deviation by
/// the implementation under test.
#[derive(Debug, Clone, Copy, PartialEq, Eq, Structural)]
pub enum Fault {
    /// A packet arrived after the sequential script ran out.
    BehavioursExhausted,
    /// The packet's shape does not match the queued expectation.
    UnexpectedPacket { expected: Expect },
    /// A message arrived with a session where none was expected.
    SessionExists,
    /// The decrypted request is not of the expected kind.
    UnexpectedRequestKind { expected: Request },
    /// An action needed a session that does not exist.
    NoSession,
    /// A handshake arrived with no pending challenge for its sender.
    NoActiveChallenge,
    /// A scripted action only makes sense on a handshake packet.
    ActionRequiresHandshake,
    /// A scripted action needs a sender, which a challenge does not carry.
    ActionRequiresSender,
    /// The decrypted message is a response, which the mock never accepts.
    NotARequest,
    /// The message did not decrypt under the sender's session.
    DecryptionFailed,
    /// The decrypted bytes are not a protocol message.
    MalformedMessage,
    /// Completing the handshake failed.
    EstablishFailed(Error),
    /// A scripted response names a captured request that does not exist.
    NoCapturedRequest { index: usize },
    /// A scripted response body is not one the codec can carry.
    InvalidCustomResponse { index: usize },
    /// The default response for this request kind is not implemented.
    ResponseUnsupported,
    /// The session's outbound counter is spent; encrypting once more would
    /// repeat a nonce.
    NonceExhausted,
    /// A challenge is already outstanding for this peer.
    ChallengeAlreadySent,
}

// ---------------------------------------------------------------------------
// The transition specification
// ---------------------------------------------------------------------------

/// The whole per-peer state the actions read and write.
#[verifier::ext_equal]
pub struct StateV {
    pub challenges: Map<NodeAddressV, ChallengeV>,
    pub sessions: Map<NodeAddressV, SessionV>,
    pub captured: Seq<RequestV>,
}

/// The sender's address, for the packet kinds that carry one.
pub open spec fn sender_addr(p: InboundPacket) -> NodeAddressV {
    NodeAddressV {
        node_id: match p.header.kind {
            PacketKind::Message { src_id } => src_id@,
            PacketKind::Handshake { src_id, .. } => src_id@,
            PacketKind::WhoAreYou { .. } => Seq::empty(),
        },
        ip: p.src_ip@,
        port: p.src_port,
    }
}

/// The record bytes carried by a handshake packet, if any.
pub open spec fn record_of(p: InboundPacket) -> Option<Seq<u8>> {
    match p.header.kind {
        PacketKind::Handshake { enr_record: Some(r), .. } => Some(r@),
        _ => None,
    }
}

/// The session that completing a handshake against a challenge derives.
pub open spec fn derived_session(
    local: LocalNode,
    remote_id: Seq<u8>,
    c: ChallengeV,
    ephem_pubkey: Seq<u8>,
) -> SessionV {
    let pair = derived_session_keys(
        match local.key {
            LocalKey::Secp256k1(sk) => sk@,
            LocalKey::Ed25519 => Seq::empty(),
        },
        ephem_pubkey,
        remote_id,
        local.node_id@,
        c.data,
    );
    SessionV {
        keys: KeysV { encryption_key: pair.1, decryption_key: pair.0 },
        counter: 0,
    }
}

/// Decrypting and decoding the current message under a session: the request,
/// or the fault that ends the run.
pub open spec fn message_outcome(s: SessionV, p: InboundPacket) -> Result<RequestV, Fault> {
    match session_plaintext(s, p.header.message_nonce@, p.message@, p.authenticated_data@) {
        None => Err(Fault::DecryptionFailed),
        Some(pt) => match parse_message(pt) {
            None => Err(Fault::MalformedMessage),
            Some(MessageV::Response) => Err(Fault::NotARequest),
            Some(MessageV::Request(rq)) => Ok(rq),
        },
    }
}

/// Whether a decoded request is of the kind the script names.
pub open spec fn kind_matches_request(body: RequestBodyV, expected: Request) -> bool {
    match expected {
        Request::FindNode => body is FindNode,
        Request::Ping => body is Ping,
    }
}

/// Validating an expectation against the decoded packet: `None` when it
/// matches, otherwise exactly the fault that aborts the run.
pub open spec fn expect_fault(
    local: LocalNode,
    challenges: Map<NodeAddressV, ChallengeV>,
    sessions: Map<NodeAddressV, SessionV>,
    p: InboundPacket,
    expect: Expect,
) -> Option<Fault> {
    match expect {
        Expect::WhoAreYou => {
            if p.header.kind is WhoAreYou {
                None
            } else {
                Some(Fault::UnexpectedPacket { expected: expect })
            }
        },
        Expect::MessageWithoutSession => {
            if !(p.header.kind is Message) {
                Some(Fault::UnexpectedPacket { expected: expect })
            } else if sessions.contains_key(sender_addr(p)) {
                Some(Fault::SessionExists)
            } else {
                None
            }
        },
        Expect::Handshake(req_kind) => {
            match p.header.kind {
                PacketKind::Handshake { ephem_pubkey, .. } => {
                    let addr = sender_addr(p);
                    if !challenges.contains_key(addr) {
                        Some(Fault::NoActiveChallenge)
                    } else {
                        match establish_outcome(local.key, ephem_pubkey@, record_of(p)) {
                            Err(e) => Some(Fault::EstablishFailed(e)),
                            Ok(()) => {
                                let s = derived_session(
                                    local,
                                    addr.node_id,
                                    challenges[addr],
                                    ephem_pubkey@,
                                );
                                match message_outcome(s, p) {
                                    Err(f) => Some(f),
                                    Ok(rq) => {
                                        if kind_matches_request(rq.body, req_kind) {
                                            None
                                        } else {
                                            Some(
                                                Fault::UnexpectedRequestKind {
                                                    expected: req_kind,
                                                },
                                            )
                                        }
                                    },
                                }
                            },
                        }
                    }
                },
                _ => Some(Fault::UnexpectedPacket { expected: expect }),
            }
        },
        Expect::Message(req_kind) => {
            if !(p.header.kind is Message) {
                Some(Fault::UnexpectedPacket { expected: expect })
            } else {
                let addr = sender_addr(p);
                if !sessions.contains_key(addr) {
                    Some(Fault::NoSession)
                } else {
                    match message_outcome(sessions[addr], p) {
                        Err(f) => Some(f),
                        Ok(rq) => {
                            if kind_matches_request(rq.body, req_kind) {
                                None
                            } else {
                                Some(Fault::UnexpectedRequestKind { expected: req_kind })
                            }
                        },
                    }
                }
            }
        },
    }
}

/// How a fresh challenge packet relates to the message it answers.
pub open spec fn challenge_packet(p: Packet, request_nonce: Seq<u8>) -> bool {
    &&& packet_wf(p)
    &&& p.header.message_nonce@ == request_nonce
    &&& match p.header.kind {
        PacketKind::WhoAreYou { enr_seq, .. } => enr_seq == 0,
        _ => false,
    }
    &&& p.message@.len() == 0
}

/// How an encrypted response packet relates to the session that sent it.
pub open spec fn response_packet(
    p: Packet,
    s_before: SessionV,
    local_id: Seq<u8>,
    resp: ResponseV,
) -> bool {
    encrypted_packet(
        p,
        s_before.keys.encryption_key,
        (s_before.counter + 1) as u32,
        local_id,
        response_bytes(resp),
    )
}

/// Sending one response over the sender's session: the counter advances
/// whatever happens; the packet goes out unless the cipher refuses the
/// message, in which case the response is dropped and the run continues.
pub open spec fn send_response_step(
    local: LocalNode,
    sessions: Map<NodeAddressV, SessionV>,
    addr: NodeAddressV,
    resp: ResponseV,
    post_sessions: Map<NodeAddressV, SessionV>,
    outs: Seq<OutboundPacket>,
    fault: Option<Fault>,
) -> bool {
    let s = sessions[addr];
    if s.counter == 0xffff_ffffu32 {
        &&& post_sessions == sessions
        &&& outs.len() == 0
        &&& fault == Some(Fault::NonceExhausted)
    } else {
        let advanced = sessions.insert(
            addr,
            SessionV { keys: s.keys, counter: (s.counter + 1) as u32 },
        );
        &&& post_sessions == advanced
        &&& fault is None
        &&& if response_bytes(resp).len() > 0x10_0000_0000 {
            outs.len() == 0
        } else {
            outs.len() == 1 && outs[0].node_address@ == addr && response_packet(
                outs[0].packet,
                s,
                local.node_id@,
                resp,
            )
        }
    }
}

/// Sending the scripted responses in order, each echoing the captured
/// request it names.
pub open spec fn custom_steps(
    local: LocalNode,
    sessions: Map<NodeAddressV, SessionV>,
    captured: Seq<RequestV>,
    addr: NodeAddressV,
    rs: Seq<CustomResponseV>,
    post_sessions: Map<NodeAddressV, SessionV>,
    outs: Seq<OutboundPacket>,
    fault: Option<Fault>,
) -> bool
    decreases rs.len(),
{
    if rs.len() == 0 {
        post_sessions == sessions && outs.len() == 0 && fault is None
    } else {
        let cr = rs[0];
        if cr.index >= captured.len() {
            post_sessions == sessions && outs.len() == 0 && fault == Some(
                Fault::NoCapturedRequest { index: cr.index },
            )
        } else {
            let resp = ResponseV { id: captured[cr.index as int].id, body: cr.body };
            if !response_wf(resp) {
                post_sessions == sessions && outs.len() == 0 && fault == Some(
                    Fault::InvalidCustomResponse { index: cr.index },
                )
            } else {
                exists|mid: Map<NodeAddressV, SessionV>, o1: Seq<OutboundPacket>, f1: Option<
                    Fault,
                >|
                    {
                        &&& #[trigger] send_response_step(local, sessions, addr, resp, mid, o1, f1)
                        &&& match f1 {
                            Some(f) => post_sessions == mid && outs == o1 && fault == Some(f),
                            None => exists|o2: Seq<OutboundPacket>|
                                {
                                    &&& custom_steps(
                                        local,
                                        mid,
                                        captured,
                                        addr,
                                        rs.skip(1),
                                        post_sessions,
                                        o2,
                                        fault,
                                    )
                                    &&& outs == o1 + o2
                                },
                        }
                    }
            }
        }
    }
}

/// A clean run of scripted responses followed by a further run is a run of
/// the concatenation.
#[verifier::rlimit(100)]
#[verifier::spinoff_prover]
pub proof fn lemma_custom_compose(
    local: LocalNode,
    captured: Seq<RequestV>,
    addr: NodeAddressV,
    done: Seq<CustomResponseV>,
    tail: Seq<CustomResponseV>,
    pre: Map<NodeAddressV, SessionV>,
    mid: Map<NodeAddressV, SessionV>,
    o1: Seq<OutboundPacket>,
    post: Map<NodeAddressV, SessionV>,
    o2: Seq<OutboundPacket>,
    res: Option<Fault>,
)
    requires
        custom_steps(local, pre, captured, addr, done, mid, o1, None),
        custom_steps(local, mid, captured, addr, tail, post, o2, res),
    ensures
        custom_steps(local, pre, captured, addr, done + tail, post, o1 + o2, res),
    decreases done.len(),
{
    if done.len() == 0 {
        assert(pre == mid && o1.len() == 0);
        assert(done + tail =~= tail);
        assert(o1 + o2 =~= o2);
    } else {
        let cr = done[0];
        let resp = ResponseV { id: captured[cr.index as int].id, body: cr.body };
        let (m1, oa, f1) = choose|
            m1: Map<NodeAddressV, SessionV>,
            oa: Seq<OutboundPacket>,
            f1: Option<Fault>,
        |
            {
                &&& #[trigger] send_response_step(local, pre, addr, resp, m1, oa, f1)
                &&& match f1 {
                    Some(f) => mid == m1 && o1 == oa && None::<Fault> == Some(f),
                    None => exists|ob: Seq<OutboundPacket>|
                        {
                            &&& custom_steps(
                                local,
                                m1,
                                captured,
                                addr,
                                done.skip(1),
                                mid,
                                ob,
                                None,
                            )
                            &&& o1 == oa + ob
                        },
                }
            };
        assert(f1 is None);
        let ob = choose|ob: Seq<OutboundPacket>|
            {
                &&& custom_steps(local, m1, captured, addr, done.skip(1), mid, ob, None)
                &&& o1 == oa + ob
            };
        lemma_custom_compose(local, captured, addr, done.skip(1), tail, m1, mid, ob, post, o2, res);
        let full = done + tail;
        assert(full[0] == done[0]);
        assert(full.skip(1) =~= done.skip(1) + tail);
        assert(oa + (ob + o2) =~= (oa + ob) + o2);
        assert(custom_steps(local, pre, captured, addr, full, post, o1 + o2, res)) by {
            assert(send_response_step(local, pre, addr, resp, m1, oa, f1));
            assert(exists|oz: Seq<OutboundPacket>|
                {
                    &&& custom_steps(local, m1, captured, addr, full.skip(1), post, oz, res)
                    &&& o1 + o2 == oa + oz
                }) by {
                assert(custom_steps(local, m1, captured, addr, full.skip(1), post, ob + o2, res));
                assert(o1 + o2 == oa + (ob + o2));
            }
        }
    }
}

/// One scripted action: how it moves the state, what it sends, and whether
/// it aborts the run.
pub open spec fn action_step(
    local: LocalNode,
    pre: StateV,
    p: InboundPacket,
    a: ActionV,
    post: StateV,
    outs: Seq<OutboundPacket>,
    fault: Option<Fault>,
) -> bool {
    match a {
        ActionV::Ignore(_) => post == pre && outs.len() == 0 && fault is None,
        ActionV::SendWhoAreYou => {
            if p.header.kind is WhoAreYou {
                post == pre && outs.len() == 0 && fault == Some(Fault::ActionRequiresSender)
            } else {
                let addr = sender_addr(p);
                if pre.challenges.contains_key(addr) {
                    post == pre && outs.len() == 0 && fault == Some(Fault::ChallengeAlreadySent)
                } else {
                    &&& outs.len() == 1
                    &&& outs[0].node_address@ == addr
                    &&& challenge_packet(outs[0].packet, p.header.message_nonce@)
                    &&& post == (StateV {
                        challenges: pre.challenges.insert(
                            addr,
                            ChallengeV {
                                data: packet_aad(outs[0].packet),
                                remote_enr: None,
                            },
                        ),
                        ..pre
                    })
                    &&& fault is None
                }
            }
        },
        ActionV::EstablishSession => {
            match p.header.kind {
                PacketKind::Handshake { ephem_pubkey, .. } => {
                    let addr = sender_addr(p);
                    if !pre.challenges.contains_key(addr) {
                        post == pre && outs.len() == 0 && fault == Some(Fault::NoActiveChallenge)
                    } else {
                        let removed = StateV { challenges: pre.challenges.remove(addr), ..pre };
                        match establish_outcome(local.key, ephem_pubkey@, record_of(p)) {
                            Err(e) => post == removed && outs.len() == 0 && fault == Some(
                                Fault::EstablishFailed(e),
                            ),
                            Ok(()) => {
                                &&& post == (StateV {
                                    sessions: pre.sessions.insert(
                                        addr,
                                        derived_session(
                                            local,
                                            addr.node_id,
                                            pre.challenges[addr],
                                            ephem_pubkey@,
                                        ),
                                    ),
                                    ..removed
                                })
                                &&& outs.len() == 0
                                &&& fault is None
                            },
                        }
                    }
                },
                _ => post == pre && outs.len() == 0 && fault == Some(
                    Fault::ActionRequiresHandshake,
                ),
            }
        },
        ActionV::CaptureRequest => {
            if p.header.kind is WhoAreYou {
                post == pre && outs.len() == 0 && fault == Some(Fault::ActionRequiresSender)
            } else {
                let addr = sender_addr(p);
                if !pre.sessions.contains_key(addr) {
                    post == pre && outs.len() == 0 && fault == Some(Fault::NoSession)
                } else {
                    match message_outcome(pre.sessions[addr], p) {
                        Err(f) => post == pre && outs.len() == 0 && fault == Some(f),
                        Ok(rq) => {
                            &&& post == (StateV { captured: pre.captured.push(rq), ..pre })
                            &&& outs.len() == 0
                            &&& fault is None
                        },
                    }
                }
            }
        },
        ActionV::SendResponse(resp_act) => {
            if p.header.kind is WhoAreYou {
                post == pre && outs.len() == 0 && fault == Some(Fault::ActionRequiresSender)
            } else {
                let addr = sender_addr(p);
                if !pre.sessions.contains_key(addr) {
                    post == pre && outs.len() == 0 && fault == Some(Fault::NoSession)
                } else {
                    match message_outcome(pre.sessions[addr], p) {
                        Err(f) => post == pre && outs.len() == 0 && fault == Some(f),
                        Ok(rq) => match resp_act {
                            ResponseActV::Default => match rq.body {
                                RequestBodyV::Ping { .. } => {
                                    &&& send_response_step(
                                        local,
                                        pre.sessions,
                                        addr,
                                        ResponseV {
                                            id: rq.id,
                                            body: crate::rpc::ResponseBodyV::Pong {
                                                enr_seq: local.enr_seq,
                                                ip: local.ip@,
                                                port: local.udp_port,
                                            },
                                        },
                                        post.sessions,
                                        outs,
                                        fault,
                                    )
                                    &&& post.challenges == pre.challenges
                                    &&& post.captured == pre.captured
                                },
                                _ => post == pre && outs.len() == 0 && fault == Some(
                                    Fault::ResponseUnsupported,
                                ),
                            },
                            ResponseActV::Custom(rs) => {
                                &&& custom_steps(
                                    local,
                                    pre.sessions,
                                    pre.captured,
                                    addr,
                                    rs,
                                    post.sessions,
                                    outs,
                                    fault,
                                )
                                &&& post.challenges == pre.challenges
                                &&& post.captured == pre.captured
                            },
                        },
                    }
                }
            }
        },
    }
}

/// Executing a list of actions in order: each acts on the state the one
/// before left, and a fault stops the run at once.
pub open spec fn run_actions_rel(
    local: LocalNode,
    pre: StateV,
    p: InboundPacket,
    acts: Seq<ActionV>,
    post: StateV,
    outs: Seq<OutboundPacket>,
    res: Option<Fault>,
) -> bool
    decreases acts.len(),
{
    if acts.len() == 0 {
        post == pre && outs.len() == 0 && res is None
    } else {
        exists|mid: StateV, o1: Seq<OutboundPacket>, f1: Option<Fault>|
            {
                &&& #[trigger] action_step(local, pre, p, acts[0], mid, o1, f1)
                &&& match f1 {
                    Some(f) => post == mid && outs == o1 && res == Some(f),
                    None => exists|o2: Seq<OutboundPacket>|
                        {
                            &&& run_actions_rel(local, mid, p, acts.skip(1), post, o2, res)
                            &&& outs == o1 + o2
                        },
                }
            }
    }
}

/// A clean run followed by a further run is a run of the concatenation.
#[verifier::rlimit(100)]
#[verifier::spinoff_prover]
pub proof fn lemma_run_compose(
    local: LocalNode,
    p: InboundPacket,
    done: Seq<ActionV>,
    tail: Seq<ActionV>,
    pre: StateV,
    mid: StateV,
    o1: Seq<OutboundPacket>,
    post: StateV,
    o2: Seq<OutboundPacket>,
    res: Option<Fault>,
)
    requires
        run_actions_rel(local, pre, p, done, mid, o1, None),
        run_actions_rel(local, mid, p, tail, post, o2, res),
    ensures
        run_actions_rel(local, pre, p, done + tail, post, o1 + o2, res),
    decreases done.len(),
{
    if done.len() == 0 {
        assert(pre == mid && o1.len() == 0);
        assert(done + tail =~= tail);
        assert(o1 + o2 =~= o2);
    } else {
        let (m1, oa, f1) = choose|m1: StateV, oa: Seq<OutboundPacket>, f1: Option<Fault>|
            {
                &&& #[trigger] action_step(local, pre, p, done[0], m1, oa, f1)
                &&& match f1 {
                    Some(f) => mid == m1 && o1 == oa && None::<Fault> == Some(f),
                    None => exists|ob: Seq<OutboundPacket>|
                        {
                            &&& run_actions_rel(local, m1, p, done.skip(1), mid, ob, None)
                            &&& o1 == oa + ob
                        },
                }
            };
        assert(f1 is None);
        let ob = choose|ob: Seq<OutboundPacket>|
            {
                &&& run_actions_rel(local, m1, p, done.skip(1), mid, ob, None)
                &&& o1 == oa + ob
            };
        lemma_run_compose(local, p, done.skip(1), tail, m1, mid, ob, post, o2, res);
        let full = done + tail;
        assert(full[0] == done[0]);
        assert(full.skip(1) =~= done.skip(1) + tail);
        assert(oa + (ob + o2) =~= (oa + ob) + o2);
        assert(run_actions_rel(local, pre, p, full, post, o1 + o2, res)) by {
            assert(action_step(local, pre, p, full[0], m1, oa, f1));
            assert(exists|oz: Seq<OutboundPacket>|
                {
                    &&& run_actions_rel(local, m1, p, full.skip(1), post, oz, res)
                    &&& o1 + o2 == oa + oz
                }) by {
                assert(run_actions_rel(local, m1, p, full.skip(1), post, ob + o2, res));
                assert(o1 + o2 == oa + (ob + o2));
            }
        }
    }
}

// ---------------------------------------------------------------------------
// Executable helpers
// ---------------------------------------------------------------------------

/// The views of a run of captured requests.
pub open spec fn requests_view(v: Seq<RpcRequest>) -> Seq<RequestV> {
    v.map_values(|r: RpcRequest| r@)
}

/// Resolves the sender address of a packet that carries one.
fn node_address(inbound: &InboundPacket) -> (r: NodeAddress)
    requires
        inbound_wf(*inbound),
        !(inbound.header.kind is WhoAreYou),
    ensures
        r@ == sender_addr(*inbound),
        node_address_wf(r@),
{
    let node_id = match &inbound.header.kind {
        PacketKind::Message { src_id } => crate::bytes::subvec(src_id, 0, src_id.len()),
        PacketKind::Handshake { src_id, .. } => crate::bytes::subvec(src_id, 0, src_id.len()),
        PacketKind::WhoAreYou { .. } => vstd::pervasive::unreached(),
    };
    let r = NodeAddress {
        node_id,
        ip: crate::bytes::subvec(&inbound.src_ip, 0, inbound.src_ip.len()),
        port: inbound.src_port,
    };
    proof {
        assert(r.ip@ =~= inbound.src_ip@);
        assert(r.node_id@ =~= sender_addr(*inbound).node_id);
    }
    r
}

/// Copies an optional byte string.
fn clone_opt_bytes(r: &Option<Vec<u8>>) -> (c: Option<Vec<u8>>)
    ensures
        match (r, c) {
            (Some(a), Some(b)) => a@ == b@,
            (None, None) => true,
            _ => false,
        },
{
    match r {
        Some(v) => {
            let c = crate::bytes::subvec(v, 0, v.len());
            proof {
                assert(c@ =~= v@);
            }
            Some(c)
        },
        None => None,
    }
}

/// Copies a response body.
fn clone_response_body(b: &ResponseBody) -> (r: ResponseBody)
    ensures
        r@ == b@,
{
    match b {
        ResponseBody::Pong { enr_seq, ip, port } => {
            let ipc = crate::bytes::subvec(ip, 0, ip.len());
            proof {
                assert(ipc@ =~= ip@);
            }
            ResponseBody::Pong { enr_seq: *enr_seq, ip: ipc, port: *port }
        },
        ResponseBody::Nodes { total, nodes } => {
            let mut copied: Vec<Vec<u8>> = Vec::new();
            let mut i: usize = 0;
            while i < nodes.len()
                invariant
                    i <= nodes@.len(),
                    copied@.len() == i,
                    forall|j: int| 0 <= j < i ==> (#[trigger] copied@[j])@ == nodes@[j]@,
                decreases nodes@.len() - i,
            {
                let n = crate::bytes::subvec(&nodes[i], 0, nodes[i].len());
                proof {
                    assert(n@ =~= nodes@[i as int]@);
                }
                copied.push(n);
                i = i + 1;
            }
            let r = ResponseBody::Nodes { total: *total, nodes: copied };
            proof {
                assert(copied@.map_values(|n: Vec<u8>| n@) =~= nodes@.map_values(
                    |n: Vec<u8>| n@,
                ));
            }
            r
        },
        ResponseBody::Talk { response } => {
            let rc = crate::bytes::subvec(response, 0, response.len());
            proof {
                assert(rc@ =~= response@);
            }
            ResponseBody::Talk { response: rc }
        },
    }
}

/// Whether a decoded request is of the kind the script names.
fn check_request_kind(request: &RpcRequest, expected: &Request) -> (r: bool)
    ensures
        r == kind_matches_request(request@.body, *expected),
{
    match expected {
        Request::FindNode => matches!(request.body, crate::rpc::RequestBody::FindNode { .. }),
        Request::Ping => matches!(request.body, crate::rpc::RequestBody::Ping { .. }),
    }
}

/// Decrypts and decodes the current message under a session.
fn decode_message_with(session: &Session, inbound: &InboundPacket) -> (r: Result<RpcRequest, Fault>)
    requires
        inbound_wf(*inbound),
    ensures
        r is Ok <==> message_outcome(session@, *inbound) is Ok,
        r matches Ok(rq) ==> message_outcome(session@, *inbound) == Ok::<RequestV, Fault>(rq@),
        r matches Err(f) ==> message_outcome(session@, *inbound) == Err::<RequestV, Fault>(f),
{
    let pt = match session.decrypt_message(
        &inbound.header.message_nonce,
        &inbound.message,
        &inbound.authenticated_data,
    ) {
        Ok(pt) => pt,
        Err(_) => {
            return Err(Fault::DecryptionFailed);
        },
    };
    match crate::rpc::decode_message(&pt) {
        Ok(Message::Request(rq)) => Ok(rq),
        Ok(Message::Response) => Err(Fault::NotARequest),
        Err(_) => Err(Fault::MalformedMessage),
    }
}

/// Validates the queued expectation against the decoded packet.
fn check_expect(
    local: &LocalNode,
    challenges: &AddrMap<Challenge>,
    sessions: &AddrMap<Session>,
    inbound: &InboundPacket,
    expect: &Expect,
) -> (r: Option<Fault>)
    requires
        inbound_wf(*inbound),
        local_node_wf(*local),
    ensures
        r == expect_fault(*local, challenges@, sessions@, *inbound, *expect),
{
    match expect {
        Expect::WhoAreYou => {
            match &inbound.header.kind {
                PacketKind::WhoAreYou { .. } => None,
                _ => Some(Fault::UnexpectedPacket { expected: *expect }),
            }
        },
        Expect::MessageWithoutSession => {
            match &inbound.header.kind {
                PacketKind::Message { .. } => {
                    let addr = node_address(inbound);
                    if sessions.contains(&addr) {
                        Some(Fault::SessionExists)
                    } else {
                        None
                    }
                },
                _ => Some(Fault::UnexpectedPacket { expected: *expect }),
            }
        },
        Expect::Handshake(expected_kind) => {
            match &inbound.header.kind {
                PacketKind::Handshake { ephem_pubkey, enr_record, .. } => {
                    let addr = node_address(inbound);
                    let challenge = match challenges.get(&addr) {
                        Some(c) => c,
                        None => {
                            return Some(Fault::NoActiveChallenge);
                        },
                    };
                    let record = clone_opt_bytes(enr_record);
                    let (session, _record) = match Session::establish_from_challenge(
                        &local.key,
                        &local.node_id,
                        &addr.node_id,
                        challenge,
                        ephem_pubkey,
                        record,
                    ) {
                        Ok(x) => x,
                        Err(e) => {
                            return Some(Fault::EstablishFailed(e));
                        },
                    };
                    proof {
                        assert(session@ == derived_session(
                            *local,
                            sender_addr(*inbound).node_id,
                            challenges@[sender_addr(*inbound)],
                            ephem_pubkey@,
                        ));
                    }
                    match decode_message_with(&session, inbound) {
                        Err(f) => Some(f),
                        Ok(rq) => {
                            if check_request_kind(&rq, expected_kind) {
                                None
                            } else {
                                Some(Fault::UnexpectedRequestKind { expected: *expected_kind })
                            }
                        },
                    }
                },
                _ => Some(Fault::UnexpectedPacket { expected: *expect }),
            }
        },
        Expect::Message(expected_kind) => {
            match &inbound.header.kind {
                PacketKind::Message { .. } => {
                    let addr = node_address(inbound);
                    let session = match sessions.get(&addr) {
                        Some(s) => s,
                        None => {
                            return Some(Fault::NoSession);
                        },
                    };
                    match decode_message_with(session, inbound) {
                        Err(f) => Some(f),
                        Ok(rq) => {
                            if check_request_kind(&rq, expected_kind) {
                                None
                            } else {
                                Some(Fault::UnexpectedRequestKind { expected: *expected_kind })
                            }
                        },
                    }
                },
                _ => Some(Fault::UnexpectedPacket { expected: *expect }),
            }
        },
    }
}

/// Encrypts one response over the sender's session and hands it out; the
/// session's counter advances even when the cipher refuses the message.
fn send_one_response(
    local: &LocalNode,
    sessions: &mut AddrMap<Session>,
    addr: &NodeAddress,
    resp: &RpcResponse,
) -> (r: (Vec<OutboundPacket>, Option<Fault>))
    requires
        old(sessions)@.contains_key(addr@),
        response_wf(resp@),
        local_node_wf(*local),
    ensures
        send_response_step(*local, old(sessions)@, addr@, resp@, final(sessions)@, r.0@, r.1),
{
    let ghost pre = sessions@;
    let mut session = match sessions.remove(addr) {
        Some(s) => s,
        None => vstd::pervasive::unreached(),
    };
    if session.counter() == 0xffff_ffffu32 {
        sessions.insert(addr.duplicate(), session);
        proof {
            assert(sessions@ =~= pre);
        }
        return (Vec::new(), Some(Fault::NonceExhausted));
    }
    let bytes = crate::rpc::encode_response(resp);
    let result = session.encrypt_message(&local.node_id, &bytes);
    let ghost advanced = pre.insert(
        addr@,
        SessionV { keys: pre[addr@].keys, counter: (pre[addr@].counter + 1) as u32 },
    );
    sessions.insert(addr.duplicate(), session);
    proof {
        assert(sessions@ =~= advanced);
    }
    match result {
        Ok(packet) => {
            let mut outs: Vec<OutboundPacket> = Vec::new();
            outs.push(OutboundPacket { node_address: addr.duplicate(), packet });
            (outs, None)
        },
        Err(_) => (Vec::new(), None),
    }
}

/// Checks that a response can be carried by the codec.
fn response_wf_check(resp: &RpcResponse) -> (r: bool)
    ensures
        r == response_wf(resp@),
{
    if resp.id.0.len() > 8 {
        return false;
    }
    match &resp.body {
        ResponseBody::Pong { ip, port, .. } => (ip.len() == 4 || ip.len() == 16) && *port > 0,
        _ => true,
    }
}

/// Executes one scripted action against the per-peer state.
#[verifier::rlimit(100)]
fn do_one_action(
    local: &LocalNode,
    challenges: &mut AddrMap<Challenge>,
    sessions: &mut AddrMap<Session>,
    captured: &mut Vec<RpcRequest>,
    inbound: &InboundPacket,
    action: &Action,
) -> (r: (Vec<OutboundPacket>, Option<Fault>))
    requires
        inbound_wf(*inbound),
        local_node_wf(*local),
    ensures
        action_step(
            *local,
            StateV {
                challenges: old(challenges)@,
                sessions: old(sessions)@,
                captured: requests_view(old(captured)@),
            },
            *inbound,
            action@,
            StateV {
                challenges: final(challenges)@,
                sessions: final(sessions)@,
                captured: requests_view(final(captured)@),
            },
            r.0@,
            r.1,
        ),
{
    match action {
        Action::Ignore(_) => (Vec::new(), None),
        Action::SendWhoAreYou => {
            match &inbound.header.kind {
                PacketKind::WhoAreYou { .. } => (Vec::new(), Some(Fault::ActionRequiresSender)),
                _ => {
                    let addr = node_address(inbound);
                    if challenges.contains(&addr) {
                        (Vec::new(), Some(Fault::ChallengeAlreadySent))
                    } else {
                        let id_nonce = random_bytes16();
                        let iv = random_bytes16();
                        let nonce_copy = crate::bytes::subvec(
                            &inbound.header.message_nonce,
                            0,
                            inbound.header.message_nonce.len(),
                        );
                        proof {
                            assert(nonce_copy@ =~= inbound.header.message_nonce@);
                        }
                        let packet = Packet {
                            iv,
                            header: PacketHeader {
                                message_nonce: nonce_copy,
                                kind: PacketKind::WhoAreYou { id_nonce, enr_seq: 0 },
                            },
                            message: Vec::new(),
                        };
                        let data = crate::wire::authenticated_data(&packet);
                        challenges.insert(addr.duplicate(), Challenge { data, remote_enr: None });
                        let mut outs: Vec<OutboundPacket> = Vec::new();
                        outs.push(OutboundPacket { node_address: addr, packet });
                        (outs, None)
                    }
                },
            }
        },
        Action::EstablishSession => {
            match &inbound.header.kind {
                PacketKind::Handshake { ephem_pubkey, enr_record, .. } => {
                    let addr = node_address(inbound);
                    let challenge = match challenges.remove(&addr) {
                        Some(c) => c,
                        None => {
                            proof {
                                assert(challenges@ =~= old(challenges)@);
                            }
                            return (Vec::new(), Some(Fault::NoActiveChallenge));
                        },
                    };
                    let record = clone_opt_bytes(enr_record);
                    match Session::establish_from_challenge(
                        &local.key,
                        &local.node_id,
                        &addr.node_id,
                        &challenge,
                        ephem_pubkey,
                        record,
                    ) {
                        Ok((session, _record)) => {
                            proof {
                                assert(session@ == derived_session(
                                    *local,
                                    sender_addr(*inbound).node_id,
                                    old(challenges)@[sender_addr(*inbound)],
                                    ephem_pubkey@,
                                ));
                            }
                            sessions.insert(addr, session);
                            (Vec::new(), None)
                        },
                        Err(e) => (Vec::new(), Some(Fault::EstablishFailed(e))),
                    }
                },
                _ => (Vec::new(), Some(Fault::ActionRequiresHandshake)),
            }
        },
        Action::CaptureRequest => {
            match &inbound.header.kind {
                PacketKind::WhoAreYou { .. } => (Vec::new(), Some(Fault::ActionRequiresSender)),
                _ => {
                    let addr = node_address(inbound);
                    let decoded = {
                        let session = match sessions.get(&addr) {
                            Some(s) => s,
                            None => {
                                return (Vec::new(), Some(Fault::NoSession));
                            },
                        };
                        decode_message_with(session, inbound)
                    };
                    match decoded {
                        Ok(rq) => {
                            captured.push(rq);
                            proof {
                                assert(requests_view(captured@) =~= requests_view(
                                    old(captured)@,
                                ).push(captured@.last()@));
                            }
                            (Vec::new(), None)
                        },
                        Err(f) => (Vec::new(), Some(f)),
                    }
                },
            }
        },
        Action::SendResponse(response) => {
            match &inbound.header.kind {
                PacketKind::WhoAreYou { .. } => (Vec::new(), Some(Fault::ActionRequiresSender)),
                _ => {
                    let addr = node_address(inbound);
                    let decoded = {
                        let session = match sessions.get(&addr) {
                            Some(s) => s,
                            None => {
                                return (Vec::new(), Some(Fault::NoSession));
                            },
                        };
                        decode_message_with(session, inbound)
                    };
                    let rq = match decoded {
                        Ok(rq) => rq,
                        Err(f) => {
                            return (Vec::new(), Some(f));
                        },
                    };
                    match response {
                        Response::Default => {
                            match &rq.body {
                                crate::rpc::RequestBody::Ping { .. } => {
                                    proof {
                                        let s = old(sessions)@[sender_addr(*inbound)];
                                        let pt = session_plaintext(
                                            s,
                                            inbound.header.message_nonce@,
                                            inbound.message@,
                                            inbound.authenticated_data@,
                                        );
                                        crate::rpc::lemma_parse_request_id_short(pt.unwrap());
                                    }
                                    let idc = crate::bytes::subvec(&rq.id.0, 0, rq.id.0.len());
                                    let ipc = crate::bytes::subvec(&local.ip, 0, local.ip.len());
                                    proof {
                                        assert(idc@ =~= rq.id.0@);
                                        assert(ipc@ =~= local.ip@);
                                    }
                                    let resp = RpcResponse {
                                        id: RequestId(idc),
                                        body: ResponseBody::Pong {
                                            enr_seq: local.enr_seq,
                                            ip: ipc,
                                            port: local.udp_port,
                                        },
                                    };
                                    send_one_response(local, sessions, &addr, &resp)
                                },
                                _ => (Vec::new(), Some(Fault::ResponseUnsupported)),
                            }
                        },
                        Response::Custom(list) => send_custom_responses(
                            local,
                            sessions,
                            captured,
                            &addr,
                            list,
                        ),
                    }
                },
            }
        },
    }
}

/// Sends the scripted responses in order, each echoing the captured request
/// it names.
#[verifier::rlimit(100)]
fn send_custom_responses(
    local: &LocalNode,
    sessions: &mut AddrMap<Session>,
    captured: &Vec<RpcRequest>,
    addr: &NodeAddress,
    list: &Vec<CustomResponse>,
) -> (r: (Vec<OutboundPacket>, Option<Fault>))
    requires
        local_node_wf(*local),
        old(sessions)@.contains_key(addr@),
    ensures
        custom_steps(
            *local,
            old(sessions)@,
            requests_view(captured@),
            addr@,
            list@.map_values(|c: CustomResponse| c@),
            final(sessions)@,
            r.0@,
            r.1,
        ),
{
    let ghost pre_sessions = sessions@;
    let ghost crs = list@.map_values(|c: CustomResponse| c@);
    let ghost capturedv = requests_view(captured@);
    let mut outs: Vec<OutboundPacket> = Vec::new();
    let mut j: usize = 0;
    while j < list.len()
        invariant
            j <= list@.len(),
            pre_sessions == old(sessions)@,
            crs == list@.map_values(|c: CustomResponse| c@),
            crs.len() == list@.len(),
            capturedv == requests_view(captured@),
            local_node_wf(*local),
            sessions@.contains_key(addr@),
            custom_steps(
                *local,
                pre_sessions,
                capturedv,
                addr@,
                crs.take(j as int),
                sessions@,
                outs@,
                None,
            ),
        decreases list@.len() - j,
    {
        let ghost s_before = sessions@;
        let ghost outs_before = outs@;
        let cr = &list[j];
        let index = match cr.id {
            crate::behaviour::CustomResponseId::CapturedRequestId(i) => i,
        };
        if index >= captured.len() {
            proof {
                let f = Fault::NoCapturedRequest { index };
                assert(crs[j as int] == cr@);
                assert(capturedv.len() == captured@.len());
                assert(crs.skip(j as int)[0] == crs[j as int]);
                assert(custom_steps(
                    *local,
                    s_before,
                    capturedv,
                    addr@,
                    crs.skip(j as int),
                    s_before,
                    Seq::<OutboundPacket>::empty(),
                    Some(f),
                ));
                lemma_custom_compose(
                    *local,
                    capturedv,
                    addr@,
                    crs.take(j as int),
                    crs.skip(j as int),
                    pre_sessions,
                    s_before,
                    outs_before,
                    s_before,
                    Seq::<OutboundPacket>::empty(),
                    Some(f),
                );
                assert(crs.take(j as int) + crs.skip(j as int) =~= crs);
                assert(outs_before + Seq::<OutboundPacket>::empty() =~= outs_before);
            }
            return (outs, Some(Fault::NoCapturedRequest { index }));
        }
        let idc = crate::bytes::subvec(&captured[index].id.0, 0, captured[index].id.0.len());
        proof {
            assert(idc@ =~= captured@[index as int].id.0@);
        }
        let body = clone_response_body(&cr.body);
        let resp = RpcResponse { id: RequestId(idc), body };
        proof {
            assert(capturedv[index as int] == captured@[index as int]@);
            assert(crs[j as int] == cr@);
            assert(capturedv.len() == captured@.len());
            assert(resp@ == (ResponseV {
                id: capturedv[index as int].id,
                body: crs[j as int].body,
            }));
        }
        if !response_wf_check(&resp) {
            proof {
                let f = Fault::InvalidCustomResponse { index };
                assert(crs.skip(j as int)[0] == crs[j as int]);
                assert(custom_steps(
                    *local,
                    s_before,
                    capturedv,
                    addr@,
                    crs.skip(j as int),
                    s_before,
                    Seq::<OutboundPacket>::empty(),
                    Some(f),
                ));
                lemma_custom_compose(
                    *local,
                    capturedv,
                    addr@,
                    crs.take(j as int),
                    crs.skip(j as int),
                    pre_sessions,
                    s_before,
                    outs_before,
                    s_before,
                    Seq::<OutboundPacket>::empty(),
                    Some(f),
                );
                assert(crs.take(j as int) + crs.skip(j as int) =~= crs);
                assert(outs_before + Seq::<OutboundPacket>::empty() =~= outs_before);
            }
            return (outs, Some(Fault::InvalidCustomResponse { index }));
        }
        let (mut o1, f) = send_one_response(local, sessions, addr, &resp);
        let ghost s_after = sessions@;
        let ghost o1v = o1@;
        outs.append(&mut o1);
        match f {
            Some(fault) => {
                proof {
                    assert(crs.skip(j as int)[0] == crs[j as int]);
                    assert(custom_steps(
                        *local,
                        s_before,
                        capturedv,
                        addr@,
                        crs.skip(j as int),
                        s_after,
                        o1v,
                        Some(fault),
                    ));
                    lemma_custom_compose(
                        *local,
                        capturedv,
                        addr@,
                        crs.take(j as int),
                        crs.skip(j as int),
                        pre_sessions,
                        s_before,
                        outs_before,
                        s_after,
                        o1v,
                        Some(fault),
                    );
                    assert(crs.take(j as int) + crs.skip(j as int) =~= crs);
                }
                return (outs, Some(fault));
            },
            None => {
                proof {
                    let single = seq![crs[j as int]];
                    assert(single[0] == crs[j as int]);
                    assert(single.skip(1) =~= Seq::<CustomResponseV>::empty());
                    assert(custom_steps(
                        *local,
                        s_after,
                        capturedv,
                        addr@,
                        single.skip(1),
                        s_after,
                        Seq::<OutboundPacket>::empty(),
                        None,
                    ));
                    assert(o1v + Seq::<OutboundPacket>::empty() =~= o1v);
                    assert(custom_steps(
                        *local,
                        s_before,
                        capturedv,
                        addr@,
                        single,
                        s_after,
                        o1v,
                        None,
                    ));
                    lemma_custom_compose(
                        *local,
                        capturedv,
                        addr@,
                        crs.take(j as int),
                        single,
                        pre_sessions,
                        s_before,
                        outs_before,
                        s_after,
                        o1v,
                        None,
                    );
                    assert(crs.take(j as int) + single =~= crs.take(j + 1));
                }
            },
        }
        j = j + 1;
    }
    proof {
        assert(crs.take(list@.len() as int) =~= crs);
    }
    (outs, None)
}

/// Executes a scripted action list in order; a fault stops the run at once,
/// with the packets already produced still handed out.
fn do_actions(
    local: &LocalNode,
    challenges: &mut AddrMap<Challenge>,
    sessions: &mut AddrMap<Session>,
    captured: &mut Vec<RpcRequest>,
    inbound: &InboundPacket,
    actions: &Vec<Action>,
) -> (r: (Vec<OutboundPacket>, Option<Fault>))
    requires
        inbound_wf(*inbound),
        local_node_wf(*local),
    ensures
        run_actions_rel(
            *local,
            StateV {
                challenges: old(challenges)@,
                sessions: old(sessions)@,
                captured: requests_view(old(captured)@),
            },
            *inbound,
            actions@.map_values(|a: Action| a@),
            StateV {
                challenges: final(challenges)@,
                sessions: final(sessions)@,
                captured: requests_view(final(captured)@),
            },
            r.0@,
            r.1,
        ),
{
    let ghost pre = StateV {
        challenges: old(challenges)@,
        sessions: old(sessions)@,
        captured: requests_view(old(captured)@),
    };
    let ghost acts = actions@.map_values(|a: Action| a@);
    let mut outs: Vec<OutboundPacket> = Vec::new();
    let mut i: usize = 0;
    while i < actions.len()
        invariant
            i <= actions@.len(),
            pre == (StateV {
                challenges: old(challenges)@,
                sessions: old(sessions)@,
                captured: requests_view(old(captured)@),
            }),
            acts == actions@.map_values(|a: Action| a@),
            acts.len() == actions@.len(),
            inbound_wf(*inbound),
            local_node_wf(*local),
            run_actions_rel(
                *local,
                pre,
                *inbound,
                acts.take(i as int),
                StateV {
                    challenges: challenges@,
                    sessions: sessions@,
                    captured: requests_view(captured@),
                },
                outs@,
                None,
            ),
        decreases actions@.len() - i,
    {
        let ghost cur = StateV {
            challenges: challenges@,
            sessions: sessions@,
            captured: requests_view(captured@),
        };
        let ghost outs_before = outs@;
        let (mut o1, f) = do_one_action(local, challenges, sessions, captured, inbound, &actions[i]);
        let ghost stepped = StateV {
            challenges: challenges@,
            sessions: sessions@,
            captured: requests_view(captured@),
        };
        let ghost o1v = o1@;
        outs.append(&mut o1);
        proof {
            assert(acts[i as int] == actions@[i as int]@);
        }
        match f {
            Some(fault) => {
                proof {
                    assert(acts.skip(i as int)[0] == acts[i as int]);
                    assert(run_actions_rel(
                        *local,
                        cur,
                        *inbound,
                        acts.skip(i as int),
                        stepped,
                        o1v,
                        Some(fault),
                    ));
                    lemma_run_compose(
                        *local,
                        *inbound,
                        acts.take(i as int),
                        acts.skip(i as int),
                        pre,
                        cur,
                        outs_before,
                        stepped,
                        o1v,
                        Some(fault),
                    );
                    assert(acts.take(i as int) + acts.skip(i as int) =~= acts);
                }
                return (outs, Some(fault));
            },
            None => {
                proof {
                    let single = seq![acts[i as int]];
                    assert(single[0] == acts[i as int]);
                    assert(single.skip(1) =~= Seq::<ActionV>::empty());
                    assert(run_actions_rel(
                        *local,
                        stepped,
                        *inbound,
                        single.skip(1),
                        stepped,
                        Seq::<OutboundPacket>::empty(),
                        None,
                    ));
                    assert(o1v + Seq::<OutboundPacket>::empty() =~= o1v);
                    assert(run_actions_rel(*local, cur, *inbound, single, stepped, o1v, None));
                    lemma_run_compose(
                        *local,
                        *inbound,
                        acts.take(i as int),
                        single,
                        pre,
                        cur,
                        outs_before,
                        stepped,
                        o1v,
                        None,
                    );
                    assert(acts.take(i as int) + single =~= acts.take(i + 1));
                }
            },
        }
        i = i + 1;
    }
    proof {
        assert(acts.take(actions@.len() as int) =~= acts);
    }
    (outs, None)
}

/// Every scripted response echoes exactly the id of the captured request it
/// names: over a whole run of scripted responses, response `j` leaves
/// encrypted under the sender's session with the counter advanced by `j + 1`,
/// carrying the id of `captured[rs[j].index]` — so two responses tagged to
/// the same capture both carry that id, in list order. The side conditions
/// are machine limits: every named index exists, every body is one the codec
/// carries, the counter has room for the whole run, and no response exceeds
/// the cipher's byte bound.
#[verifier::rlimit(100)]
#[verifier::spinoff_prover]
pub proof fn lemma_custom_responses_echo_captured_ids(
    local: LocalNode,
    sessions: Map<NodeAddressV, SessionV>,
    captured: Seq<RequestV>,
    addr: NodeAddressV,
    rs: Seq<CustomResponseV>,
    post_sessions: Map<NodeAddressV, SessionV>,
    outs: Seq<OutboundPacket>,
    fault: Option<Fault>,
)
    requires
        custom_steps(local, sessions, captured, addr, rs, post_sessions, outs, fault),
        sessions.contains_key(addr),
        sessions[addr].counter + rs.len() <= 0xffff_ffff,
        forall|j: int| 0 <= j < rs.len() ==> (#[trigger] rs[j]).index < captured.len(),
        forall|j: int|
            0 <= j < rs.len() ==> response_wf(
                ResponseV { id: captured[(#[trigger] rs[j]).index as int].id, body: rs[j].body },
            ),
        forall|j: int|
            0 <= j < rs.len() ==> response_bytes(
                ResponseV { id: captured[(#[trigger] rs[j]).index as int].id, body: rs[j].body },
            ).len() <= 0x10_0000_0000,
    ensures
        fault is None,
        outs.len() == rs.len(),
        forall|j: int|
            0 <= j < rs.len() ==> (#[trigger] outs[j]).node_address@ == addr && response_packet(
                outs[j].packet,
                SessionV {
                    keys: sessions[addr].keys,
                    counter: (sessions[addr].counter + j) as u32,
                },
                local.node_id@,
                ResponseV { id: captured[rs[j].index as int].id, body: rs[j].body },
            ),
        post_sessions == sessions.insert(
            addr,
            SessionV {
                keys: sessions[addr].keys,
                counter: (sessions[addr].counter + rs.len()) as u32,
            },
        ),
    decreases rs.len(),
{
    let s = sessions[addr];
    if rs.len() == 0 {
        assert(post_sessions =~= sessions.insert(
            addr,
            SessionV { keys: s.keys, counter: (s.counter + 0) as u32 },
        ));
    } else {
        let cr = rs[0];
        let resp = ResponseV { id: captured[cr.index as int].id, body: cr.body };
        let (mid, o1, f1) = choose|
            mid: Map<NodeAddressV, SessionV>,
            o1: Seq<OutboundPacket>,
            f1: Option<Fault>,
        |
            {
                &&& #[trigger] send_response_step(local, sessions, addr, resp, mid, o1, f1)
                &&& match f1 {
                    Some(f) => post_sessions == mid && outs == o1 && fault == Some(f),
                    None => exists|o2: Seq<OutboundPacket>|
                        {
                            &&& custom_steps(
                                local,
                                mid,
                                captured,
                                addr,
                                rs.skip(1),
                                post_sessions,
                                o2,
                                fault,
                            )
                            &&& outs == o1 + o2
                        },
                }
            };
        assert(s.counter != 0xffff_ffffu32);
        assert(f1 is None);
        let advanced = SessionV { keys: s.keys, counter: (s.counter + 1) as u32 };
        assert(mid == sessions.insert(addr, advanced));
        assert(o1.len() == 1 && o1[0].node_address@ == addr && response_packet(
            o1[0].packet,
            s,
            local.node_id@,
            resp,
        ));
        let o2 = choose|o2: Seq<OutboundPacket>|
            {
                &&& custom_steps(local, mid, captured, addr, rs.skip(1), post_sessions, o2, fault)
                &&& outs == o1 + o2
            };
        assert(mid[addr] == advanced);
        assert forall|j: int| 0 <= j < rs.skip(1).len() implies (#[trigger] rs.skip(1)[j]).index
            < captured.len() && response_wf(
            ResponseV { id: captured[rs.skip(1)[j].index as int].id, body: rs.skip(1)[j].body },
        ) && response_bytes(
            ResponseV { id: captured[rs.skip(1)[j].index as int].id, body: rs.skip(1)[j].body },
        ).len() <= 0x10_0000_0000 by {
            assert(rs.skip(1)[j] == rs[j + 1]);
        }
        lemma_custom_responses_echo_captured_ids(
            local,
            mid,
            captured,
            addr,
            rs.skip(1),
            post_sessions,
            o2,
            fault,
        );
        assert forall|j: int| 0 <= j < rs.len() implies (#[trigger] outs[j]).node_address@ == addr
            && response_packet(
            outs[j].packet,
            SessionV { keys: s.keys, counter: (s.counter + j) as u32 },
            local.node_id@,
            ResponseV { id: captured[rs[j].index as int].id, body: rs[j].body },
        ) by {
            if j == 0 {
                assert(outs[0] == o1[0]);
            } else {
                assert(outs[j] == o2[j - 1]);
                assert(rs.skip(1)[j - 1] == rs[j]);
                assert(mid[addr].counter == s.counter + 1);
            }
        }
        assert(post_sessions == mid.insert(
            addr,
            SessionV { keys: advanced.keys, counter: (advanced.counter + rs.skip(1).len()) as u32 },
        ));
        assert(post_sessions =~= sessions.insert(
            addr,
            SessionV { keys: s.keys, counter: (s.counter + rs.len()) as u32 },
        ));
    }
}

/// The action list the declarative table selects for a packet.
pub open spec fn declarative_actions(
    d: DeclarativeV,
    sessions: Map<NodeAddressV, SessionV>,
    p: InboundPacket,
) -> Seq<ActionV> {
    match p.header.kind {
        PacketKind::Message { .. } => {
            if sessions.contains_key(sender_addr(p)) {
                d.message
            } else {
                d.message_without_session
            }
        },
        PacketKind::WhoAreYou { .. } => d.whoareyou,
        PacketKind::Handshake { .. } => d.handshake,
    }
}

// ---------------------------------------------------------------------------
// The handler
// ---------------------------------------------------------------------------

/// What one processed packet owes: the script moves as its shape demands,
/// the expectation is validated, and the actions run in order.
pub open spec fn process_outcome(
    pre_local: LocalNode,
    pre_script: BehavioursV,
    pre_state: StateV,
    inbound: InboundPacket,
    post_script: BehavioursV,
    post_state: StateV,
    outs: Seq<OutboundPacket>,
    res: Option<Fault>,
) -> bool {
    match pre_script {
        BehavioursV::Sequential(q) => {
            if q.len() == 0 {
                &&& res == Some(Fault::BehavioursExhausted)
                &&& post_state == pre_state
                &&& outs.len() == 0
                &&& post_script == pre_script
            } else {
                let b = q[0];
                &&& post_script == BehavioursV::Sequential(q.skip(1))
                &&& match expect_fault(
                    pre_local,
                    pre_state.challenges,
                    pre_state.sessions,
                    inbound,
                    b.expect,
                ) {
                    Some(f) => res == Some(f) && post_state == pre_state && outs.len() == 0,
                    None => run_actions_rel(
                        pre_local,
                        pre_state,
                        inbound,
                        b.actions,
                        post_state,
                        outs,
                        res,
                    ),
                }
            }
        },
        BehavioursV::Declarative(d) => {
            &&& post_script == pre_script
            &&& run_actions_rel(
                pre_local,
                pre_state,
                inbound,
                declarative_actions(d, pre_state.sessions, inbound),
                post_state,
                outs,
                res,
            )
        },
    }
}

/// The mock peer's driving state machine: it owns all per-peer session and
/// challenge state, consumes inbound packets, matches them against the
/// behaviour script, and issues outbound packets.
pub struct Handler {
    /// The mock's own identity and key.
    pub local: LocalNode,
    /// The behaviour script supplied at startup.
    pub behaviours: Behaviours,
    /// The outstanding challenges, keyed by the peer they were issued to.
    pub active_challenges: AddrMap<Challenge>,
    /// The established sessions, keyed by peer address.
    pub sessions: AddrMap<Session>,
    /// The requests retained by scripted captures, in arrival order.
    pub captured_requests: Vec<RpcRequest>,
}

impl Handler {
    /// The handler's whole per-peer state.
    pub open spec fn state(self) -> StateV {
        StateV {
            challenges: self.active_challenges@,
            sessions: self.sessions@,
            captured: requests_view(self.captured_requests@),
        }
    }

    /// A fresh handler: empty maps, no captures, the full script.
    pub fn new(local: LocalNode, behaviours: Behaviours) -> (r: Handler)
        ensures
            r.local == local,
            r.behaviours == behaviours,
            r.state().challenges == Map::<NodeAddressV, ChallengeV>::empty(),
            r.state().sessions == Map::<NodeAddressV, SessionV>::empty(),
            r.state().captured == Seq::<RequestV>::empty(),
    {
        let r = Handler {
            local,
            behaviours,
            active_challenges: AddrMap::new(),
            sessions: AddrMap::new(),
            captured_requests: Vec::new(),
        };
        proof {
            assert(requests_view(r.captured_requests@) =~= Seq::<RequestV>::empty());
        }
        r
    }

    /// Consumes one inbound packet: classifies it, validates it against the
    /// script, executes the selected actions, and returns the packets to
    /// send, with the fault that must abort the run, if one arose.
    pub fn process_inbound_packet(&mut self, inbound: InboundPacket) -> (r: (
        Vec<OutboundPacket>,
        Option<Fault>,
    ))
        requires
            inbound_wf(inbound),
            local_node_wf(old(self).local),
        ensures
            final(self).local == old(self).local,
            process_outcome(
                old(self).local,
                old(self).behaviours@,
                old(self).state(),
                inbound,
                final(self).behaviours@,
                final(self).state(),
                r.0@,
                r.1,
            ),
    {
        match &self.behaviours {
            Behaviours::Declarative(_) => self.process_inbound_packet_declarative(inbound),
            Behaviours::Sequential(_) => self.process_inbound_packet_sequential(inbound),
        }
    }

    /// Processes a packet against the sequential script: the front entry is
    /// consumed, its expectation checked, and its actions executed.
    pub fn process_inbound_packet_sequential(&mut self, inbound: InboundPacket) -> (r: (
        Vec<OutboundPacket>,
        Option<Fault>,
    ))
        requires
            inbound_wf(inbound),
            local_node_wf(old(self).local),
            old(self).behaviours is Sequential,
        ensures
            final(self).local == old(self).local,
            process_outcome(
                old(self).local,
                old(self).behaviours@,
                old(self).state(),
                inbound,
                final(self).behaviours@,
                final(self).state(),
                r.0@,
                r.1,
            ),
    {
        let ghost q0 = match old(self).behaviours@ {
            BehavioursV::Sequential(q) => q,
            BehavioursV::Declarative(_) => Seq::empty(),
        };
        let behaviour_opt = match &mut self.behaviours {
            Behaviours::Sequential(q) => q.pop_front(),
            Behaviours::Declarative(_) => vstd::pervasive::unreached(),
        };
        let behaviour = match behaviour_opt {
            Some(b) => b,
            None => {
                return (Vec::new(), Some(Fault::BehavioursExhausted));
            },
        };
        proof {
            let qnew = match self.behaviours@ {
                BehavioursV::Sequential(q) => q,
                BehavioursV::Declarative(_) => Seq::empty(),
            };
            assert(qnew =~= q0.skip(1));
            assert(behaviour@ == q0[0]);
        }
        match check_expect(
            &self.local,
            &self.active_challenges,
            &self.sessions,
            &inbound,
            &behaviour.expect,
        ) {
            Some(f) => (Vec::new(), Some(f)),
            None => do_actions(
                &self.local,
                &mut self.active_challenges,
                &mut self.sessions,
                &mut self.captured_requests,
                &inbound,
                &behaviour.actions,
            ),
        }
    }

    /// Processes a packet against the declarative table: the category's
    /// action list is applied without being consumed.
    pub fn process_inbound_packet_declarative(&mut self, inbound: InboundPacket) -> (r: (
        Vec<OutboundPacket>,
        Option<Fault>,
    ))
        requires
            inbound_wf(inbound),
            local_node_wf(old(self).local),
            old(self).behaviours is Declarative,
        ensures
            final(self).local == old(self).local,
            process_outcome(
                old(self).local,
                old(self).behaviours@,
                old(self).state(),
                inbound,
                final(self).behaviours@,
                final(self).state(),
                r.0@,
                r.1,
            ),
    {
        let with_session: bool = match &inbound.header.kind {
            PacketKind::Message { .. } => {
                let addr = node_address(&inbound);
                self.sessions.contains(&addr)
            },
            _ => false,
        };
        let d = match &self.behaviours {
            Behaviours::Declarative(d) => d,
            Behaviours::Sequential(_) => vstd::pervasive::unreached(),
        };
        let actions: &Vec<Action> = match &inbound.header.kind {
            PacketKind::Message { .. } => {
                if with_session {
                    &d.message
                } else {
                    &d.message_without_session
                }
            },
            PacketKind::WhoAreYou { .. } => &d.whoareyou,
            PacketKind::Handshake { .. } => &d.handshake,
        };
        do_actions(
            &self.local,
            &mut self.active_challenges,
            &mut self.sessions,
            &mut self.captured_requests,
            &inbound,
            actions,
        )
    }
}

/// A random unsolicited packet: an ordinary message header over opaque
/// random contents, used to provoke a challenge from a peer.
pub fn random_packet(src_id: &Vec<u8>) -> (r: Packet)
    requires
        src_id@.len() == 32,
    ensures
        packet_wf(r),
        r.header.kind matches PacketKind::Message { src_id: s } && s@ == src_id@,
        r.message@.len() == 44,
{
    let iv = random_bytes16();
    let message_nonce = crate::crypto::random_bytes(12);
    let message = crate::crypto::random_bytes(44);
    let src = crate::bytes::subvec(src_id, 0, src_id.len());
    proof {
        assert(src@ =~= src_id@);
    }
    Packet {
        iv,
        header: PacketHeader { message_nonce, kind: PacketKind::Message { src_id: src } },
        message,
    }
}

} // verus!
