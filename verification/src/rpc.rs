//! The request/response message codec carried inside decrypted messages.
//!
//! Messages are a one-byte message type followed by a canonical RLP list.
//! The mock speaks the scripted subset: it parses ping, find-node and talk
//! requests, classifies responses without reading their bodies, and encodes
//! pong, nodes and talk responses.
use crate::bytes::{min_be, read_be_val, seq_be_val, subvec};
use crate::errors::Error;
use vstd::prelude::*;

verus! {

// ---------------------------------------------------------------------------
// Message model
// ---------------------------------------------------------------------------

/// The identifier a response must echo: at most eight raw bytes.
pub struct RequestId(pub Vec<u8>);

/// The body of a request the mock can be scripted to receive.
pub enum RequestBody {
    /// A PING request carrying the sender's record sequence number.
    Ping { enr_seq: u64 },
    /// A FINDNODE request carrying the distances asked for.
    FindNode { distances: Vec<u64> },
    /// A TALK request carrying a protocol tag and an opaque request.
    Talk { protocol: Vec<u8>, request: Vec<u8> },
}

/// A request received from a peer.
pub struct RpcRequest {
    pub id: RequestId,
    pub body: RequestBody,
}

/// The body of a response the mock can be scripted to send.
#[derive(Clone)]
pub enum ResponseBody {
    /// A PONG response: own record sequence, and the peer's address as seen.
    Pong { enr_seq: u64, ip: Vec<u8>, port: u16 },
    /// A NODES response: the total response count and raw node records.
    Nodes { total: u64, nodes: Vec<Vec<u8>> },
    /// A TALK response carrying an opaque reply.
    Talk { response: Vec<u8> },
}

/// A response sent to a peer.
pub struct RpcResponse {
    pub id: RequestId,
    pub body: ResponseBody,
}

/// A decoded message: a fully parsed request, or a response, whose body the
/// mock never reads.
pub enum Message {
    Request(RpcRequest),
    Response,
}

// Spec-level images of the message types.

pub struct RequestV {
    pub id: Seq<u8>,
    pub body: RequestBodyV,
}

pub enum RequestBodyV {
    Ping { enr_seq: u64 },
    FindNode { distances: Seq<u64> },
    Talk { protocol: Seq<u8>, request: Seq<u8> },
}

pub struct ResponseV {
    pub id: Seq<u8>,
    pub body: ResponseBodyV,
}

pub enum ResponseBodyV {
    Pong { enr_seq: u64, ip: Seq<u8>, port: u16 },
    Nodes { total: u64, nodes: Seq<Seq<u8>> },
    Talk { response: Seq<u8> },
}

pub enum MessageV {
    Request(RequestV),
    Response,
}

impl View for RequestId {
    type V = Seq<u8>;

    open spec fn view(&self) -> Seq<u8> {
        self.0@
    }
}

impl View for RequestBody {
    type V = RequestBodyV;

    open spec fn view(&self) -> RequestBodyV {
        match self {
            RequestBody::Ping { enr_seq } => RequestBodyV::Ping { enr_seq: *enr_seq },
            RequestBody::FindNode { distances } => RequestBodyV::FindNode {
                distances: distances@,
            },
            RequestBody::Talk { protocol, request } => RequestBodyV::Talk {
                protocol: protocol@,
                request: request@,
            },
        }
    }
}

impl View for RpcRequest {
    type V = RequestV;

    open spec fn view(&self) -> RequestV {
        RequestV { id: self.id@, body: self.body@ }
    }
}

impl View for ResponseBody {
    type V = ResponseBodyV;

    open spec fn view(&self) -> ResponseBodyV {
        match self {
            ResponseBody::Pong { enr_seq, ip, port } => ResponseBodyV::Pong {
                enr_seq: *enr_seq,
                ip: ip@,
                port: *port,
            },
            ResponseBody::Nodes { total, nodes } => ResponseBodyV::Nodes {
                total: *total,
                nodes: nodes@.map_values(|n: Vec<u8>| n@),
            },
            ResponseBody::Talk { response } => ResponseBodyV::Talk { response: response@ },
        }
    }
}

impl View for RpcResponse {
    type V = ResponseV;

    open spec fn view(&self) -> ResponseV {
        ResponseV { id: self.id@, body: self.body@ }
    }
}

impl View for Message {
    type V = MessageV;

    open spec fn view(&self) -> MessageV {
        match self {
            Message::Request(r) => MessageV::Request(r@),
            Message::Response => MessageV::Response,
        }
    }
}

// ---------------------------------------------------------------------------
// Canonical RLP encoding
// ---------------------------------------------------------------------------

/// A byte string as an RLP item.
pub open spec fn rlp_bytes(payload: Seq<u8>) -> Seq<u8> {
    if payload.len() == 1 && payload[0] < 0x80 {
        payload
    } else if payload.len() <= 55 {
        seq![(0x80 + payload.len()) as u8] + payload
    } else {
        seq![(0xb7 + min_be(payload.len() as int).len()) as u8] + min_be(payload.len() as int)
            + payload
    }
}

/// A list with the given item payload as an RLP item.
pub open spec fn rlp_list(payload: Seq<u8>) -> Seq<u8> {
    if payload.len() <= 55 {
        seq![(0xc0 + payload.len()) as u8] + payload
    } else {
        seq![(0xf7 + min_be(payload.len() as int).len()) as u8] + min_be(payload.len() as int)
            + payload
    }
}

/// An unsigned value as an RLP item: its minimal big-endian bytes.
pub open spec fn rlp_uint(v: u64) -> Seq<u8> {
    rlp_bytes(min_be(v as int))
}

/// The concatenated encodings of a sequence of unsigned values.
pub open spec fn rlp_uints(vs: Seq<u64>) -> Seq<u8>
    decreases vs.len(),
{
    if vs.len() == 0 {
        Seq::empty()
    } else {
        rlp_uints(vs.drop_last()) + rlp_uint(vs.last())
    }
}

/// The concatenation of raw, already-encoded items.
pub open spec fn rlp_raw_items(items: Seq<Seq<u8>>) -> Seq<u8>
    decreases items.len(),
{
    if items.len() == 0 {
        Seq::empty()
    } else {
        rlp_raw_items(items.drop_last()) + items.last()
    }
}

/// The message type byte of a request.
pub open spec fn request_type(body: RequestBodyV) -> u8 {
    match body {
        RequestBodyV::Ping { .. } => 1,
        RequestBodyV::FindNode { .. } => 3,
        RequestBodyV::Talk { .. } => 5,
    }
}

/// The message type byte of a response.
pub open spec fn response_type(body: ResponseBodyV) -> u8 {
    match body {
        ResponseBodyV::Pong { .. } => 2,
        ResponseBodyV::Nodes { .. } => 4,
        ResponseBodyV::Talk { .. } => 6,
    }
}

/// The RLP list payload of a request.
pub open spec fn request_payload(r: RequestV) -> Seq<u8> {
    match r.body {
        RequestBodyV::Ping { enr_seq } => rlp_bytes(r.id) + rlp_uint(enr_seq),
        RequestBodyV::FindNode { distances } => rlp_bytes(r.id) + rlp_list(rlp_uints(distances)),
        RequestBodyV::Talk { protocol, request } => rlp_bytes(r.id) + rlp_bytes(protocol)
            + rlp_bytes(request),
    }
}

/// The RLP list payload of a response.
pub open spec fn response_payload(r: ResponseV) -> Seq<u8> {
    match r.body {
        ResponseBodyV::Pong { enr_seq, ip, port } => rlp_bytes(r.id) + rlp_uint(enr_seq)
            + rlp_bytes(ip) + rlp_uint(port as u64),
        ResponseBodyV::Nodes { total, nodes } => rlp_bytes(r.id) + rlp_uint(total) + rlp_list(
            rlp_raw_items(nodes),
        ),
        ResponseBodyV::Talk { response } => rlp_bytes(r.id) + rlp_bytes(response),
    }
}

/// The full encoding of a request: type byte, then the RLP list.
pub open spec fn request_bytes(r: RequestV) -> Seq<u8> {
    seq![request_type(r.body)] + rlp_list(request_payload(r))
}

/// The full encoding of a response: type byte, then the RLP list.
pub open spec fn response_bytes(r: ResponseV) -> Seq<u8> {
    seq![response_type(r.body)] + rlp_list(response_payload(r))
}

/// What an encodable request must respect.
pub open spec fn request_wf(r: RequestV) -> bool {
    r.id.len() <= 8
}

/// What an encodable response must respect.
pub open spec fn response_wf(r: ResponseV) -> bool {
    &&& r.id.len() <= 8
    &&& match r.body {
        ResponseBodyV::Pong { ip, port, .. } => (ip.len() == 4 || ip.len() == 16) && port > 0,
        _ => true,
    }
}

// ---------------------------------------------------------------------------
// Encoders
// ---------------------------------------------------------------------------

/// Writes a byte string as an RLP item.
fn rlp_write_bytes(payload: &Vec<u8>, out: &mut Vec<u8>)
    ensures
        final(out)@ == old(out)@ + rlp_bytes(payload@),
{
    if payload.len() == 1 && payload[0] < 0x80 {
        let b = payload[0];
        out.push(b);
        proof {
            assert(final(out)@ =~= old(out)@ + rlp_bytes(payload@));
        }
    } else if payload.len() <= 55 {
        out.push((0x80 + payload.len()) as u8);
        out.extend_from_slice(payload.as_slice());
        proof {
            assert(final(out)@ =~= old(out)@ + rlp_bytes(payload@));
        }
    } else {
        let mut lenbytes: Vec<u8> = Vec::new();
        crate::bytes::min_be_encode(payload.len() as u64, &mut lenbytes);
        proof {
            crate::bytes::lemma_seq_be_val_bound(lenbytes@);
            lemma_min_be_len_le8(payload@.len() as int);
        }
        out.push((0xb7 + lenbytes.len()) as u8);
        out.extend_from_slice(lenbytes.as_slice());
        out.extend_from_slice(payload.as_slice());
        proof {
            assert(final(out)@ =~= old(out)@ + rlp_bytes(payload@));
        }
    }
}

/// The minimal big-endian bytes of a value below 2^64 are at most eight.
proof fn lemma_min_be_len_le8(n: int)
    requires
        0 <= n < 0x1_0000_0000_0000_0000,
    ensures
        min_be(n).len() <= 8,
        n > 0 ==> min_be(n).len() >= 1,
{
    assert(crate::bytes::pow256(8) == 0x1_0000_0000_0000_0000) by {
        assert(crate::bytes::pow256(0) == 1);
        assert(crate::bytes::pow256(1) == 0x100);
        assert(crate::bytes::pow256(2) == 0x1_0000);
        assert(crate::bytes::pow256(3) == 0x100_0000);
        assert(crate::bytes::pow256(4) == 0x1_0000_0000);
        assert(crate::bytes::pow256(5) == 0x100_0000_0000);
        assert(crate::bytes::pow256(6) == 0x1_0000_0000_0000);
        assert(crate::bytes::pow256(7) == 0x100_0000_0000_0000);
    }
    lemma_min_be_len(n, 8);
}

proof fn lemma_min_be_len(n: int, k: nat)
    requires
        0 <= n < crate::bytes::pow256(k),
    ensures
        min_be(n).len() <= k,
        n > 0 ==> min_be(n).len() >= 1,
    decreases k,
{
    if n > 0 {
        if k == 0 {
            // impossible: pow256(0) == 1
        } else {
            assert(n / 0x100 < crate::bytes::pow256((k - 1) as nat)) by (nonlinear_arith)
                requires
                    0 <= n < 0x100 * crate::bytes::pow256((k - 1) as nat),
            ;
            lemma_min_be_len(n / 0x100, (k - 1) as nat);
        }
    }
}

/// Writes a list header and the given payload as an RLP list.
fn rlp_write_list(payload: &Vec<u8>, out: &mut Vec<u8>)
    ensures
        final(out)@ == old(out)@ + rlp_list(payload@),
{
    if payload.len() <= 55 {
        out.push((0xc0 + payload.len()) as u8);
        out.extend_from_slice(payload.as_slice());
        proof {
            assert(final(out)@ =~= old(out)@ + rlp_list(payload@));
        }
    } else {
        let mut lenbytes: Vec<u8> = Vec::new();
        crate::bytes::min_be_encode(payload.len() as u64, &mut lenbytes);
        proof {
            lemma_min_be_len_le8(payload@.len() as int);
        }
        out.push((0xf7 + lenbytes.len()) as u8);
        out.extend_from_slice(lenbytes.as_slice());
        out.extend_from_slice(payload.as_slice());
        proof {
            assert(final(out)@ =~= old(out)@ + rlp_list(payload@));
        }
    }
}

/// Writes an unsigned value as an RLP item.
fn rlp_write_uint(v: u64, out: &mut Vec<u8>)
    ensures
        final(out)@ == old(out)@ + rlp_uint(v),
{
    let mut m: Vec<u8> = Vec::new();
    crate::bytes::min_be_encode(v, &mut m);
    rlp_write_bytes(&m, out);
}

/// Encodes a request to the bytes carried inside a message.
pub fn encode_request(req: &RpcRequest) -> (r: Vec<u8>)
    requires
        request_wf(req@),
    ensures
        r@ == request_bytes(req@),
{
    let mut payload: Vec<u8> = Vec::new();
    rlp_write_bytes(&req.id.0, &mut payload);
    let type_byte: u8 = match &req.body {
        RequestBody::Ping { enr_seq } => {
            rlp_write_uint(*enr_seq, &mut payload);
            1
        },
        RequestBody::FindNode { distances } => {
            let mut inner: Vec<u8> = Vec::new();
            let mut i: usize = 0;
            while i < distances.len()
                invariant
                    i <= distances@.len(),
                    inner@ == rlp_uints(distances@.take(i as int)),
                decreases distances@.len() - i,
            {
                rlp_write_uint(distances[i], &mut inner);
                proof {
                    assert(distances@.take(i + 1).drop_last() =~= distances@.take(i as int));
                }
                i = i + 1;
            }
            proof {
                assert(distances@.take(distances@.len() as int) =~= distances@);
            }
            rlp_write_list(&inner, &mut payload);
            3
        },
        RequestBody::Talk { protocol, request } => {
            rlp_write_bytes(protocol, &mut payload);
            rlp_write_bytes(request, &mut payload);
            5
        },
    };
    let mut out: Vec<u8> = Vec::new();
    out.push(type_byte);
    rlp_write_list(&payload, &mut out);
    proof {
        assert(payload@ =~= request_payload(req@));
        assert(out@ =~= request_bytes(req@));
    }
    out
}

/// Encodes a response to the bytes carried inside a message.
pub fn encode_response(resp: &RpcResponse) -> (r: Vec<u8>)
    requires
        response_wf(resp@),
    ensures
        r@ == response_bytes(resp@),
{
    let mut payload: Vec<u8> = Vec::new();
    rlp_write_bytes(&resp.id.0, &mut payload);
    let type_byte: u8 = match &resp.body {
        ResponseBody::Pong { enr_seq, ip, port } => {
            rlp_write_uint(*enr_seq, &mut payload);
            rlp_write_bytes(ip, &mut payload);
            rlp_write_uint(*port as u64, &mut payload);
            2
        },
        ResponseBody::Nodes { total, nodes } => {
            rlp_write_uint(*total, &mut payload);
            let ghost mapped = nodes@.map_values(|n: Vec<u8>| n@);
            let mut inner: Vec<u8> = Vec::new();
            let mut i: usize = 0;
            while i < nodes.len()
                invariant
                    i <= nodes@.len(),
                    mapped == nodes@.map_values(|n: Vec<u8>| n@),
                    mapped.len() == nodes@.len(),
                    inner@ == rlp_raw_items(mapped.take(i as int)),
                decreases nodes@.len() - i,
            {
                inner.extend_from_slice(nodes[i].as_slice());
                proof {
                    assert(mapped.take(i + 1).drop_last() =~= mapped.take(i as int));
                    assert(mapped.take(i + 1).last() == nodes@[i as int]@);
                }
                i = i + 1;
            }
            proof {
                assert(mapped.take(mapped.len() as int) =~= mapped);
            }
            rlp_write_list(&inner, &mut payload);
            4
        },
        ResponseBody::Talk { response } => {
            rlp_write_bytes(response, &mut payload);
            6
        },
    };
    let mut out: Vec<u8> = Vec::new();
    out.push(type_byte);
    rlp_write_list(&payload, &mut out);
    proof {
        assert(payload@ =~= response_payload(resp@));
        assert(out@ =~= response_bytes(resp@));
    }
    out
}

// ---------------------------------------------------------------------------
// Parsing
// ---------------------------------------------------------------------------

/// Recognizes a canonical RLP byte string at `at`; gives the content bounds.
pub open spec fn parse_str_at(data: Seq<u8>, at: int) -> Option<(int, int)> {
    if !(0 <= at < data.len()) {
        None
    } else {
        let b0 = data[at];
        if b0 < 0x80 {
            Some((at, 1int))
        } else if b0 <= 0xb7 {
            let l = b0 - 0x80;
            if at + 1 + l > data.len() {
                None
            } else if l == 1 && data[at + 1] < 0x80 {
                None
            } else {
                Some((at + 1, l as int))
            }
        } else if b0 <= 0xbf {
            let ll = b0 - 0xb7;
            if at + 1 + ll > data.len() {
                None
            } else if data[at + 1] == 0 {
                None
            } else {
                let l = seq_be_val(data.subrange(at + 1, at + 1 + ll));
                if l <= 55 {
                    None
                } else if l > data.len() - (at + 1 + ll) {
                    None
                } else {
                    Some((at + 1 + ll, l))
                }
            }
        } else {
            None
        }
    }
}

/// Recognizes a canonical RLP list at `at`; gives the payload bounds.
pub open spec fn parse_list_at(data: Seq<u8>, at: int) -> Option<(int, int)> {
    if !(0 <= at < data.len()) {
        None
    } else {
        let b0 = data[at];
        if b0 < 0xc0 {
            None
        } else if b0 <= 0xf7 {
            let l = b0 - 0xc0;
            if at + 1 + l > data.len() {
                None
            } else {
                Some((at + 1, l as int))
            }
        } else {
            let ll = b0 - 0xf7;
            if at + 1 + ll > data.len() {
                None
            } else if data[at + 1] == 0 {
                None
            } else {
                let l = seq_be_val(data.subrange(at + 1, at + 1 + ll));
                if l <= 55 {
                    None
                } else if l > data.len() - (at + 1 + ll) {
                    None
                } else {
                    Some((at + 1 + ll, l))
                }
            }
        }
    }
}

/// Recognizes an unsigned value at `at`: a byte string of at most eight
/// bytes with no leading zero. Gives the value and the end position.
pub open spec fn parse_uint_at(data: Seq<u8>, at: int) -> Option<(u64, int)> {
    match parse_str_at(data, at) {
        None => None,
        Some((cs, cl)) => {
            if cl > 8 {
                None
            } else if cl > 0 && data[cs] == 0 {
                None
            } else {
                Some((seq_be_val(data.subrange(cs, cs + cl)) as u64, cs + cl))
            }
        },
    }
}

/// Recognizes a run of unsigned values filling `at .. end` exactly.
pub open spec fn parse_uints(data: Seq<u8>, at: int, end: int) -> Option<Seq<u64>>
    decreases end - at,
{
    if at == end {
        Some(Seq::empty())
    } else if at > end {
        None
    } else {
        match parse_uint_at(data, at) {
            None => None,
            Some((v, e)) => {
                if e <= at || e > end {
                    None
                } else {
                    match parse_uints(data, e, end) {
                        None => None,
                        Some(rest) => Some(seq![v] + rest),
                    }
                }
            },
        }
    }
}

/// Parses a whole message: the type byte, the enclosing list with no bytes
/// to spare, the request id, and the body of the scripted request kinds.
/// Response bodies are not read: the mock never accepts one.
pub open spec fn parse_message(data: Seq<u8>) -> Option<MessageV> {
    if data.len() < 3 {
        None
    } else {
        let t = data[0];
        match parse_list_at(data, 1) {
            None => None,
            Some((ps, pl)) => {
                if ps + pl != data.len() {
                    None
                } else {
                    let end = ps + pl;
                    match parse_str_at(data, ps) {
                        None => None,
                        Some((ics, icl)) => {
                            if icl > 8 {
                                None
                            } else {
                                parse_body(data, t, data.subrange(ics, ics + icl), ics + icl, end)
                            }
                        },
                    }
                }
            },
        }
    }
}

/// Parses the body items that follow the request id.
pub open spec fn parse_body(data: Seq<u8>, t: u8, id: Seq<u8>, at: int, end: int) -> Option<
    MessageV,
> {
    if t == 1 {
        match parse_uint_at(data, at) {
            None => None,
            Some((enr_seq, e)) => {
                if e == end {
                    Some(MessageV::Request(RequestV { id, body: RequestBodyV::Ping { enr_seq } }))
                } else {
                    None
                }
            },
        }
    } else if t == 3 {
        match parse_list_at(data, at) {
            None => None,
            Some((ds, dl)) => {
                if ds + dl != end {
                    None
                } else {
                    match parse_uints(data, ds, ds + dl) {
                        None => None,
                        Some(distances) => Some(
                            MessageV::Request(
                                RequestV { id, body: RequestBodyV::FindNode { distances } },
                            ),
                        ),
                    }
                }
            },
        }
    } else if t == 5 {
        match parse_str_at(data, at) {
            None => None,
            Some((p1, l1)) => match parse_str_at(data, p1 + l1) {
                None => None,
                Some((p2, l2)) => {
                    if p2 + l2 == end {
                        Some(
                            MessageV::Request(
                                RequestV {
                                    id,
                                    body: RequestBodyV::Talk {
                                        protocol: data.subrange(p1, p1 + l1),
                                        request: data.subrange(p2, p2 + l2),
                                    },
                                },
                            ),
                        )
                    } else {
                        None
                    }
                },
            },
        }
    } else if t == 2 || t == 4 || t == 6 {
        Some(MessageV::Response)
    } else {
        None
    }
}

// ---------------------------------------------------------------------------
// Losslessness
// ---------------------------------------------------------------------------

proof fn lemma_min_be_val(n: int)
    requires
        n >= 0,
    ensures
        seq_be_val(min_be(n)) == n,
    decreases n,
{
    if n > 0 {
        vstd::arithmetic::div_mod::lemma_fundamental_div_mod(n, 0x100);
        lemma_min_be_val(n / 0x100);
        let x = min_be(n / 0x100);
        assert(min_be(n).drop_last() =~= x);
        assert(min_be(n).last() == (n % 0x100) as u8);
    }
}

proof fn lemma_min_be_first(n: int)
    requires
        n > 0,
    ensures
        min_be(n).len() >= 1,
        min_be(n)[0] != 0,
    decreases n,
{
    vstd::arithmetic::div_mod::lemma_fundamental_div_mod(n, 0x100);
    if n < 0x100 {
        assert(n / 0x100 == 0);
        assert(min_be(0) =~= Seq::<u8>::empty());
        assert(min_be(n) =~= seq![(n % 0x100) as u8]);
    } else {
        lemma_min_be_first(n / 0x100);
        assert(min_be(n)[0] == min_be(n / 0x100)[0]);
    }
}

proof fn lemma_pow256_4()
    ensures
        crate::bytes::pow256(4) == 0x1_0000_0000,
{
    assert(crate::bytes::pow256(0) == 1);
    assert(crate::bytes::pow256(1) == 0x100);
    assert(crate::bytes::pow256(2) == 0x1_0000);
    assert(crate::bytes::pow256(3) == 0x100_0000);
}

/// A subrange taken at an offset equals the corresponding subrange of the
/// enclosing subrange.
proof fn lemma_subrange_shift(data: Seq<u8>, at: int, n: int, lo: int, hi: int)
    requires
        0 <= at,
        at + n <= data.len(),
        0 <= lo <= hi <= n,
    ensures
        data.subrange(at + lo, at + hi) == data.subrange(at, at + n).subrange(lo, hi),
{
    assert forall|j: int| 0 <= j < hi - lo implies #[trigger] data.subrange(at + lo, at + hi)[j]
        == data.subrange(at, at + n).subrange(lo, hi)[j] by {
        assert(data.subrange(at + lo, at + hi)[j] == data[at + lo + j]);
        assert(data.subrange(at, at + n).subrange(lo, hi)[j] == data.subrange(at, at + n)[lo + j]);
        assert(data.subrange(at, at + n)[lo + j] == data[at + (lo + j)]);
    }
    assert(data.subrange(at + lo, at + hi) =~= data.subrange(at, at + n).subrange(lo, hi));
}

/// An encoded byte string standing at `at` is recognized there, with its
/// exact content bounds.
proof fn lemma_parse_rlp_bytes(data: Seq<u8>, at: int, payload: Seq<u8>)
    requires
        payload.len() <= 0xffff_ffff,
        0 <= at,
        at + rlp_bytes(payload).len() <= data.len(),
        data.subrange(at, at + rlp_bytes(payload).len()) == rlp_bytes(payload),
    ensures
        ({
            let hl = rlp_bytes(payload).len() - payload.len();
            &&& parse_str_at(data, at) == Some((at + hl, payload.len() as int))
            &&& data.subrange(at + hl, at + hl + payload.len()) == payload
        }),
{
    let enc = rlp_bytes(payload);
    let n = enc.len() as int;
    assert forall|i: int| 0 <= i < n implies #[trigger] data[at + i] == enc[i] by {
        assert(data.subrange(at, at + n)[i] == data[at + i]);
    }
    if payload.len() == 1 && payload[0] < 0x80 {
        assert(data[at + 0] == enc[0]);
        assert(data[at] == payload[0]);
        assert(data.subrange(at, at + 1) =~= payload);
    } else if payload.len() <= 55 {
        assert(data[at + 0] == enc[0]);
        assert(data[at] == (0x80 + payload.len()) as u8);
        if payload.len() == 1 {
            assert(data[at + 1] == enc[1]);
            assert(data[at + 1] == payload[0]);
            assert(payload[0] >= 0x80);
        }
        lemma_subrange_shift(data, at, n, 1, 1 + payload.len() as int);
        assert(enc.subrange(1, 1 + payload.len() as int) =~= payload);
    } else {
        let lenbytes = min_be(payload.len() as int);
        let ll = lenbytes.len() as int;
        crate::bytes::lemma_seq_be_val_bound(lenbytes);
        lemma_pow256_4();
        lemma_min_be_len(payload.len() as int, 4);
        lemma_min_be_first(payload.len() as int);
        lemma_min_be_val(payload.len() as int);
        assert(data[at + 0] == enc[0]);
        assert(data[at] == (0xb7 + ll) as u8);
        assert(data[at + 1] == enc[1]);
        assert(data[at + 1] == lenbytes[0]);
        lemma_subrange_shift(data, at, n, 1, 1 + ll);
        assert(enc.subrange(1, 1 + ll) =~= lenbytes);
        lemma_subrange_shift(data, at, n, 1 + ll, n);
        assert(enc.subrange(1 + ll, n) =~= payload);
    }
}

/// An encoded list standing at `at` is recognized there, with its exact
/// payload bounds.
proof fn lemma_parse_rlp_list(data: Seq<u8>, at: int, payload: Seq<u8>)
    requires
        payload.len() <= 0xffff_ffff,
        0 <= at,
        at + rlp_list(payload).len() <= data.len(),
        data.subrange(at, at + rlp_list(payload).len()) == rlp_list(payload),
    ensures
        ({
            let hl = rlp_list(payload).len() - payload.len();
            &&& parse_list_at(data, at) == Some((at + hl, payload.len() as int))
            &&& data.subrange(at + hl, at + hl + payload.len()) == payload
        }),
{
    let enc = rlp_list(payload);
    let n = enc.len() as int;
    assert forall|i: int| 0 <= i < n implies #[trigger] data[at + i] == enc[i] by {
        assert(data.subrange(at, at + n)[i] == data[at + i]);
    }
    if payload.len() <= 55 {
        assert(data[at + 0] == enc[0]);
        assert(data[at] == (0xc0 + payload.len()) as u8);
        lemma_subrange_shift(data, at, n, 1, 1 + payload.len() as int);
        assert(enc.subrange(1, 1 + payload.len() as int) =~= payload);
    } else {
        let lenbytes = min_be(payload.len() as int);
        let ll = lenbytes.len() as int;
        crate::bytes::lemma_seq_be_val_bound(lenbytes);
        lemma_pow256_4();
        lemma_min_be_len(payload.len() as int, 4);
        lemma_min_be_first(payload.len() as int);
        lemma_min_be_val(payload.len() as int);
        assert(data[at + 0] == enc[0]);
        assert(data[at] == (0xf7 + ll) as u8);
        assert(data[at + 1] == enc[1]);
        assert(data[at + 1] == lenbytes[0]);
        lemma_subrange_shift(data, at, n, 1, 1 + ll);
        assert(enc.subrange(1, 1 + ll) =~= lenbytes);
        lemma_subrange_shift(data, at, n, 1 + ll, n);
        assert(enc.subrange(1 + ll, n) =~= payload);
    }
}

/// An encoded unsigned value standing at `at` is recognized there, with its
/// exact value and end position.
proof fn lemma_parse_rlp_uint(data: Seq<u8>, at: int, v: u64)
    requires
        0 <= at,
        at + rlp_uint(v).len() <= data.len(),
        data.subrange(at, at + rlp_uint(v).len()) == rlp_uint(v),
    ensures
        parse_uint_at(data, at) == Some((v, at + rlp_uint(v).len() as int)),
{
    lemma_min_be_len_le8(v as int);
    lemma_parse_rlp_bytes(data, at, min_be(v as int));
    let hl = rlp_uint(v).len() - min_be(v as int).len();
    let cs = at + hl;
    let cl = min_be(v as int).len() as int;
    assert(data.subrange(cs, cs + cl) == min_be(v as int));
    if v > 0 {
        lemma_min_be_first(v as int);
        assert(data.subrange(cs, cs + cl)[0] == data[cs + 0]);
        assert(data[cs] == min_be(v as int)[0]);
    }
    lemma_min_be_val(v as int);
}

/// A run of encoded values splits off its first element.
proof fn lemma_rlp_uints_first(vs: Seq<u64>)
    requires
        vs.len() > 0,
    ensures
        rlp_uints(vs) == rlp_uint(vs[0]) + rlp_uints(vs.skip(1)),
    decreases vs.len(),
{
    if vs.len() == 1 {
        assert(vs.drop_last() =~= Seq::<u64>::empty());
        assert(vs.skip(1) =~= Seq::<u64>::empty());
        assert(rlp_uints(Seq::<u64>::empty()) =~= Seq::<u8>::empty());
        assert(rlp_uints(vs) =~= rlp_uint(vs[0]) + rlp_uints(vs.skip(1)));
    } else {
        let dl = vs.drop_last();
        lemma_rlp_uints_first(dl);
        assert(dl[0] == vs[0]);
        assert(dl.skip(1) =~= vs.skip(1).drop_last());
        assert(vs.skip(1).last() == vs.last());
        assert(rlp_uints(vs) =~= rlp_uint(vs[0]) + rlp_uints(vs.skip(1)));
    }
}

/// A run of encoded values filling a range exactly parses back to the run.
proof fn lemma_parse_uint_run(data: Seq<u8>, at: int, vs: Seq<u64>)
    requires
        0 <= at,
        at + rlp_uints(vs).len() <= data.len(),
        data.subrange(at, at + rlp_uints(vs).len()) == rlp_uints(vs),
    ensures
        parse_uints(data, at, at + rlp_uints(vs).len() as int) == Some(vs),
    decreases vs.len(),
{
    if vs.len() == 0 {
        assert(vs =~= Seq::<u64>::empty());
    } else {
        lemma_rlp_uints_first(vs);
        let e0 = rlp_uint(vs[0]);
        let k = e0.len() as int;
        let total = rlp_uints(vs).len() as int;
        let rest = rlp_uints(vs.skip(1));
        assert forall|i: int| 0 <= i < total implies #[trigger] data[at + i] == rlp_uints(vs)[i] by {
            assert(data.subrange(at, at + total)[i] == data[at + i]);
        }
        assert(data.subrange(at, at + k) =~= e0) by {
            assert(forall|j: int|
                0 <= j < k ==> #[trigger] data.subrange(at, at + k)[j] == data[at + j]);
        }
        lemma_parse_rlp_uint(data, at, vs[0]);
        let e = at + k;
        assert(data.subrange(e, e + rest.len()) =~= rest) by {
            assert forall|j: int| 0 <= j < rest.len() implies #[trigger] data.subrange(
                e,
                e + rest.len(),
            )[j] == rest[j] by {
                assert(data.subrange(e, e + rest.len())[j] == data[e + j]);
                assert(data[at + (k + j)] == rlp_uints(vs)[k + j]);
                assert(rlp_uints(vs)[k + j] == rest[j]);
            }
        }
        lemma_parse_uint_run(data, e, vs.skip(1));
        assert(seq![vs[0]] + vs.skip(1) =~= vs);
    }
}

/// The message codec is lossless: the encoding of a well-formed request
/// parses back to exactly that request.
#[verifier::rlimit(100)]
#[verifier::spinoff_prover]
pub proof fn lemma_request_round_trip(r: RequestV)
    requires
        request_wf(r),
        request_bytes(r).len() <= 0x100_0000,
    ensures
        parse_message(request_bytes(r)) == Some(MessageV::Request(r)),
{
    let t = request_type(r.body);
    let payload = request_payload(r);
    let data = request_bytes(r);
    let le = rlp_list(payload).len() as int;
    assert(data[0] == t);
    assert(data.subrange(1, 1 + le) =~= rlp_list(payload));
    lemma_parse_rlp_list(data, 1, payload);
    let hl = le - payload.len();
    let ps = 1 + hl;
    let pl = payload.len() as int;
    let end = ps + pl;
    assert(end == data.len());
    assert forall|i: int| 0 <= i < pl implies #[trigger] data[ps + i] == payload[i] by {
        assert(data.subrange(ps, ps + pl)[i] == data[ps + i]);
    }
    let ide = rlp_bytes(r.id);
    let il = ide.len() as int;
    assert(data.subrange(ps, ps + il) =~= ide) by {
        assert forall|j: int| 0 <= j < il implies #[trigger] data.subrange(ps, ps + il)[j]
            == ide[j] by {
            assert(data.subrange(ps, ps + il)[j] == data[ps + j]);
            assert(data[ps + j] == payload[j]);
        }
    }
    lemma_parse_rlp_bytes(data, ps, r.id);
    let ihl = il - r.id.len();
    let ics = ps + ihl;
    let icl = r.id.len() as int;
    assert(data.subrange(ics, ics + icl) == r.id);
    let p1 = ics + icl;
    assert(p1 == ps + il);
    match r.body {
        RequestBodyV::Ping { enr_seq } => {
            let ue = rlp_uint(enr_seq);
            let ul = ue.len() as int;
            assert(data.subrange(p1, p1 + ul) =~= ue) by {
                assert forall|j: int| 0 <= j < ul implies #[trigger] data.subrange(
                    p1,
                    p1 + ul,
                )[j] == ue[j] by {
                    assert(data.subrange(p1, p1 + ul)[j] == data[p1 + j]);
                    assert(data[ps + (il + j)] == payload[il + j]);
                    assert(payload[il + j] == ue[j]);
                }
            }
            lemma_parse_rlp_uint(data, p1, enr_seq);
            assert(p1 + ul == end);
        },
        RequestBodyV::FindNode { distances } => {
            let inner = rlp_uints(distances);
            let ie = rlp_list(inner);
            let iel = ie.len() as int;
            assert(data.subrange(p1, p1 + iel) =~= ie) by {
                assert forall|j: int| 0 <= j < iel implies #[trigger] data.subrange(
                    p1,
                    p1 + iel,
                )[j] == ie[j] by {
                    assert(data.subrange(p1, p1 + iel)[j] == data[p1 + j]);
                    assert(data[ps + (il + j)] == payload[il + j]);
                    assert(payload[il + j] == ie[j]);
                }
            }
            lemma_parse_rlp_list(data, p1, inner);
            let dhl = iel - inner.len();
            let ds = p1 + dhl;
            let dl = inner.len() as int;
            assert(ds + dl == end);
            lemma_parse_uint_run(data, ds, distances);
        },
        RequestBodyV::Talk { protocol, request } => {
            let pe = rlp_bytes(protocol);
            let pel = pe.len() as int;
            let re = rlp_bytes(request);
            let rel = re.len() as int;
            assert(data.subrange(p1, p1 + pel) =~= pe) by {
                assert forall|j: int| 0 <= j < pel implies #[trigger] data.subrange(
                    p1,
                    p1 + pel,
                )[j] == pe[j] by {
                    assert(data.subrange(p1, p1 + pel)[j] == data[p1 + j]);
                    assert(data[ps + (il + j)] == payload[il + j]);
                    assert(payload[il + j] == pe[j]);
                }
            }
            lemma_parse_rlp_bytes(data, p1, protocol);
            let p2 = p1 + pel;
            assert(data.subrange(p2, p2 + rel) =~= re) by {
                assert forall|j: int| 0 <= j < rel implies #[trigger] data.subrange(
                    p2,
                    p2 + rel,
                )[j] == re[j] by {
                    assert(data.subrange(p2, p2 + rel)[j] == data[p2 + j]);
                    assert(data[ps + (il + pel + j)] == payload[il + pel + j]);
                    assert(payload[il + pel + j] == re[j]);
                }
            }
            lemma_parse_rlp_bytes(data, p2, request);
            let phl = pel - protocol.len();
            let rhl = rel - request.len();
            assert(data.subrange(p1 + phl, p1 + phl + protocol.len()) == protocol);
            assert(data.subrange(p2 + rhl, p2 + rhl + request.len()) == request);
            assert(p2 + rel == end);
        },
    }
}

/// Encoded responses are classified as responses: the mock never mistakes
/// one of its own replies for a request.
#[verifier::rlimit(100)]
#[verifier::spinoff_prover]
pub proof fn lemma_response_classified(r: ResponseV)
    requires
        response_wf(r),
        response_bytes(r).len() <= 0x100_0000,
    ensures
        parse_message(response_bytes(r)) == Some(MessageV::Response),
{
    let t = response_type(r.body);
    let payload = response_payload(r);
    let data = response_bytes(r);
    let le = rlp_list(payload).len() as int;
    assert(data[0] == t);
    assert(data.subrange(1, 1 + le) =~= rlp_list(payload));
    lemma_parse_rlp_list(data, 1, payload);
    let hl = le - payload.len();
    let ps = 1 + hl;
    let pl = payload.len() as int;
    assert(ps + pl == data.len());
    let ide = rlp_bytes(r.id);
    let il = ide.len() as int;
    assert(data.subrange(ps, ps + il) =~= ide) by {
        assert forall|j: int| 0 <= j < il implies #[trigger] data.subrange(ps, ps + il)[j]
            == ide[j] by {
            assert(data.subrange(ps, ps + il)[j] == data[ps + j]);
            assert(data.subrange(ps, ps + pl)[j] == data[ps + j]);
        }
    }
    lemma_parse_rlp_bytes(data, ps, r.id);
}

/// A parsed request's id is never longer than eight bytes.
pub proof fn lemma_parse_request_id_short(data: Seq<u8>)
    ensures
        parse_message(data) matches Some(MessageV::Request(rq)) ==> rq.id.len() <= 8,
{
}

/// Recognizes a canonical RLP byte string at `at`.
fn parse_str(data: &Vec<u8>, at: usize) -> (r: Option<(usize, usize)>)
    ensures
        r is Some <==> parse_str_at(data@, at as int) is Some,
        r matches Some(p) ==> parse_str_at(data@, at as int) == Some((p.0 as int, p.1 as int))
            && at < p.0 + p.1 <= data.len() && at <= p.0,
{
    if at >= data.len() {
        return None;
    }
    let b0 = data[at];
    if b0 < 0x80 {
        Some((at, 1))
    } else if b0 <= 0xb7 {
        let l = (b0 - 0x80) as usize;
        if l > data.len() - at - 1 {
            return None;
        }
        if l == 1 && data[at + 1] < 0x80 {
            return None;
        }
        Some((at + 1, l))
    } else if b0 <= 0xbf {
        let ll = (b0 - 0xb7) as usize;
        if ll > data.len() - at - 1 {
            return None;
        }
        if data[at + 1] == 0 {
            return None;
        }
        let l64 = read_be_val(data, at + 1, ll);
        if l64 <= 55 {
            return None;
        }
        if l64 > (data.len() - at - 1 - ll) as u64 {
            return None;
        }
        let l = l64 as usize;
        Some((at + 1 + ll, l))
    } else {
        None
    }
}

/// Recognizes a canonical RLP list at `at`.
fn parse_list(data: &Vec<u8>, at: usize) -> (r: Option<(usize, usize)>)
    ensures
        r is Some <==> parse_list_at(data@, at as int) is Some,
        r matches Some(p) ==> parse_list_at(data@, at as int) == Some((p.0 as int, p.1 as int))
            && at < p.0 + p.1 <= data.len() && at < p.0,
{
    if at >= data.len() {
        return None;
    }
    let b0 = data[at];
    if b0 < 0xc0 {
        None
    } else if b0 <= 0xf7 {
        let l = (b0 - 0xc0) as usize;
        if l > data.len() - at - 1 {
            return None;
        }
        Some((at + 1, l))
    } else {
        let ll = (b0 - 0xf7) as usize;
        if ll > data.len() - at - 1 {
            return None;
        }
        if data[at + 1] == 0 {
            return None;
        }
        let l64 = read_be_val(data, at + 1, ll);
        if l64 <= 55 {
            return None;
        }
        if l64 > (data.len() - at - 1 - ll) as u64 {
            return None;
        }
        let l = l64 as usize;
        Some((at + 1 + ll, l))
    }
}

/// Recognizes an unsigned value at `at`.
fn parse_uint(data: &Vec<u8>, at: usize) -> (r: Option<(u64, usize)>)
    ensures
        r is Some <==> parse_uint_at(data@, at as int) is Some,
        r matches Some(p) ==> parse_uint_at(data@, at as int) == Some((p.0, p.1 as int)) && at < p.1
            <= data.len(),
{
    let (cs, cl) = match parse_str(data, at) {
        Some(p) => p,
        None => {
            return None;
        },
    };
    if cl > 8 {
        return None;
    }
    if cl > 0 && data[cs] == 0 {
        return None;
    }
    let v = read_be_val(data, cs, cl);
    Some((v, cs + cl))
}

/// Joins an already-parsed prefix with the rest of a run of values.
spec fn uints_join(acc: Seq<u64>, rest: Option<Seq<u64>>) -> Option<Seq<u64>> {
    match rest {
        None => None,
        Some(r) => Some(acc + r),
    }
}

/// Recognizes the run of unsigned values filling `at .. end` exactly.
fn parse_uint_run(data: &Vec<u8>, at: usize, end: usize) -> (r: Option<Vec<u64>>)
    requires
        at <= end <= data.len(),
    ensures
        r is Some <==> parse_uints(data@, at as int, end as int) is Some,
        r matches Some(vs) ==> parse_uints(data@, at as int, end as int) == Some(vs@),
{
    let mut acc: Vec<u64> = Vec::new();
    let mut cur = at;
    while cur < end
        invariant
            at <= cur <= end <= data.len(),
            parse_uints(data@, at as int, end as int) == uints_join(
                acc@,
                parse_uints(data@, cur as int, end as int),
            ),
        decreases end - cur,
    {
        match parse_uint(data, cur) {
            None => {
                return None;
            },
            Some((v, e)) => {
                if e > end {
                    return None;
                }
                acc.push(v);
                proof {
                    let rest = parse_uints(data@, e as int, end as int);
                    assert(parse_uints(data@, cur as int, end as int) == uints_join(
                        seq![v],
                        rest,
                    ));
                    if rest is Some {
                        assert(acc@ + rest.unwrap() =~= acc@.drop_last() + (seq![v]
                            + rest.unwrap()));
                    }
                }
                cur = e;
            },
        }
    }
    proof {
        assert(parse_uints(data@, cur as int, end as int) == Some(Seq::<u64>::empty()));
        assert(acc@ + Seq::<u64>::empty() =~= acc@);
    }
    Some(acc)
}

/// Decodes the bytes carried inside a message.
///
/// Succeeds exactly when the bytes are a canonical message of the protocol;
/// the result is pinned by the grammar above.
pub fn decode_message(data: &Vec<u8>) -> (r: Result<Message, Error>)
    ensures
        r is Ok <==> parse_message(data@) is Some,
        r matches Err(e) ==> e == Error::MalformedMessage,
        r matches Ok(m) ==> parse_message(data@) == Some(m@),
{
    if data.len() < 3 {
        return Err(Error::MalformedMessage);
    }
    let t = data[0];
    let (ps, pl) = match parse_list(data, 1) {
        Some(p) => p,
        None => {
            return Err(Error::MalformedMessage);
        },
    };
    if ps + pl != data.len() {
        return Err(Error::MalformedMessage);
    }
    let end = ps + pl;
    let (ics, icl) = match parse_str(data, ps) {
        Some(p) => p,
        None => {
            return Err(Error::MalformedMessage);
        },
    };
    if icl > 8 {
        return Err(Error::MalformedMessage);
    }
    let id = subvec(data, ics, ics + icl);
    let p1 = ics + icl;
    if t == 1 {
        let (enr_seq, e) = match parse_uint(data, p1) {
            Some(p) => p,
            None => {
                return Err(Error::MalformedMessage);
            },
        };
        if e != end {
            return Err(Error::MalformedMessage);
        }
        Ok(Message::Request(RpcRequest { id: RequestId(id), body: RequestBody::Ping { enr_seq } }))
    } else if t == 3 {
        let (ds, dl) = match parse_list(data, p1) {
            Some(p) => p,
            None => {
                return Err(Error::MalformedMessage);
            },
        };
        if ds + dl != end {
            return Err(Error::MalformedMessage);
        }
        let distances = match parse_uint_run(data, ds, ds + dl) {
            Some(vs) => vs,
            None => {
                return Err(Error::MalformedMessage);
            },
        };
        Ok(
            Message::Request(
                RpcRequest { id: RequestId(id), body: RequestBody::FindNode { distances } },
            ),
        )
    } else if t == 5 {
        let (q1, l1) = match parse_str(data, p1) {
            Some(p) => p,
            None => {
                return Err(Error::MalformedMessage);
            },
        };
        let (q2, l2) = match parse_str(data, q1 + l1) {
            Some(p) => p,
            None => {
                return Err(Error::MalformedMessage);
            },
        };
        if q2 + l2 != end {
            return Err(Error::MalformedMessage);
        }
        let protocol = subvec(data, q1, q1 + l1);
        let request = subvec(data, q2, q2 + l2);
        Ok(
            Message::Request(
                RpcRequest { id: RequestId(id), body: RequestBody::Talk { protocol, request } },
            ),
        )
    } else if t == 2 || t == 4 || t == 6 {
        Ok(Message::Response)
    } else {
        Err(Error::MalformedMessage)
    }
}

} // verus!
