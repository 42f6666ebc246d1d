//! The wire codec: lossless serialization of the three packet kinds.
//!
//! A raw datagram is a 16-byte random IV, a masked header, and the message
//! bytes. The header is masked by XORing it against an AES-CTR keystream
//! keyed with the first half of the destination's node id and the IV; the
//! XOR itself is verified here, only the keystream comes from outside.
use crate::bytes::{
    be16, be16_val, be64, be16_decode, be16_encode, be64_decode, be64_encode, lemma_be16_val,
    subvec, xor_bytes, xor_seq,
};
use crate::crypto::{aes_ctr_keystream, keystream, keystream_byte};
use crate::errors::Error;
use vstd::prelude::*;

verus! {

/// The largest raw datagram this endpoint accepts.
pub const MAX_PACKET_SIZE: usize = 1280;

/// The smallest raw datagram that can hold the IV, the static header and the
/// smallest authdata (that of a challenge).
pub const MIN_PACKET_SIZE: usize = 63;

// ---------------------------------------------------------------------------
// Packet model
// ---------------------------------------------------------------------------

/// The kind discriminant and kind-specific fields of a packet header.
pub enum PacketKind {
    /// An ordinary message: the sender's 32-byte node id, then ciphertext.
    Message { src_id: Vec<u8> },
    /// A challenge: the nonce to be signed and the local record sequence.
    WhoAreYou { id_nonce: Vec<u8>, enr_seq: u64 },
    /// The reply to a challenge: proof of identity and an ephemeral key.
    Handshake {
        src_id: Vec<u8>,
        id_nonce_sig: Vec<u8>,
        ephem_pubkey: Vec<u8>,
        enr_record: Option<Vec<u8>>,
    },
}

/// The fixed packet header: a 12-byte message nonce and the packet kind.
pub struct PacketHeader {
    pub message_nonce: Vec<u8>,
    pub kind: PacketKind,
}

/// One wire-level datagram.
pub struct Packet {
    /// Random data unique to the packet.
    pub iv: Vec<u8>,
    /// Protocol header.
    pub header: PacketHeader,
    /// The message contents itself.
    pub message: Vec<u8>,
}

/// The six ASCII bytes of the protocol identifier `discv5`.
pub open spec fn protocol_id() -> Seq<u8> {
    seq![0x64u8, 0x69u8, 0x73u8, 0x63u8, 0x76u8, 0x35u8]
}

/// The two big-endian bytes of the protocol version.
pub open spec fn version_bytes() -> Seq<u8> {
    seq![0x00u8, 0x01u8]
}

/// The kind discriminant byte.
pub open spec fn flag_of(kind: PacketKind) -> u8 {
    match kind {
        PacketKind::Message { .. } => 0,
        PacketKind::WhoAreYou { .. } => 1,
        PacketKind::Handshake { .. } => 2,
    }
}

/// The kind-specific authdata bytes of a header.
pub open spec fn authdata(kind: PacketKind) -> Seq<u8> {
    match kind {
        PacketKind::Message { src_id } => src_id@,
        PacketKind::WhoAreYou { id_nonce, enr_seq } => id_nonce@ + be64(enr_seq),
        PacketKind::Handshake { src_id, id_nonce_sig, ephem_pubkey, enr_record } => {
            let record = match enr_record {
                Some(r) => r@,
                None => Seq::<u8>::empty(),
            };
            src_id@ + seq![id_nonce_sig@.len() as u8, ephem_pubkey@.len() as u8] + id_nonce_sig@
                + ephem_pubkey@ + record
        },
    }
}

/// Field widths a kind must respect so that its authdata is self-describing.
pub open spec fn kind_wf(kind: PacketKind) -> bool {
    match kind {
        PacketKind::Message { src_id } => src_id@.len() == 32,
        PacketKind::WhoAreYou { id_nonce, .. } => id_nonce@.len() == 16,
        PacketKind::Handshake { src_id, id_nonce_sig, ephem_pubkey, enr_record } => {
            &&& src_id@.len() == 32
            &&& id_nonce_sig@.len() <= 255
            &&& ephem_pubkey@.len() <= 255
            &&& authdata(kind).len() <= 0xffff
            &&& (enr_record matches Some(r) ==> r@.len() > 0)
        },
    }
}

/// A well-formed header: a 12-byte nonce over a well-formed kind.
pub open spec fn header_wf(h: PacketHeader) -> bool {
    h.message_nonce@.len() == 12 && kind_wf(h.kind)
}

/// The unmasked header bytes: protocol id, version, kind discriminant,
/// message nonce, authdata size, authdata.
pub open spec fn header_bytes(h: PacketHeader) -> Seq<u8> {
    protocol_id() + version_bytes() + seq![flag_of(h.kind)] + h.message_nonce@ + be16(
        authdata(h.kind).len() as u16,
    ) + authdata(h.kind)
}

/// A well-formed packet: 16-byte IV, well-formed header, and no message
/// bytes on a challenge.
pub open spec fn packet_wf(p: Packet) -> bool {
    &&& p.iv@.len() == 16
    &&& header_wf(p.header)
    &&& (p.header.kind is WhoAreYou ==> p.message@.len() == 0)
}

/// The authenticated data of a packet: the IV followed by the unmasked
/// header. It doubles as the challenge data when the packet is a challenge.
pub open spec fn packet_aad(p: Packet) -> Seq<u8> {
    p.iv@ + header_bytes(p.header)
}

/// The first 16 bytes of a node id: the header-masking key.
pub open spec fn mask_key(id: Seq<u8>) -> Seq<u8> {
    id.take(16)
}

/// The raw bytes of a packet encoded for a destination: the IV, the header
/// XORed against the keystream of the destination's masking key, and the
/// message.
pub open spec fn packet_bytes(p: Packet, dest_id: Seq<u8>) -> Seq<u8> {
    p.iv@ + xor_seq(
        header_bytes(p.header),
        keystream(mask_key(dest_id), p.iv@, header_bytes(p.header).len() as int),
    ) + p.message@
}

// ---------------------------------------------------------------------------
// Encoding
// ---------------------------------------------------------------------------

/// Encodes the kind-specific authdata.
fn encode_authdata(kind: &PacketKind) -> (r: Vec<u8>)
    requires
        kind_wf(*kind),
    ensures
        r@ == authdata(*kind),
{
    match kind {
        PacketKind::Message { src_id } => {
            let mut r: Vec<u8> = Vec::new();
            r.extend_from_slice(src_id.as_slice());
            proof {
                assert(r@ =~= authdata(*kind));
            }
            r
        },
        PacketKind::WhoAreYou { id_nonce, enr_seq } => {
            let mut r: Vec<u8> = Vec::new();
            r.extend_from_slice(id_nonce.as_slice());
            be64_encode(*enr_seq, &mut r);
            proof {
                assert(r@ =~= authdata(*kind));
            }
            r
        },
        PacketKind::Handshake { src_id, id_nonce_sig, ephem_pubkey, enr_record } => {
            let mut r: Vec<u8> = Vec::new();
            r.extend_from_slice(src_id.as_slice());
            r.push(id_nonce_sig.len() as u8);
            r.push(ephem_pubkey.len() as u8);
            r.extend_from_slice(id_nonce_sig.as_slice());
            r.extend_from_slice(ephem_pubkey.as_slice());
            match enr_record {
                Some(record) => {
                    r.extend_from_slice(record.as_slice());
                },
                None => {},
            }
            proof {
                assert(r@ =~= authdata(*kind));
            }
            r
        },
    }
}

/// Encodes a header to the bytes that stand, masked, behind the IV.
pub fn encode_header(h: &PacketHeader) -> (r: Vec<u8>)
    requires
        header_wf(*h),
    ensures
        r@ == header_bytes(*h),
        r@.len() == 23 + authdata(h.kind).len(),
{
    let ad = encode_authdata(&h.kind);
    let mut r: Vec<u8> = Vec::new();
    r.push(0x64u8);
    r.push(0x69u8);
    r.push(0x73u8);
    r.push(0x63u8);
    r.push(0x76u8);
    r.push(0x35u8);
    r.push(0x00u8);
    r.push(0x01u8);
    let flag: u8 = match &h.kind {
        PacketKind::Message { .. } => 0,
        PacketKind::WhoAreYou { .. } => 1,
        PacketKind::Handshake { .. } => 2,
    };
    r.push(flag);
    r.extend_from_slice(h.message_nonce.as_slice());
    be16_encode(ad.len() as u16, &mut r);
    r.extend_from_slice(ad.as_slice());
    proof {
        assert(r@ =~= header_bytes(*h));
    }
    r
}

/// The authenticated data of a packet: the IV concatenated with the
/// re-encoded, unmasked header.
pub fn authenticated_data(p: &Packet) -> (r: Vec<u8>)
    requires
        packet_wf(*p),
    ensures
        r@ == packet_aad(*p),
{
    let mut r = subvec(&p.iv, 0, 16);
    let hdr = encode_header(&p.header);
    r.extend_from_slice(hdr.as_slice());
    proof {
        assert(r@ =~= packet_aad(*p));
    }
    r
}

/// Encodes a packet for a destination, masking the header.
pub fn encode_packet(p: &Packet, dest_id: &Vec<u8>) -> (r: Vec<u8>)
    requires
        packet_wf(*p),
        dest_id@.len() == 32,
    ensures
        r@ == packet_bytes(*p, dest_id@),
{
    let hdr = encode_header(&p.header);
    let key = subvec(dest_id, 0, 16);
    let ks = aes_ctr_keystream(&key, &p.iv, hdr.len());
    proof {
        assert(ks@ =~= keystream(mask_key(dest_id@), p.iv@, header_bytes(p.header).len() as int));
    }
    let masked = xor_bytes(&hdr, &ks);
    let mut r = subvec(&p.iv, 0, 16);
    r.extend_from_slice(masked.as_slice());
    r.extend_from_slice(p.message.as_slice());
    proof {
        assert(r@ =~= packet_bytes(*p, dest_id@));
    }
    r
}

// ---------------------------------------------------------------------------
// Decoding
// ---------------------------------------------------------------------------

/// The unmasked tail of a datagram: everything after the IV, XORed against
/// the keystream of the local masking key. Only the header part of it is
/// meaningful; the message part is read from the raw bytes.
pub open spec fn unmasked(data: Seq<u8>, local_id: Seq<u8>) -> Seq<u8> {
    xor_seq(data.skip(16), keystream(mask_key(local_id), data.take(16), data.len() - 16))
}

/// The authdata size announced by the unmasked static header.
pub open spec fn auth_size(data: Seq<u8>, local_id: Seq<u8>) -> int {
    be16_val(unmasked(data, local_id).subrange(21, 23))
}

/// Whether a raw datagram decodes for the given local node id.
pub open spec fn decode_ok(data: Seq<u8>, local_id: Seq<u8>) -> bool {
    let u = unmasked(data, local_id);
    let ads = auth_size(data, local_id);
    &&& data.len() <= MAX_PACKET_SIZE
    &&& data.len() >= MIN_PACKET_SIZE
    &&& u.subrange(0, 6) == protocol_id()
    &&& u.subrange(6, 8) == version_bytes()
    &&& ads <= data.len() - 39
    &&& {
        let flag = u[8];
        let ad = u.subrange(23, 23 + ads);
        if flag == 0 {
            ads == 32
        } else if flag == 1 {
            ads == 24 && data.len() == 39 + ads
        } else if flag == 2 {
            ads >= 34 && ad[32] + ad[33] <= ads - 34
        } else {
            false
        }
    }
}

/// How a decoded packet and its authenticated data relate to the raw bytes.
pub open spec fn decoded_packet(p: Packet, aad: Seq<u8>, data: Seq<u8>, local_id: Seq<u8>) -> bool {
    let u = unmasked(data, local_id);
    let ads = auth_size(data, local_id);
    &&& packet_wf(p)
    &&& p.iv@ == data.take(16)
    &&& header_bytes(p.header) == u.take(23 + ads)
    &&& p.message@ == data.skip(39 + ads)
    &&& aad == packet_aad(p)
    &&& kind_fields(p.header.kind, u[8], u.subrange(23, 23 + ads))
}

/// The decomposition of a kind's fields out of the flag byte and authdata.
pub open spec fn kind_fields(kind: PacketKind, flag: u8, ad: Seq<u8>) -> bool {
    match kind {
        PacketKind::Message { src_id } => flag == 0 && src_id@ == ad,
        PacketKind::WhoAreYou { id_nonce, enr_seq } => {
            &&& flag == 1
            &&& id_nonce@ == ad.take(16)
            &&& be64(enr_seq) == ad.skip(16)
        },
        PacketKind::Handshake { src_id, id_nonce_sig, ephem_pubkey, enr_record } => {
            let sig_size = ad[32] as int;
            let eph_size = ad[33] as int;
            &&& flag == 2
            &&& src_id@ == ad.take(32)
            &&& id_nonce_sig@ == ad.subrange(34, 34 + sig_size)
            &&& ephem_pubkey@ == ad.subrange(34 + sig_size, 34 + sig_size + eph_size)
            &&& match enr_record {
                Some(r) => ad.len() > 34 + sig_size + eph_size && r@ == ad.skip(
                    34 + sig_size + eph_size,
                ),
                None => ad.len() == 34 + sig_size + eph_size,
            }
        },
    }
}

/// Decodes a raw datagram received by the node with the given id.
///
/// Succeeds exactly on well-formed datagrams; the second component of the
/// result is the authenticated data required, unmodified, by the AEAD step.
#[verifier::rlimit(100)]
pub fn decode_packet(data: &Vec<u8>, local_id: &Vec<u8>) -> (r: Result<(Packet, Vec<u8>), Error>)
    requires
        local_id@.len() == 32,
    ensures
        r is Ok <==> decode_ok(data@, local_id@),
        r matches Err(e) ==> e == Error::MalformedPacket,
        r matches Ok(pa) ==> decoded_packet(pa.0, pa.1@, data@, local_id@),
{
    let n = data.len();
    if n > MAX_PACKET_SIZE || n < MIN_PACKET_SIZE {
        return Err(Error::MalformedPacket);
    }
    let iv = subvec(data, 0, 16);
    let key = subvec(local_id, 0, 16);
    let ks = aes_ctr_keystream(&key, &iv, n - 16);
    proof {
        assert(ks@ =~= keystream(mask_key(local_id@), data@.take(16), data@.len() - 16));
    }
    let masked_static = subvec(data, 16, 39);
    let static_header = xor_bytes(&masked_static, &ks);
    proof {
        assert(static_header@ =~= unmasked(data@, local_id@).take(23));
    }
    if static_header[0] != 0x64 || static_header[1] != 0x69 || static_header[2] != 0x73
        || static_header[3] != 0x63 || static_header[4] != 0x76 || static_header[5] != 0x35 {
        proof {
            let u = unmasked(data@, local_id@);
            assert(u.subrange(0, 6) == protocol_id() ==> u.subrange(0, 6)[0] == 0x64
                && u.subrange(0, 6)[1] == 0x69 && u.subrange(0, 6)[2] == 0x73 && u.subrange(0, 6)[3]
                == 0x63 && u.subrange(0, 6)[4] == 0x76 && u.subrange(0, 6)[5] == 0x35);
        }
        return Err(Error::MalformedPacket);
    }
    if static_header[6] != 0x00 || static_header[7] != 0x01 {
        proof {
            let u = unmasked(data@, local_id@);
            assert(u.subrange(6, 8) == version_bytes() ==> u.subrange(6, 8)[0] == 0x00
                && u.subrange(6, 8)[1] == 0x01);
        }
        return Err(Error::MalformedPacket);
    }
    proof {
        assert(unmasked(data@, local_id@).subrange(0, 6) =~= protocol_id());
        assert(unmasked(data@, local_id@).subrange(6, 8) =~= version_bytes());
    }
    let flag = static_header[8];
    let message_nonce = subvec(&static_header, 9, 21);
    let ads_16 = be16_decode(&static_header, 21);
    proof {
        lemma_be16_val(ads_16);
        assert(static_header@.subrange(21, 23) =~= unmasked(data@, local_id@).subrange(21, 23));
    }
    let ads = ads_16 as usize;
    if ads > n - 39 {
        return Err(Error::MalformedPacket);
    }
    let raw_authdata = subvec(data, 39, 39 + ads);
    let ks_tail = subvec(&ks, 23, 23 + ads);
    let auth_data = xor_bytes(&raw_authdata, &ks_tail);
    proof {
        assert(auth_data@ =~= unmasked(data@, local_id@).subrange(23, 23 + ads as int));
    }
    let mut aad = iv;
    aad.extend_from_slice(static_header.as_slice());
    aad.extend_from_slice(auth_data.as_slice());
    let kind = if flag == 0 {
        if ads != 32 {
            return Err(Error::MalformedPacket);
        }
        PacketKind::Message { src_id: auth_data }
    } else if flag == 1 {
        if ads != 24 {
            return Err(Error::MalformedPacket);
        }
        if n != 39 + ads {
            return Err(Error::MalformedPacket);
        }
        let id_nonce = subvec(&auth_data, 0, 16);
        let enr_seq = be64_decode(&auth_data, 16);
        proof {
            assert(id_nonce@ =~= auth_data@.take(16));
            assert(be64(enr_seq) =~= auth_data@.skip(16));
        }
        PacketKind::WhoAreYou { id_nonce, enr_seq }
    } else if flag == 2 {
        if ads < 34 {
            return Err(Error::MalformedPacket);
        }
        let sig_size = auth_data[32] as usize;
        let eph_size = auth_data[33] as usize;
        if ads - 34 < sig_size + eph_size {
            return Err(Error::MalformedPacket);
        }
        let src_id = subvec(&auth_data, 0, 32);
        let id_nonce_sig = subvec(&auth_data, 34, 34 + sig_size);
        let ephem_pubkey = subvec(&auth_data, 34 + sig_size, 34 + sig_size + eph_size);
        let enr_record = if ads - 34 > sig_size + eph_size {
            Some(subvec(&auth_data, 34 + sig_size + eph_size, ads))
        } else {
            None
        };
        proof {
            assert(src_id@ =~= auth_data@.take(32));
        }
        PacketKind::Handshake { src_id, id_nonce_sig, ephem_pubkey, enr_record }
    } else {
        return Err(Error::MalformedPacket);
    };
    let message = subvec(data, 39 + ads, n);
    let header = PacketHeader { message_nonce, kind };
    let iv_again = subvec(data, 0, 16);
    let packet = Packet { iv: iv_again, header, message };
    proof {
        let u = unmasked(data@, local_id@);
        let adsi = auth_size(data@, local_id@);
        assert(adsi == ads as int);
        assert(authdata(packet.header.kind) =~= u.subrange(23, 23 + adsi));
        assert(header_bytes(packet.header) =~= u.take(23 + adsi));
        assert(aad@ =~= packet_aad(packet));
    }
    Ok((packet, aad))
}

// ---------------------------------------------------------------------------
// Losslessness
// ---------------------------------------------------------------------------

/// Whether two packets read the same, field for field.
pub open spec fn same_packet(q: Packet, p: Packet) -> bool {
    &&& q.iv@ == p.iv@
    &&& q.header.message_nonce@ == p.header.message_nonce@
    &&& q.message@ == p.message@
    &&& match (q.header.kind, p.header.kind) {
        (PacketKind::Message { src_id: a }, PacketKind::Message { src_id: b }) => a@ == b@,
        (
            PacketKind::WhoAreYou { id_nonce: a, enr_seq: ea },
            PacketKind::WhoAreYou { id_nonce: b, enr_seq: eb },
        ) => a@ == b@ && ea == eb,
        (
            PacketKind::Handshake {
                src_id: a,
                id_nonce_sig: sa,
                ephem_pubkey: ka,
                enr_record: ra,
            },
            PacketKind::Handshake {
                src_id: b,
                id_nonce_sig: sb,
                ephem_pubkey: kb,
                enr_record: rb,
            },
        ) => {
            &&& a@ == b@
            &&& sa@ == sb@
            &&& ka@ == kb@
            &&& match (ra, rb) {
                (Some(x), Some(y)) => x@ == y@,
                (None, None) => true,
                _ => false,
            }
        },
        _ => false,
    }
}

/// The wire codec is lossless: the bytes of a well-formed packet decode, and
/// whatever the decoding relation admits for those bytes reads back field
/// for field as the packet that was encoded, with its authenticated data.
#[verifier::rlimit(100)]
#[verifier::spinoff_prover]
pub proof fn lemma_codec_round_trip(p: Packet, dest_id: Seq<u8>)
    requires
        packet_wf(p),
        dest_id.len() == 32,
        packet_bytes(p, dest_id).len() <= MAX_PACKET_SIZE,
    ensures
        decode_ok(packet_bytes(p, dest_id), dest_id),
        forall|q: Packet, aad: Seq<u8>|
            #[trigger] decoded_packet(q, aad, packet_bytes(p, dest_id), dest_id) ==> same_packet(
                q,
                p,
            ) && aad == packet_aad(p),
{
    let data = packet_bytes(p, dest_id);
    let hdr = header_bytes(p.header);
    let h = hdr.len() as int;
    let ad = authdata(p.header.kind);
    let ads = ad.len() as int;
    assert(h == 23 + ads);
    assert(data.len() == 16 + h + p.message@.len());
    assert(data.take(16) =~= p.iv@);
    let u = unmasked(data, dest_id);
    assert forall|i: int| 0 <= i < h implies u[i] == hdr[i] by {
        let x = hdr[i];
        let k = keystream_byte(mask_key(dest_id), p.iv@, i);
        assert(data[16 + i] == (x ^ k));
        assert(u[i] == ((x ^ k) ^ k));
        assert(((x ^ k) ^ k) == x) by (bit_vector);
    }
    assert(u.subrange(0, 6) =~= protocol_id());
    assert(u.subrange(6, 8) =~= version_bytes());
    assert(u.subrange(21, 23) =~= be16(ads as u16));
    crate::bytes::lemma_be16_val(ads as u16);
    assert(auth_size(data, dest_id) == ads);
    assert(u[8] == flag_of(p.header.kind));
    assert(u.subrange(23, 23 + ads) =~= ad);
    assert(u.subrange(9, 21) =~= p.header.message_nonce@);
    assert(data.skip(39 + ads) =~= p.message@);
    match p.header.kind {
        PacketKind::Message { .. } => {
            assert(ads == 32);
        },
        PacketKind::WhoAreYou { .. } => {
            assert(ads == 24);
            assert(data.len() == 39 + ads);
        },
        PacketKind::Handshake { id_nonce_sig, ephem_pubkey, enr_record, .. } => {
            let s = id_nonce_sig@.len() as int;
            let e = ephem_pubkey@.len() as int;
            assert(ad[32] == s as u8 && ad[33] == e as u8);
            assert(ads >= 34 && ad[32] + ad[33] <= ads - 34);
        },
    }
    assert(decode_ok(data, dest_id));
    assert forall|q: Packet, aad: Seq<u8>| #[trigger] decoded_packet(
        q,
        aad,
        data,
        dest_id,
    ) implies same_packet(q, p) && aad == packet_aad(p) by {
        assert(q.iv@ == data.take(16));
        assert(q.message@ == data.skip(39 + ads));
        let qhdr = header_bytes(q.header);
        assert(qhdr == u.take(23 + ads));
        assert(u.take(23 + ads) =~= hdr);
        assert forall|j: int| 0 <= j < 12 implies q.header.message_nonce@[j]
            == p.header.message_nonce@[j] by {
            assert(qhdr[9 + j] == q.header.message_nonce@[j]);
            assert(hdr[9 + j] == p.header.message_nonce@[j]);
        }
        assert(q.header.message_nonce@ =~= p.header.message_nonce@);
        let adq = u.subrange(23, 23 + ads);
        assert(adq == ad);
        assert(kind_fields(q.header.kind, u[8], adq));
        match p.header.kind {
            PacketKind::Message { src_id } => {
                assert(u[8] == 0);
                match q.header.kind {
                    PacketKind::Message { src_id: qs } => {
                        assert(qs@ == ad);
                        assert(ad == src_id@);
                    },
                    _ => {
                        assert(false);
                    },
                }
            },
            PacketKind::WhoAreYou { id_nonce, enr_seq } => {
                assert(u[8] == 1);
                match q.header.kind {
                    PacketKind::WhoAreYou { id_nonce: qn, enr_seq: qe } => {
                        assert(qn@ == adq.take(16));
                        assert(adq.take(16) =~= id_nonce@);
                        assert(crate::bytes::be64(qe) == adq.skip(16));
                        assert(adq.skip(16) =~= crate::bytes::be64(enr_seq));
                        if qe != enr_seq {
                            crate::bytes::lemma_be64_injective(qe, enr_seq);
                        }
                    },
                    _ => {
                        assert(false);
                    },
                }
            },
            PacketKind::Handshake { src_id, id_nonce_sig, ephem_pubkey, enr_record } => {
                assert(u[8] == 2);
                let s = id_nonce_sig@.len() as int;
                let e = ephem_pubkey@.len() as int;
                assert(adq[32] == s as u8 && adq[33] == e as u8);
                match q.header.kind {
                    PacketKind::Handshake {
                        src_id: qs,
                        id_nonce_sig: qsig,
                        ephem_pubkey: qk,
                        enr_record: qr,
                    } => {
                        assert(qs@ == adq.take(32));
                        assert(adq.take(32) =~= src_id@);
                        assert(qsig@ == adq.subrange(34, 34 + s));
                        assert(adq.subrange(34, 34 + s) =~= id_nonce_sig@);
                        assert(qk@ == adq.subrange(34 + s, 34 + s + e));
                        assert(adq.subrange(34 + s, 34 + s + e) =~= ephem_pubkey@);
                        match (qr, enr_record) {
                            (Some(x), Some(y)) => {
                                assert(x@ == adq.skip(34 + s + e));
                                assert(adq.skip(34 + s + e) =~= y@);
                            },
                            (None, Some(y)) => {
                                assert(y@.len() > 0);
                                assert(ads > 34 + s + e);
                                assert(false);
                            },
                            (Some(x), None) => {
                                assert(ads == 34 + s + e);
                                assert(false);
                            },
                            (None, None) => {},
                        }
                    },
                    _ => {
                        assert(false);
                    },
                }
            },
        }
        assert(aad == packet_aad(q));
        assert(packet_aad(q) =~= packet_aad(p));
    }
}

} // verus!
