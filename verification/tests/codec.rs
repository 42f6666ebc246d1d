//! Wire and message codec behaviour.
use mock_peer::errors::Error;
use mock_peer::rpc::{
    decode_message, encode_request, encode_response, Message, RequestBody, RequestId,
    ResponseBody, RpcRequest, RpcResponse,
};
use mock_peer::wire::{
    authenticated_data, decode_packet, encode_packet, Packet, PacketHeader, PacketKind,
};

fn local_id() -> Vec<u8> {
    vec![0x11; 32]
}

fn round_trip(packet: &Packet) -> Packet {
    let raw = encode_packet(packet, &local_id());
    let (decoded, aad) = decode_packet(&raw, &local_id()).expect("well-formed packet");
    assert_eq!(aad, authenticated_data(packet));
    decoded
}

#[test]
fn message_packet_round_trips() {
    let p = Packet {
        iv: vec![1; 16],
        header: PacketHeader {
            message_nonce: vec![2; 12],
            kind: PacketKind::Message { src_id: vec![3; 32] },
        },
        message: vec![4; 44],
    };
    let d = round_trip(&p);
    assert_eq!(d.iv, p.iv);
    assert_eq!(d.header.message_nonce, p.header.message_nonce);
    assert_eq!(d.message, p.message);
    match d.header.kind {
        PacketKind::Message { src_id } => assert_eq!(src_id, vec![3; 32]),
        _ => panic!("wrong kind"),
    }
}

#[test]
fn whoareyou_packet_round_trips() {
    let p = Packet {
        iv: vec![7; 16],
        header: PacketHeader {
            message_nonce: vec![8; 12],
            kind: PacketKind::WhoAreYou { id_nonce: vec![9; 16], enr_seq: 0x0102_0304_0506_0708 },
        },
        message: Vec::new(),
    };
    let d = round_trip(&p);
    match d.header.kind {
        PacketKind::WhoAreYou { id_nonce, enr_seq } => {
            assert_eq!(id_nonce, vec![9; 16]);
            assert_eq!(enr_seq, 0x0102_0304_0506_0708);
        },
        _ => panic!("wrong kind"),
    }
}

#[test]
fn handshake_packet_round_trips() {
    let p = Packet {
        iv: vec![7; 16],
        header: PacketHeader {
            message_nonce: vec![8; 12],
            kind: PacketKind::Handshake {
                src_id: vec![1; 32],
                id_nonce_sig: vec![2; 64],
                ephem_pubkey: vec![3; 33],
                enr_record: Some(vec![4; 20]),
            },
        },
        message: vec![5; 60],
    };
    let d = round_trip(&p);
    match d.header.kind {
        PacketKind::Handshake { src_id, id_nonce_sig, ephem_pubkey, enr_record } => {
            assert_eq!(src_id, vec![1; 32]);
            assert_eq!(id_nonce_sig, vec![2; 64]);
            assert_eq!(ephem_pubkey, vec![3; 33]);
            assert_eq!(enr_record, Some(vec![4; 20]));
        },
        _ => panic!("wrong kind"),
    }
}

#[test]
fn handshake_without_record_round_trips() {
    let p = Packet {
        iv: vec![7; 16],
        header: PacketHeader {
            message_nonce: vec![8; 12],
            kind: PacketKind::Handshake {
                src_id: vec![1; 32],
                id_nonce_sig: vec![2; 64],
                ephem_pubkey: vec![3; 33],
                enr_record: None,
            },
        },
        message: Vec::new(),
    };
    let d = round_trip(&p);
    match d.header.kind {
        PacketKind::Handshake { enr_record, .. } => assert_eq!(enr_record, None),
        _ => panic!("wrong kind"),
    }
}

#[test]
fn decode_rejects_malformed_datagrams() {
    // Too short to hold the smallest packet.
    assert_eq!(decode_packet(&vec![0u8; 62], &local_id()).err(), Some(Error::MalformedPacket));
    // Too long for a datagram of this protocol.
    assert_eq!(decode_packet(&vec![0u8; 1281], &local_id()).err(), Some(Error::MalformedPacket));

    let p = Packet {
        iv: vec![1; 16],
        header: PacketHeader {
            message_nonce: vec![2; 12],
            kind: PacketKind::Message { src_id: vec![3; 32] },
        },
        message: vec![4; 44],
    };
    let good = encode_packet(&p, &local_id());
    assert!(decode_packet(&good, &local_id()).is_ok());

    // A corrupted protocol identifier is rejected.
    let mut bad = good.clone();
    bad[16] ^= 0x01;
    assert_eq!(decode_packet(&bad, &local_id()).err(), Some(Error::MalformedPacket));

    // An unrecognized kind discriminant is rejected.
    let mut bad = good.clone();
    bad[24] ^= 0x80;
    assert_eq!(decode_packet(&bad, &local_id()).err(), Some(Error::MalformedPacket));

    // Decoding with the wrong local id fails: the header unmasks to noise.
    assert_eq!(decode_packet(&good, &vec![0x22; 32]).err(), Some(Error::MalformedPacket));
}

#[test]
fn decode_rejects_challenge_with_trailing_bytes() {
    let p = Packet {
        iv: vec![7; 16],
        header: PacketHeader {
            message_nonce: vec![8; 12],
            kind: PacketKind::WhoAreYou { id_nonce: vec![9; 16], enr_seq: 1 },
        },
        message: Vec::new(),
    };
    let mut raw = encode_packet(&p, &local_id());
    raw.push(0xff);
    assert_eq!(decode_packet(&raw, &local_id()).err(), Some(Error::MalformedPacket));
}

#[test]
fn ping_request_has_the_documented_bytes() {
    let req = RpcRequest { id: RequestId(vec![0x01]), body: RequestBody::Ping { enr_seq: 1 } };
    assert_eq!(encode_request(&req), vec![0x01, 0xc2, 0x01, 0x01]);
}

#[test]
fn pong_response_has_the_documented_bytes() {
    let resp = RpcResponse {
        id: RequestId(vec![0x01]),
        body: ResponseBody::Pong { enr_seq: 1, ip: vec![192, 0, 2, 1], port: 9000 },
    };
    // type, list of: id, enr-seq, four address octets, port.
    assert_eq!(
        encode_response(&resp),
        vec![0x02, 0xca, 0x01, 0x01, 0x84, 192, 0, 2, 1, 0x82, 0x23, 0x28],
    );
}

#[test]
fn request_encodings_decode_back() {
    let requests = vec![
        RpcRequest { id: RequestId(vec![0xde, 0xad]), body: RequestBody::Ping { enr_seq: 0 } },
        RpcRequest {
            id: RequestId(vec![1, 2, 3, 4, 5, 6, 7, 8]),
            body: RequestBody::FindNode { distances: vec![0, 255, 256, u64::MAX] },
        },
        RpcRequest {
            id: RequestId(Vec::new()),
            body: RequestBody::Talk { protocol: b"echo".to_vec(), request: vec![0x80; 70] },
        },
    ];
    for req in requests {
        let bytes = encode_request(&req);
        match decode_message(&bytes).expect("canonical bytes decode") {
            Message::Request(decoded) => {
                assert_eq!(decoded.id.0, req.id.0);
                match (&decoded.body, &req.body) {
                    (RequestBody::Ping { enr_seq: a }, RequestBody::Ping { enr_seq: b }) => {
                        assert_eq!(a, b)
                    },
                    (
                        RequestBody::FindNode { distances: a },
                        RequestBody::FindNode { distances: b },
                    ) => assert_eq!(a, b),
                    (
                        RequestBody::Talk { protocol: a, request: ra },
                        RequestBody::Talk { protocol: b, request: rb },
                    ) => {
                        assert_eq!(a, b);
                        assert_eq!(ra, rb);
                    },
                    _ => panic!("request kind changed in flight"),
                }
            },
            Message::Response => panic!("a request decoded as a response"),
        }
    }
}

#[test]
fn responses_are_classified_without_reading_their_bodies() {
    let resp = RpcResponse {
        id: RequestId(vec![0x05]),
        body: ResponseBody::Talk { response: vec![1, 2, 3] },
    };
    let bytes = encode_response(&resp);
    assert!(matches!(decode_message(&bytes), Ok(Message::Response)));
}

#[test]
fn decode_message_rejects_malformed_bytes() {
    // Too short.
    assert_eq!(decode_message(&vec![0x01]).err(), Some(Error::MalformedMessage));
    // Unknown message type.
    assert_eq!(decode_message(&vec![0x09, 0xc2, 0x01, 0x01]).err(), Some(Error::MalformedMessage));
    // Trailing bytes after the list.
    assert_eq!(
        decode_message(&vec![0x01, 0xc2, 0x01, 0x01, 0xff]).err(),
        Some(Error::MalformedMessage),
    );
    // A request id longer than eight bytes.
    assert_eq!(
        decode_message(&vec![0x01, 0xcb, 0x89, 1, 2, 3, 4, 5, 6, 7, 8, 9, 0x01]).err(),
        Some(Error::MalformedMessage),
    );
    // A non-minimal integer encoding.
    assert_eq!(
        decode_message(&vec![0x01, 0xc3, 0x01, 0x81, 0x01]).err(),
        Some(Error::MalformedMessage),
    );
}
