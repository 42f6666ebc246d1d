//! End-to-end scenarios driving the handler through the wire codec.
use mock_peer::behaviour::{
    Action, Behaviour, Behaviours, CustomResponse, CustomResponseId, DeclarativeBehaviour, Expect,
    Request, Response,
};
use mock_peer::crypto::{decrypt_message, derive_keys_from_pubkey, encrypt_message, LocalKey, SecretKey};
use mock_peer::handler::{Fault, Handler, InboundPacket, LocalNode, NodeAddress};
use mock_peer::rpc::{encode_request, encode_response, RequestBody, RequestId, ResponseBody, RpcRequest, RpcResponse};
use mock_peer::wire::{authenticated_data, decode_packet, encode_packet, Packet, PacketHeader, PacketKind};
use std::collections::VecDeque;

fn secret(fill: u8) -> SecretKey {
    let mut b = vec![fill; 32];
    b[0] = 0;
    SecretKey::from_bytes(&b).expect("a small scalar is valid")
}

fn mock_id() -> Vec<u8> {
    vec![0xaa; 32]
}

fn peer_id() -> Vec<u8> {
    vec![0xbb; 32]
}

fn peer_address() -> NodeAddress {
    NodeAddress { node_id: peer_id(), ip: vec![198, 51, 100, 7], port: 30303 }
}

fn mock_handler(behaviours: Behaviours) -> Handler {
    let local = LocalNode {
        key: LocalKey::Secp256k1(secret(2)),
        node_id: mock_id(),
        enr_seq: 5,
        ip: vec![192, 0, 2, 1],
        udp_port: 9000,
    };
    Handler::new(local, behaviours)
}

/// Runs a packet through the real wire encoding and back, as the transport
/// would, and tags it with the sender's address.
fn deliver(packet: &Packet) -> InboundPacket {
    let raw = encode_packet(packet, &mock_id());
    let (decoded, aad) = decode_packet(&raw, &mock_id()).expect("well-formed packet");
    InboundPacket {
        src_ip: vec![198, 51, 100, 7],
        src_port: 30303,
        header: decoded.header,
        message: decoded.message,
        authenticated_data: aad,
    }
}

fn plain_message_packet() -> Packet {
    Packet {
        iv: vec![1; 16],
        header: PacketHeader {
            message_nonce: vec![9; 12],
            kind: PacketKind::Message { src_id: peer_id() },
        },
        message: vec![0x55; 44],
    }
}

fn whoareyou_packet() -> Packet {
    Packet {
        iv: vec![4; 16],
        header: PacketHeader {
            message_nonce: vec![8; 12],
            kind: PacketKind::WhoAreYou { id_nonce: vec![3; 16], enr_seq: 0 },
        },
        message: Vec::new(),
    }
}

/// Builds the peer's handshake reply to a challenge, carrying an encrypted
/// request; gives back the packet and the derived key pair.
fn handshake_reply(
    ephem_fill: u8,
    challenge_data: &Vec<u8>,
    request: &RpcRequest,
) -> (Packet, (Vec<u8>, Vec<u8>)) {
    let mock_static_pub = secret(2).public_key();
    let ephem_pub = secret(ephem_fill).public_key();
    let keys = derive_keys_from_pubkey(
        &LocalKey::Secp256k1(secret(ephem_fill)),
        &mock_id(),
        &peer_id(),
        challenge_data,
        &mock_static_pub,
    )
    .expect("the mock's public key is valid");
    let mut packet = Packet {
        iv: vec![6; 16],
        header: PacketHeader {
            message_nonce: vec![0, 0, 0, 1, 5, 5, 5, 5, 5, 5, 5, 5],
            kind: PacketKind::Handshake {
                src_id: peer_id(),
                id_nonce_sig: vec![7; 64],
                ephem_pubkey: ephem_pub,
                enr_record: Some(vec![0xee; 10]),
            },
        },
        message: Vec::new(),
    };
    let aad = authenticated_data(&packet);
    let bytes = encode_request(request);
    let ciphertext =
        encrypt_message(&keys.0, &packet.header.message_nonce, &bytes, &aad).unwrap();
    packet.message = ciphertext;
    (packet, keys)
}

fn findnode_request() -> RpcRequest {
    RpcRequest {
        id: RequestId(vec![0xde, 0xad, 0xbe, 0xef]),
        body: RequestBody::FindNode { distances: vec![256] },
    }
}

#[test]
fn sequential_mismatch_fails_identifying_the_expectation() {
    let mut script = VecDeque::new();
    script.push_back(Behaviour { expect: Expect::WhoAreYou, actions: vec![] });
    let mut handler = mock_handler(Behaviours::Sequential(script));
    let inbound = deliver(&plain_message_packet());
    let (outs, fault) = handler.process_inbound_packet(inbound);
    assert!(outs.is_empty());
    assert_eq!(fault, Some(Fault::UnexpectedPacket { expected: Expect::WhoAreYou }));
}

#[test]
fn sequential_exhausted_script_is_fatal() {
    let mut handler = mock_handler(Behaviours::Sequential(VecDeque::new()));
    let inbound = deliver(&plain_message_packet());
    let (outs, fault) = handler.process_inbound_packet(inbound);
    assert!(outs.is_empty());
    assert_eq!(fault, Some(Fault::BehavioursExhausted));
}

#[test]
fn sequential_wrong_request_kind_is_fatal() {
    // Complete a handshake whose decrypted request is a find-node while the
    // script expects a ping.
    let mut script = VecDeque::new();
    script.push_back(Behaviour {
        expect: Expect::MessageWithoutSession,
        actions: vec![Action::SendWhoAreYou],
    });
    script.push_back(Behaviour { expect: Expect::Handshake(Request::Ping), actions: vec![] });
    let mut handler = mock_handler(Behaviours::Sequential(script));
    let (outs, fault) = handler.process_inbound_packet(deliver(&plain_message_packet()));
    assert_eq!(outs.len(), 1);
    assert_eq!(fault, None);
    let challenge_data = authenticated_data(&outs[0].packet);
    let (handshake, _keys) = handshake_reply(3, &challenge_data, &findnode_request());
    let (outs, fault) = handler.process_inbound_packet(deliver(&handshake));
    assert!(outs.is_empty());
    assert_eq!(fault, Some(Fault::UnexpectedRequestKind { expected: Request::Ping }));
}

#[test]
fn full_handshake_capture_and_custom_responses_echo_the_captured_id() {
    let nodes_body = ResponseBody::Nodes { total: 1, nodes: vec![vec![0xc3, 0x01, 0x02, 0x03]] };
    let mut script = VecDeque::new();
    script.push_back(Behaviour {
        expect: Expect::MessageWithoutSession,
        actions: vec![Action::SendWhoAreYou],
    });
    script.push_back(Behaviour {
        expect: Expect::Handshake(Request::FindNode),
        actions: vec![
            Action::EstablishSession,
            Action::CaptureRequest,
            Action::SendResponse(Response::Custom(vec![
                CustomResponse {
                    id: CustomResponseId::CapturedRequestId(0),
                    body: nodes_body.clone(),
                },
                CustomResponse {
                    id: CustomResponseId::CapturedRequestId(0),
                    body: nodes_body.clone(),
                },
            ])),
        ],
    });
    let mut handler = mock_handler(Behaviours::Sequential(script));

    // An unsolicited message provokes a challenge.
    let (outs, fault) = handler.process_inbound_packet(deliver(&plain_message_packet()));
    assert_eq!(fault, None);
    assert_eq!(outs.len(), 1);
    assert!(matches!(outs[0].packet.header.kind, PacketKind::WhoAreYou { .. }));
    assert_eq!(outs[0].packet.header.message_nonce, vec![9; 12]);
    assert_eq!(outs[0].node_address.node_id, peer_id());
    let challenge_data = authenticated_data(&outs[0].packet);
    assert_eq!(challenge_data.len(), 63);

    // The peer completes the handshake, carrying a find-node request.
    let request = findnode_request();
    let (handshake, keys) = handshake_reply(3, &challenge_data, &request);
    let (outs, fault) = handler.process_inbound_packet(deliver(&handshake));
    assert_eq!(fault, None);
    assert_eq!(outs.len(), 2);

    // The request was captured with its exact identifier.
    assert_eq!(handler.captured_requests.len(), 1);
    assert_eq!(handler.captured_requests[0].id.0, vec![0xde, 0xad, 0xbe, 0xef]);
    assert!(handler.sessions.contains(&peer_address()));

    // Both responses decrypt under the recipient key and echo the captured
    // request id, with strictly increasing nonce prefixes.
    let expected = encode_response(&RpcResponse {
        id: RequestId(vec![0xde, 0xad, 0xbe, 0xef]),
        body: nodes_body,
    });
    for (i, out) in outs.iter().enumerate() {
        let aad = authenticated_data(&out.packet);
        let nonce = &out.packet.header.message_nonce;
        assert_eq!(nonce[0..4].to_vec(), vec![0, 0, 0, i as u8 + 1]);
        let plaintext = decrypt_message(&keys.1, nonce, &out.packet.message, &aad).unwrap();
        assert_eq!(plaintext, expected);
    }
}

#[test]
fn dropped_challenge_leaves_no_pending_challenge() {
    // The mock silently ignores a challenge; a handshake that then arrives
    // finds nothing pending and the run fails.
    let mut script = VecDeque::new();
    script.push_back(Behaviour {
        expect: Expect::WhoAreYou,
        actions: vec![Action::Ignore("drop the challenge".to_string())],
    });
    script.push_back(Behaviour {
        expect: Expect::Handshake(Request::FindNode),
        actions: vec![Action::EstablishSession],
    });
    let mut handler = mock_handler(Behaviours::Sequential(script));
    let (outs, fault) = handler.process_inbound_packet(deliver(&whoareyou_packet()));
    assert!(outs.is_empty());
    assert_eq!(fault, None);
    assert!(!handler.active_challenges.contains(&peer_address()));

    let (handshake, _keys) = handshake_reply(3, &vec![7u8; 63], &findnode_request());
    let (outs, fault) = handler.process_inbound_packet(deliver(&handshake));
    assert!(outs.is_empty());
    assert_eq!(fault, Some(Fault::NoActiveChallenge));
}

#[test]
fn declarative_challenge_only_never_completes_a_session() {
    let behaviours = Behaviours::Declarative(DeclarativeBehaviour {
        whoareyou: vec![Action::Ignore("unexpected".to_string())],
        handshake: vec![Action::Ignore("never complete".to_string())],
        message: vec![Action::Ignore("unused".to_string())],
        message_without_session: vec![Action::SendWhoAreYou],
    });
    let mut handler = mock_handler(behaviours);

    let (outs, fault) = handler.process_inbound_packet(deliver(&plain_message_packet()));
    assert_eq!(fault, None);
    assert_eq!(outs.len(), 1);
    let challenge_data = authenticated_data(&outs[0].packet);

    for _ in 0..3 {
        let (handshake, _keys) = handshake_reply(3, &challenge_data, &findnode_request());
        let (outs, fault) = handler.process_inbound_packet(deliver(&handshake));
        assert!(outs.is_empty());
        assert_eq!(fault, None);
        assert!(!handler.sessions.contains(&peer_address()));
    }
    assert!(handler.active_challenges.contains(&peer_address()));
}

#[test]
fn second_challenge_for_the_same_peer_is_fatal() {
    let mut script = VecDeque::new();
    script.push_back(Behaviour {
        expect: Expect::MessageWithoutSession,
        actions: vec![Action::SendWhoAreYou],
    });
    script.push_back(Behaviour {
        expect: Expect::MessageWithoutSession,
        actions: vec![Action::SendWhoAreYou],
    });
    let mut handler = mock_handler(Behaviours::Sequential(script));
    let (_, fault) = handler.process_inbound_packet(deliver(&plain_message_packet()));
    assert_eq!(fault, None);
    let (outs, fault) = handler.process_inbound_packet(deliver(&plain_message_packet()));
    assert!(outs.is_empty());
    assert_eq!(fault, Some(Fault::ChallengeAlreadySent));
}

#[test]
fn random_packet_has_message_shape() {
    let p = mock_peer::handler::random_packet(&mock_id());
    assert_eq!(p.message.len(), 44);
    assert_eq!(p.iv.len(), 16);
    assert_eq!(p.header.message_nonce.len(), 12);
    match &p.header.kind {
        PacketKind::Message { src_id } => assert_eq!(src_id, &mock_id()),
        _ => panic!("a random packet is an ordinary message"),
    }
    // It survives the codec, so the real peer can parse it.
    let raw = encode_packet(&p, &peer_id());
    let (decoded, _) = decode_packet(&raw, &peer_id()).unwrap();
    assert_eq!(decoded.message, p.message);
}

#[test]
fn default_response_to_a_ping_is_a_pong_echoing_the_id() {
    let mut script = VecDeque::new();
    script.push_back(Behaviour {
        expect: Expect::MessageWithoutSession,
        actions: vec![Action::SendWhoAreYou],
    });
    script.push_back(Behaviour {
        expect: Expect::Handshake(Request::Ping),
        actions: vec![Action::EstablishSession],
    });
    script.push_back(Behaviour {
        expect: Expect::Message(Request::Ping),
        actions: vec![Action::SendResponse(Response::Default)],
    });
    let mut handler = mock_handler(Behaviours::Sequential(script));

    let (outs, fault) = handler.process_inbound_packet(deliver(&plain_message_packet()));
    assert_eq!(fault, None);
    let challenge_data = authenticated_data(&outs[0].packet);

    let ping = RpcRequest { id: RequestId(vec![0x42]), body: RequestBody::Ping { enr_seq: 9 } };
    let (handshake, keys) = handshake_reply(3, &challenge_data, &ping);
    let (outs, fault) = handler.process_inbound_packet(deliver(&handshake));
    assert_eq!(fault, None);
    assert!(outs.is_empty());
    assert!(handler.sessions.contains(&peer_address()));

    // The peer now speaks over the session: an encrypted ping message.
    let mut message = Packet {
        iv: vec![0x0b; 16],
        header: PacketHeader {
            message_nonce: vec![0, 0, 0, 2, 6, 6, 6, 6, 6, 6, 6, 6],
            kind: PacketKind::Message { src_id: peer_id() },
        },
        message: Vec::new(),
    };
    let aad = authenticated_data(&message);
    let bytes = encode_request(&ping);
    message.message =
        encrypt_message(&keys.0, &message.header.message_nonce, &bytes, &aad).unwrap();
    let (outs, fault) = handler.process_inbound_packet(deliver(&message));
    assert_eq!(fault, None);
    assert_eq!(outs.len(), 1);

    // The pong carries the mock's own address data and echoes the ping's id.
    let out_aad = authenticated_data(&outs[0].packet);
    let plaintext = decrypt_message(
        &keys.1,
        &outs[0].packet.header.message_nonce,
        &outs[0].packet.message,
        &out_aad,
    )
    .unwrap();
    let expected = encode_response(&RpcResponse {
        id: RequestId(vec![0x42]),
        body: ResponseBody::Pong { enr_seq: 5, ip: vec![192, 0, 2, 1], port: 9000 },
    });
    assert_eq!(plaintext, expected);
}

#[test]
fn response_to_a_missing_capture_is_fatal() {
    let mut script = VecDeque::new();
    script.push_back(Behaviour {
        expect: Expect::MessageWithoutSession,
        actions: vec![Action::SendWhoAreYou],
    });
    script.push_back(Behaviour {
        expect: Expect::Handshake(Request::FindNode),
        actions: vec![
            Action::EstablishSession,
            Action::SendResponse(Response::Custom(vec![CustomResponse {
                id: CustomResponseId::CapturedRequestId(0),
                body: ResponseBody::Talk { response: vec![1] },
            }])),
        ],
    });
    let mut handler = mock_handler(Behaviours::Sequential(script));
    let (outs, fault) = handler.process_inbound_packet(deliver(&plain_message_packet()));
    assert_eq!(fault, None);
    let challenge_data = authenticated_data(&outs[0].packet);
    let (handshake, _keys) = handshake_reply(3, &challenge_data, &findnode_request());
    // Nothing was captured, so the scripted response cannot be correlated.
    let (outs, fault) = handler.process_inbound_packet(deliver(&handshake));
    assert!(outs.is_empty());
    assert_eq!(fault, Some(Fault::NoCapturedRequest { index: 0 }));
}

#[test]
fn declarative_table_distinguishes_messages_with_and_without_session() {
    let behaviours = Behaviours::Declarative(DeclarativeBehaviour {
        whoareyou: vec![Action::Ignore("unused".to_string())],
        handshake: vec![Action::EstablishSession],
        message: vec![Action::CaptureRequest],
        message_without_session: vec![Action::SendWhoAreYou],
    });
    let mut handler = mock_handler(behaviours);

    // Without a session, a message draws a challenge.
    let (outs, fault) = handler.process_inbound_packet(deliver(&plain_message_packet()));
    assert_eq!(fault, None);
    assert_eq!(outs.len(), 1);
    let challenge_data = authenticated_data(&outs[0].packet);

    // The handshake completes a session; the same table is not consumed.
    let ping = RpcRequest { id: RequestId(vec![0x66]), body: RequestBody::Ping { enr_seq: 3 } };
    let (handshake, keys) = handshake_reply(3, &challenge_data, &ping);
    let (outs, fault) = handler.process_inbound_packet(deliver(&handshake));
    assert_eq!(fault, None);
    assert!(outs.is_empty());
    assert!(handler.sessions.contains(&peer_address()));

    // With the session up, messages land in the capture list instead.
    let mut message = Packet {
        iv: vec![0x0c; 16],
        header: PacketHeader {
            message_nonce: vec![0, 0, 0, 3, 6, 6, 6, 6, 6, 6, 6, 6],
            kind: PacketKind::Message { src_id: peer_id() },
        },
        message: Vec::new(),
    };
    let aad = authenticated_data(&message);
    let bytes = encode_request(&ping);
    message.message =
        encrypt_message(&keys.0, &message.header.message_nonce, &bytes, &aad).unwrap();
    let (outs, fault) = handler.process_inbound_packet(deliver(&message));
    assert_eq!(fault, None);
    assert!(outs.is_empty());
    assert_eq!(handler.captured_requests.len(), 1);
    assert_eq!(handler.captured_requests[0].id.0, vec![0x66]);
}
