//! Key-derivation and authenticated-encryption behaviour.
use mock_peer::crypto::{decrypt_message, derive_keys_from_pubkey, encrypt_message, LocalKey, SecretKey};
use mock_peer::errors::Error;
use mock_peer::session::{Keys, Session};

fn secret(fill: u8) -> SecretKey {
    let mut b = vec![fill; 32];
    b[0] = 0;
    SecretKey::from_bytes(&b).expect("a small scalar is valid")
}

fn id(fill: u8) -> Vec<u8> {
    vec![fill; 32]
}

#[test]
fn secret_key_rejects_invalid_scalars() {
    assert!(SecretKey::from_bytes(&vec![0u8; 32]).is_none());
    assert!(SecretKey::from_bytes(&vec![0xffu8; 32]).is_none());
    assert!(SecretKey::from_bytes(&vec![1u8; 31]).is_none());
    assert!(SecretKey::from_bytes(&vec![1u8; 32]).is_some());
}

#[test]
fn key_derivation_is_symmetric() {
    // The Diffie-Hellman exchange gives both parties the same session keys.
    let a = secret(2);
    let b = secret(3);
    let a_pub = a.public_key();
    let b_pub = b.public_key();
    let challenge_data = vec![7u8; 63];
    let first = id(0xaa);
    let second = id(0xbb);
    let from_a = derive_keys_from_pubkey(
        &LocalKey::Secp256k1(a),
        &second,
        &first,
        &challenge_data,
        &b_pub,
    )
    .expect("valid public key");
    let from_b = derive_keys_from_pubkey(
        &LocalKey::Secp256k1(b),
        &second,
        &first,
        &challenge_data,
        &a_pub,
    )
    .expect("valid public key");
    assert_eq!(from_a, from_b);
    assert_eq!(from_a.0.len(), 16);
    assert_eq!(from_a.1.len(), 16);
    assert_ne!(from_a.0, from_a.1);
}

#[test]
fn key_derivation_depends_on_ids_and_challenge() {
    let a = secret(2);
    let b = secret(3);
    let b_pub = b.public_key();
    let cd = vec![7u8; 63];
    let k1 = derive_keys_from_pubkey(&LocalKey::Secp256k1(secret(2)), &id(1), &id(2), &cd, &b_pub)
        .unwrap();
    let k2 = derive_keys_from_pubkey(&LocalKey::Secp256k1(secret(2)), &id(2), &id(1), &cd, &b_pub)
        .unwrap();
    assert_ne!(k1, k2);
    let cd2 = vec![8u8; 63];
    let k3 = derive_keys_from_pubkey(&LocalKey::Secp256k1(a), &id(1), &id(2), &cd2, &b_pub).unwrap();
    assert_ne!(k1, k3);
}

#[test]
fn key_derivation_rejects_bad_remote_key() {
    let a = secret(2);
    // An invalid SEC1 tag byte.
    let mut bad = vec![0x02u8; 33];
    bad[0] = 0x01;
    let r = derive_keys_from_pubkey(&LocalKey::Secp256k1(a), &id(1), &id(2), &vec![7u8; 63], &bad);
    assert_eq!(r.err(), Some(Error::InvalidRemotePublicKey));
    // A truncated encoding.
    let r = derive_keys_from_pubkey(
        &LocalKey::Secp256k1(secret(2)),
        &id(1),
        &id(2),
        &vec![7u8; 63],
        &vec![0x02u8; 32],
    );
    assert_eq!(r.err(), Some(Error::InvalidRemotePublicKey));
}

#[test]
fn key_derivation_rejects_unsupported_key_type() {
    let r = derive_keys_from_pubkey(
        &LocalKey::Ed25519,
        &id(1),
        &id(2),
        &vec![7u8; 63],
        &secret(3).public_key(),
    );
    assert_eq!(r.unwrap_err(), Error::UnsupportedKeyType);
}

#[test]
fn aead_round_trip() {
    let key = vec![9u8; 16];
    let nonce = vec![1u8; 12];
    let aad = vec![2u8, 3, 4];
    let plaintext = b"a message worth protecting".to_vec();
    let ct = encrypt_message(&key, &nonce, &plaintext, &aad).unwrap();
    assert_eq!(ct.len(), plaintext.len() + 16);
    let pt = decrypt_message(&key, &nonce, &ct, &aad).unwrap();
    assert_eq!(pt, plaintext);
}

#[test]
fn aead_rejects_any_flipped_bit() {
    let key = vec![9u8; 16];
    let nonce = vec![1u8; 12];
    let aad = vec![2u8, 3, 4];
    let plaintext = b"tamper with me".to_vec();
    let ct = encrypt_message(&key, &nonce, &plaintext, &aad).unwrap();
    for i in 0..ct.len() {
        for bit in 0..8 {
            let mut bad = ct.clone();
            bad[i] ^= 1 << bit;
            let r = decrypt_message(&key, &nonce, &bad, &aad);
            assert_eq!(r.unwrap_err(), Error::AuthenticationFailed);
        }
    }
}

#[test]
fn aead_rejects_wrong_key_nonce_and_aad() {
    let key = vec![9u8; 16];
    let nonce = vec![1u8; 12];
    let aad = vec![2u8, 3, 4];
    let plaintext = b"stay close".to_vec();
    let ct = encrypt_message(&key, &nonce, &plaintext, &aad).unwrap();
    assert!(decrypt_message(&vec![8u8; 16], &nonce, &ct, &aad).is_err());
    assert!(decrypt_message(&key, &vec![0u8; 12], &ct, &aad).is_err());
    assert!(decrypt_message(&key, &nonce, &ct, &vec![2u8, 3, 5]).is_err());
}

#[test]
fn aead_rejects_short_input() {
    let key = vec![9u8; 16];
    let nonce = vec![1u8; 12];
    let r = decrypt_message(&key, &nonce, &vec![0u8; 15], &Vec::new());
    assert_eq!(r.unwrap_err(), Error::AuthenticationFailed);
}

#[test]
fn session_counter_nonces_strictly_increase() {
    let keys = Keys::new(vec![5u8; 16], vec![6u8; 16]).unwrap();
    let mut session = Session::new(keys);
    let src_id = id(0xcc);
    let message = b"ping".to_vec();
    let mut previous: u32 = 0;
    let mut seen = std::collections::HashSet::new();
    for i in 0..1000u32 {
        let packet = session.encrypt_message(&src_id, &message).unwrap();
        let nonce = &packet.header.message_nonce;
        assert_eq!(nonce.len(), 12);
        let prefix = u32::from_be_bytes([nonce[0], nonce[1], nonce[2], nonce[3]]);
        assert_eq!(prefix, i + 1);
        if i > 0 {
            assert!(prefix > previous);
        }
        assert!(seen.insert(prefix));
        previous = prefix;
    }
    assert_eq!(session.counter(), 1000);
}

#[test]
fn session_decrypt_does_not_advance_counter() {
    let keys = Keys::new(vec![5u8; 16], vec![5u8; 16]).unwrap();
    let mut session = Session::new(keys);
    let src_id = id(0xcc);
    let packet = session.encrypt_message(&src_id, &b"hello".to_vec()).unwrap();
    let aad = mock_peer::wire::authenticated_data(&packet);
    // The keys are symmetric here, so the session can read its own packet.
    let pt = session
        .decrypt_message(&packet.header.message_nonce, &packet.message, &aad)
        .unwrap();
    assert_eq!(pt, b"hello".to_vec());
    assert_eq!(session.counter(), 1);
}

#[test]
fn establish_requires_the_remote_record() {
    let mock_key = secret(2);
    let peer = secret(3);
    let challenge = mock_peer::handler::Challenge { data: vec![7u8; 63], remote_enr: None };
    let r = Session::establish_from_challenge(
        &LocalKey::Secp256k1(mock_key),
        &id(1),
        &id(2),
        &challenge,
        &peer.public_key(),
        None,
    );
    assert_eq!(r.err().unwrap(), Error::MissingEnrRecord);
}
