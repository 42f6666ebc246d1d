//! Session-key derivation and authenticated encryption.
//!
//! The arithmetic of the outside primitives (the curve, HKDF, AES) is not
//! restated here: each primitive's result is given a name, and the verified
//! code is exact relative to those names.
use crate::errors::Error;
use vstd::prelude::*;

use ctr::cipher::{KeyIvInit, StreamCipher};
use aes_gcm::aead::{Aead, Payload};
use aes_gcm::KeyInit;
use k256::elliptic_curve::sec1::ToEncodedPoint;

verus! {

// ---------------------------------------------------------------------------
// Names for what the outside primitives return
// ---------------------------------------------------------------------------

/// Byte `i` of the AES-128-CTR keystream for a key and a 16-byte nonce.
pub uninterp spec fn keystream_byte(key: Seq<u8>, iv: Seq<u8>, i: int) -> u8;

/// Whether 32 bytes form a valid (nonzero, in-range) secret scalar.
pub uninterp spec fn valid_secret_key(b: Seq<u8>) -> bool;

/// Whether bytes are a valid SEC1 encoding of a point on the curve.
pub uninterp spec fn valid_public_key(b: Seq<u8>) -> bool;

/// The compressed SEC1 encoding of the public key of a secret scalar.
pub uninterp spec fn public_key_of(sk: Seq<u8>) -> Seq<u8>;

/// The compressed SEC1 encoding of the Diffie-Hellman shared point computed
/// from a public key and a secret scalar.
pub uninterp spec fn ecdh_secret(pk: Seq<u8>, sk: Seq<u8>) -> Seq<u8>;

/// Byte `i` of the HKDF-SHA-256 output keying material.
pub uninterp spec fn hkdf_byte(salt: Seq<u8>, ikm: Seq<u8>, info: Seq<u8>, i: int) -> u8;

/// The AES-128-GCM ciphertext (body plus 16-byte tag) of a plaintext.
pub uninterp spec fn gcm_ciphertext(key: Seq<u8>, nonce: Seq<u8>, pt: Seq<u8>, aad: Seq<u8>) -> Seq<
    u8,
>;

/// The AES-128-GCM decryption of a ciphertext: `Some` plaintext exactly when
/// the tag verifies.
pub uninterp spec fn gcm_plaintext(key: Seq<u8>, nonce: Seq<u8>, ct: Seq<u8>, aad: Seq<u8>) -> Option<
    Seq<u8>,
>;

/// The first `n` bytes of the AES-128-CTR keystream.
pub open spec fn keystream(key: Seq<u8>, iv: Seq<u8>, n: int) -> Seq<u8> {
    Seq::new(n as nat, |i: int| keystream_byte(key, iv, i))
}

/// The first `n` bytes of the HKDF-SHA-256 output keying material.
pub open spec fn hkdf_okm(salt: Seq<u8>, ikm: Seq<u8>, info: Seq<u8>, n: int) -> Seq<u8> {
    Seq::new(n as nat, |i: int| hkdf_byte(salt, ikm, info, i))
}

// ---------------------------------------------------------------------------
// Key-derivation constants and specification
// ---------------------------------------------------------------------------

/// The ASCII bytes of the fixed domain-separation string
/// `discovery v5 key agreement`.
pub open spec fn key_agreement_label() -> Seq<u8> {
    seq![
        0x64u8, 0x69u8, 0x73u8, 0x63u8, 0x6fu8, 0x76u8, 0x65u8, 0x72u8, 0x79u8, 0x20u8, 0x76u8,
        0x35u8, 0x20u8, 0x6bu8, 0x65u8, 0x79u8, 0x20u8, 0x61u8, 0x67u8, 0x72u8, 0x65u8, 0x65u8,
        0x6du8, 0x65u8, 0x6eu8, 0x74u8,
    ]
}

/// The HKDF expansion info: the domain-separation label followed by both node
/// identifiers, first party first.
pub open spec fn kdf_info(first_id: Seq<u8>, second_id: Seq<u8>) -> Seq<u8> {
    key_agreement_label() + first_id + second_id
}

/// The pair (initiator key, recipient key) expanded from a shared secret.
pub open spec fn session_key_pair(
    secret: Seq<u8>,
    first_id: Seq<u8>,
    second_id: Seq<u8>,
    challenge_data: Seq<u8>,
) -> (Seq<u8>, Seq<u8>) {
    let okm = hkdf_okm(challenge_data, secret, kdf_info(first_id, second_id), 32);
    (okm.take(16), okm.skip(16))
}

/// The pair of session keys derived from a secret scalar and a remote public
/// key.
pub open spec fn derived_session_keys(
    sk: Seq<u8>,
    pk: Seq<u8>,
    first_id: Seq<u8>,
    second_id: Seq<u8>,
    challenge_data: Seq<u8>,
) -> (Seq<u8>, Seq<u8>) {
    session_key_pair(ecdh_secret(pk, sk), first_id, second_id, challenge_data)
}

// ---------------------------------------------------------------------------
// Trusted wrappers around the outside primitives
// ---------------------------------------------------------------------------

/// Relies on `ctr::Ctr64BE<aes::Aes128>`: applying the keystream to zeroes
/// yields the keystream itself, a function of key and nonce alone, the same
/// whatever length is drawn.
#[verifier::external_body]
pub(crate) fn aes_ctr_keystream(key: &Vec<u8>, iv: &Vec<u8>, n: usize) -> (r: Vec<u8>)
    requires
        key@.len() == 16,
        iv@.len() == 16,
    ensures
        r@.len() == n,
        forall|i: int| 0 <= i < n ==> r@[i] == keystream_byte(key@, iv@, i),
{
    let mut buf = vec![0u8; n];
    let mut cipher = <ctr::Ctr64BE<aes::Aes128> as KeyIvInit>::new_from_slices(
        key.as_slice(),
        iv.as_slice(),
    ).expect("lengths checked");
    cipher.apply_keystream(&mut buf);
    buf
}

/// Relies on `k256::SecretKey::from_slice`: 32 bytes are accepted exactly when
/// they are a nonzero scalar in the range of the curve order.
#[verifier::external_body]
fn secp256k1_secret_valid(b: &Vec<u8>) -> (r: bool)
    requires
        b@.len() == 32,
    ensures
        r == valid_secret_key(b@),
{
    k256::SecretKey::from_slice(b.as_slice()).is_ok()
}

/// Relies on `hkdf::Hkdf::<Sha256>::expand`: it fills the output from a stream
/// that depends on salt, input keying material and info alone, and fails
/// exactly when more than 255 hash blocks are requested.
#[verifier::external_body]
fn hkdf_sha256_expand(salt: &Vec<u8>, ikm: &Vec<u8>, info: &Vec<u8>, n: usize) -> (r: Result<
    Vec<u8>,
    Error,
>)
    ensures
        r is Ok <==> n <= 8160,
        r matches Ok(okm) ==> okm@.len() == n && forall|i: int|
            0 <= i < n ==> okm@[i] == hkdf_byte(salt@, ikm@, info@, i),
{
    let hk = hkdf::Hkdf::<sha2::Sha256>::new(Some(salt.as_slice()), ikm.as_slice());
    let mut okm = vec![0u8; n];
    match hk.expand(info.as_slice(), &mut okm) {
        Ok(()) => Ok(okm),
        Err(_) => Err(Error::KeyDerivationFailed),
    }
}

/// Relies on `aes_gcm::Aes128Gcm::encrypt`: the ciphertext is the plaintext's
/// length plus a 16-byte tag, it is a function of key, nonce, plaintext and
/// associated data alone, decrypting it with the same inputs gives the
/// plaintext back, and encryption fails exactly when the plaintext or the
/// associated data exceeds the cipher's documented bounds.
#[verifier::external_body]
fn aes_gcm_encrypt(key: &Vec<u8>, nonce: &Vec<u8>, msg: &Vec<u8>, aad: &Vec<u8>) -> (r: Result<
    Vec<u8>,
    Error,
>)
    requires
        key@.len() == 16,
        nonce@.len() == 12,
    ensures
        r is Ok <==> (msg@.len() <= 0x10_0000_0000 && aad@.len() <= 0x10_0000_0000),
        r matches Err(e) ==> e == Error::MessageTooLong,
        r matches Ok(ct) ==> ct@ == gcm_ciphertext(key@, nonce@, msg@, aad@),
        r matches Ok(ct) ==> ct@.len() == msg@.len() + 16,
        r matches Ok(ct) ==> gcm_plaintext(key@, nonce@, ct@, aad@) == Some(msg@),
{
    let aead = <aes_gcm::Aes128Gcm as KeyInit>::new_from_slice(key.as_slice())
        .expect("length checked");
    let payload = Payload { msg: msg.as_slice(), aad: aad.as_slice() };
    aead.encrypt(aes_gcm::Nonce::from_slice(nonce.as_slice()), payload)
        .map_err(|_| Error::MessageTooLong)
}

/// Relies on `aes_gcm::Aes128Gcm::decrypt`: it returns the plaintext exactly
/// when the authentication tag verifies and the input is within the cipher's
/// bounds, and fails otherwise. The 16-byte tag is split off before the
/// cipher checks the remaining body against its documented maximum, so the
/// whole input may be sixteen bytes longer than that maximum.
#[verifier::external_body]
fn aes_gcm_decrypt(key: &Vec<u8>, nonce: &Vec<u8>, ct: &Vec<u8>, aad: &Vec<u8>) -> (r: Result<
    Vec<u8>,
    Error,
>)
    requires
        key@.len() == 16,
        nonce@.len() == 12,
        ct@.len() >= 16,
    ensures
        r is Ok <==> (gcm_plaintext(key@, nonce@, ct@, aad@) is Some && ct@.len()
            <= 0x10_0000_0020 && aad@.len() <= 0x10_0000_0000),
        r matches Err(e) ==> e == Error::AuthenticationFailed,
        r matches Ok(pt) ==> Some(pt@) == gcm_plaintext(key@, nonce@, ct@, aad@),
        r matches Ok(pt) ==> ct@ == gcm_ciphertext(key@, nonce@, pt@, aad@),
{
    let aead = <aes_gcm::Aes128Gcm as KeyInit>::new_from_slice(key.as_slice())
        .expect("length checked");
    let payload = Payload { msg: ct.as_slice(), aad: aad.as_slice() };
    aead.decrypt(aes_gcm::Nonce::from_slice(nonce.as_slice()), payload)
        .map_err(|_| Error::AuthenticationFailed)
}

/// Relies on `rand::random`: nothing is promised of the drawn value. The
/// thread-local generator aborts the process rather than returning if the
/// operating system's entropy source is unavailable — an environment
/// failure of the same class as running out of memory.
pub assume_specification<T>[ rand::random::<T> ]() -> (r: T)
    where
        rand::distributions::Standard: rand::distributions::Distribution<T>,
;

/// Draws `n` fresh random bytes.
pub(crate) fn random_bytes(n: usize) -> (r: Vec<u8>)
    ensures
        r@.len() == n,
{
    let mut r: Vec<u8> = Vec::new();
    let mut i: usize = 0;
    while i < n
        invariant
            i <= n,
            r@.len() == i,
        decreases n - i,
    {
        let b: u8 = rand::random();
        r.push(b);
        i = i + 1;
    }
    r
}

/// Draws 16 fresh random bytes.
pub(crate) fn random_bytes16() -> (r: Vec<u8>)
    ensures
        r@.len() == 16,
{
    let a: [u8; 16] = rand::random();
    let mut r: Vec<u8> = Vec::new();
    let mut i: usize = 0;
    while i < 16
        invariant
            i <= 16,
            r@.len() == i,
        decreases 16 - i,
    {
        r.push(a[i]);
        i = i + 1;
    }
    r
}

/// Draws 8 fresh random bytes.
pub(crate) fn random_bytes8() -> (r: Vec<u8>)
    ensures
        r@.len() == 8,
{
    let a: [u8; 8] = rand::random();
    let mut r: Vec<u8> = Vec::new();
    let mut i: usize = 0;
    while i < 8
        invariant
            i <= 8,
            r@.len() == i,
        decreases 8 - i,
    {
        r.push(a[i]);
        i = i + 1;
    }
    r
}

// ---------------------------------------------------------------------------
// Local keys
// ---------------------------------------------------------------------------

/// A validated 32-byte secret scalar for the discovery curve.
pub struct SecretKey {
    pub(crate) bytes: Vec<u8>,
}

impl View for SecretKey {
    type V = Seq<u8>;

    closed spec fn view(&self) -> Seq<u8> {
        self.bytes@
    }
}

impl SecretKey {
    #[verifier::type_invariant]
    spec fn wf(self) -> bool {
        self.bytes@.len() == 32 && valid_secret_key(self.bytes@)
    }

    /// Accepts exactly the byte strings that form a valid secret scalar.
    pub fn from_bytes(b: &Vec<u8>) -> (r: Option<SecretKey>)
        ensures
            r is Some <==> (b@.len() == 32 && valid_secret_key(b@)),
            r matches Some(k) ==> k@ == b@,
    {
        if b.len() != 32 {
            return None;
        }
        if secp256k1_secret_valid(b) {
            Some(SecretKey { bytes: b.clone() })
        } else {
            None
        }
    }

    /// Relies on `k256::SecretKey::public_key` and the SEC1 point encoding:
    /// the compressed encoding of a real point is a tag byte of 2 or 3 and
    /// the 32-byte x-coordinate, and it decodes back to that point, so the
    /// result is itself a valid public key.
    #[verifier::external_body]
    pub fn public_key(&self) -> (r: Vec<u8>)
        ensures
            r@ == public_key_of(self@),
            valid_public_key(r@),
            r@.len() == 33 && (r@[0] == 0x02 || r@[0] == 0x03),
    {
        k256::SecretKey::from_slice(self.bytes.as_slice())
            .expect("validated at construction")
            .public_key()
            .to_encoded_point(true)
            .as_bytes()
            .to_vec()
    }
}

/// The local identity key: the discovery curve's key type, or another key
/// type that the mock cannot derive sessions for.
pub enum LocalKey {
    Secp256k1(SecretKey),
    Ed25519,
}

// ---------------------------------------------------------------------------
// Key derivation
// ---------------------------------------------------------------------------

/// Builds the HKDF info bytes: the domain-separation label and both ids.
fn build_kdf_info(first_id: &Vec<u8>, second_id: &Vec<u8>) -> (r: Vec<u8>)
    ensures
        r@ == kdf_info(first_id@, second_id@),
{
    let mut info: Vec<u8> = Vec::new();
    info.push(0x64u8);
    info.push(0x69u8);
    info.push(0x73u8);
    info.push(0x63u8);
    info.push(0x6fu8);
    info.push(0x76u8);
    info.push(0x65u8);
    info.push(0x72u8);
    info.push(0x79u8);
    info.push(0x20u8);
    info.push(0x76u8);
    info.push(0x35u8);
    info.push(0x20u8);
    info.push(0x6bu8);
    info.push(0x65u8);
    info.push(0x79u8);
    info.push(0x20u8);
    info.push(0x61u8);
    info.push(0x67u8);
    info.push(0x72u8);
    info.push(0x65u8);
    info.push(0x65u8);
    info.push(0x6du8);
    info.push(0x65u8);
    info.push(0x6eu8);
    info.push(0x74u8);
    proof {
        assert(info@ =~= key_agreement_label());
    }
    info.extend_from_slice(first_id.as_slice());
    info.extend_from_slice(second_id.as_slice());
    proof {
        assert(info@ =~= kdf_info(first_id@, second_id@));
    }
    info
}

/// Expands a shared secret into the two 16-byte session keys, using the
/// challenge data as salt and the label plus both ids as info.
fn derive_key(
    secret: &Vec<u8>,
    first_id: &Vec<u8>,
    second_id: &Vec<u8>,
    challenge_data: &Vec<u8>,
) -> (r: Result<(Vec<u8>, Vec<u8>), Error>)
    ensures
        r is Ok,
        r matches Ok(keys) ==> {
            let pair = session_key_pair(secret@, first_id@, second_id@, challenge_data@);
            keys.0@ == pair.0 && keys.1@ == pair.1
        },
{
    let info = build_kdf_info(first_id, second_id);
    let okm = match hkdf_sha256_expand(challenge_data, secret, &info, 32) {
        Ok(okm) => okm,
        Err(_) => {
            return Err(Error::KeyDerivationFailed);
        },
    };
    let initiator_key = crate::bytes::subvec(&okm, 0, 16);
    let recipient_key = crate::bytes::subvec(&okm, 16, 32);
    proof {
        let pair = session_key_pair(secret@, first_id@, second_id@, challenge_data@);
        assert(initiator_key@ =~= pair.0);
        assert(recipient_key@ =~= pair.1);
    }
    Ok((initiator_key, recipient_key))
}

/// Derives the session keys for a public key type that matches the local
/// keypair.
///
/// The result is the pair `(initiator key, recipient key)` expanded from the
/// Diffie-Hellman secret of the local static key and the remote ephemeral
/// public key, with the ids ordered remote first. The final clause is the
/// key-agreement symmetry: whenever the remote public key belongs to some
/// secret scalar, the same pair would be derived from that scalar and the
/// local public key.
pub fn derive_keys_from_pubkey(
    local_key: &LocalKey,
    local_id: &Vec<u8>,
    remote_id: &Vec<u8>,
    challenge_data: &Vec<u8>,
    ephem_pubkey: &Vec<u8>,
) -> (r: Result<(Vec<u8>, Vec<u8>), Error>)
    ensures
        local_key is Ed25519 ==> r == Result::<(Vec<u8>, Vec<u8>), Error>::Err(
            Error::UnsupportedKeyType,
        ),
        local_key matches LocalKey::Secp256k1(sk) ==> {
            &&& r is Ok <==> valid_public_key(ephem_pubkey@)
            &&& !valid_public_key(ephem_pubkey@) ==> r == Result::<(Vec<u8>, Vec<u8>), Error>::Err(
                Error::InvalidRemotePublicKey,
            )
            &&& r matches Ok(keys) ==> {
                let pair = derived_session_keys(
                    sk@,
                    ephem_pubkey@,
                    remote_id@,
                    local_id@,
                    challenge_data@,
                );
                keys.0@ == pair.0 && keys.1@ == pair.1
            }
            &&& r matches Ok(keys) ==> forall|other: Seq<u8>|
                ephem_pubkey@ == public_key_of(other) ==> {
                    let pair = derived_session_keys(
                        other,
                        public_key_of(sk@),
                        remote_id@,
                        local_id@,
                        challenge_data@,
                    );
                    keys.0@ == pair.0 && keys.1@ == pair.1
                }
        },
{
    let secret = match local_key {
        LocalKey::Secp256k1(key) => {
            match crate::ecdh::ecdh(ephem_pubkey, key) {
                Ok(secret) => secret,
                Err(e) => {
                    return Err(e);
                },
            }
        },
        LocalKey::Ed25519 => {
            return Err(Error::UnsupportedKeyType);
        },
    };
    derive_key(&secret, remote_id, local_id, challenge_data)
}

// ---------------------------------------------------------------------------
// Authenticated encryption
// ---------------------------------------------------------------------------

/// Encrypts a message with AES-128-GCM.
///
/// On success the result is the ciphertext of exactly these inputs, and
/// decrypting it with the same key, nonce and associated data gives the
/// message back.
pub fn encrypt_message(
    key: &Vec<u8>,
    message_nonce: &Vec<u8>,
    msg: &Vec<u8>,
    aad: &Vec<u8>,
) -> (r: Result<Vec<u8>, Error>)
    requires
        key@.len() == 16,
        message_nonce@.len() == 12,
    ensures
        r is Ok <==> (msg@.len() <= 0x10_0000_0000 && aad@.len() <= 0x10_0000_0000),
        r matches Err(e) ==> e == Error::MessageTooLong,
        r matches Ok(ct) ==> ct@ == gcm_ciphertext(key@, message_nonce@, msg@, aad@),
        r matches Ok(ct) ==> ct@.len() == msg@.len() + 16,
        r matches Ok(ct) ==> gcm_plaintext(key@, message_nonce@, ct@, aad@) == Some(msg@),
{
    aes_gcm_encrypt(key, message_nonce, msg, aad)
}

/// Decrypts a message with AES-128-GCM.
///
/// Succeeds exactly when the input is long enough to hold the tag, is within
/// the cipher's bounds, and the tag verifies; it never panics on
/// attacker-controlled input.
pub fn decrypt_message(
    key: &Vec<u8>,
    message_nonce: &Vec<u8>,
    msg: &Vec<u8>,
    aad: &Vec<u8>,
) -> (r: Result<Vec<u8>, Error>)
    requires
        key@.len() == 16,
        message_nonce@.len() == 12,
    ensures
        r is Ok <==> (msg@.len() >= 16 && msg@.len() <= 0x10_0000_0020 && aad@.len()
            <= 0x10_0000_0000 && gcm_plaintext(key@, message_nonce@, msg@, aad@) is Some),
        r matches Err(e) ==> e == Error::AuthenticationFailed,
        r matches Ok(pt) ==> Some(pt@) == gcm_plaintext(key@, message_nonce@, msg@, aad@),
        r matches Ok(pt) ==> msg@ == gcm_ciphertext(key@, message_nonce@, pt@, aad@),
{
    if msg.len() < 16 {
        return Err(Error::AuthenticationFailed);
    }
    aes_gcm_decrypt(key, message_nonce, msg, aad)
}

} // verus!
