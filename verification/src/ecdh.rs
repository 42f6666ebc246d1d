//! The elliptic-curve Diffie-Hellman exchange of the discovery curve.
use crate::crypto::{ecdh_secret, public_key_of, valid_public_key, SecretKey};
use crate::errors::Error;
use vstd::prelude::*;

use k256::elliptic_curve::sec1::ToEncodedPoint;

verus! {

/// Computes the compressed Diffie-Hellman shared point of a remote public key
/// and the local secret scalar.
///
/// Relies on `k256`'s point decoding and scalar multiplication: decoding
/// succeeds exactly for valid SEC1 point encodings, and the product of a
/// valid point with a nonzero scalar on this prime-order curve is never the
/// identity. The result is the compressed SEC1 encoding of that point: a tag
/// byte of 2 or 3 and the 32-byte x-coordinate. The final clause is the
/// Diffie-Hellman property that `k256` documents for its key agreement: when
/// the public key belongs to some secret scalar, both sides of the exchange
/// compute the same shared point.
#[verifier::external_body]
pub fn ecdh(public_key: &Vec<u8>, secret_key: &SecretKey) -> (r: Result<Vec<u8>, Error>)
    ensures
        r is Ok <==> valid_public_key(public_key@),
        r matches Err(e) ==> e == Error::InvalidRemotePublicKey,
        r matches Ok(secret) ==> secret@ == ecdh_secret(public_key@, secret_key@),
        r matches Ok(secret) ==> secret@.len() == 33 && (secret@[0] == 0x02 || secret@[0] == 0x03),
        r matches Ok(secret) ==> forall|other: Seq<u8>|
            public_key@ == public_key_of(other) ==> secret@ == ecdh_secret(
                public_key_of(secret_key@),
                other,
            ),
{
    let pk = match k256::PublicKey::from_sec1_bytes(public_key.as_slice()) {
        Ok(pk) => pk,
        Err(_) => return Err(Error::InvalidRemotePublicKey),
    };
    let sk = k256::SecretKey::from_slice(secret_key.bytes.as_slice())
        .expect("validated at construction");
    let shared = (pk.to_projective() * sk.to_nonzero_scalar().as_ref()).to_affine();
    let encoded = k256::PublicKey::from_affine(shared)
        .expect("product with a nonzero scalar is not the identity");
    Ok(encoded.to_encoded_point(true).as_bytes().to_vec())
}

} // verus!
