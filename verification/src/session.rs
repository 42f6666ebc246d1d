//! The per-peer secure channel: the two derived keys and the outbound
//! message counter.
use crate::bytes::{be32, be32_encode, subvec};
use crate::crypto::{
    decrypt_message, derive_keys_from_pubkey, derived_session_keys, encrypt_message,
    gcm_ciphertext, gcm_plaintext, random_bytes16, random_bytes8, valid_public_key, LocalKey,
};
use crate::errors::Error;
use crate::handler::Challenge;
use crate::wire::{packet_aad, packet_wf, Packet, PacketHeader, PacketKind};
use vstd::prelude::*;
use zeroize::Zeroize;

verus! {

/// The two symmetric keys of a session, owned exclusively by it.
pub struct Keys {
    encryption_key: Vec<u8>,
    decryption_key: Vec<u8>,
}

/// The spec-level image of the key pair.
pub struct KeysV {
    pub encryption_key: Seq<u8>,
    pub decryption_key: Seq<u8>,
}

impl View for Keys {
    type V = KeysV;

    closed spec fn view(&self) -> KeysV {
        KeysV { encryption_key: self.encryption_key@, decryption_key: self.decryption_key@ }
    }
}

impl Keys {
    #[verifier::type_invariant]
    spec fn inv(self) -> bool {
        self.encryption_key@.len() == 16 && self.decryption_key@.len() == 16
    }

    /// Accepts exactly a pair of 16-byte keys.
    pub fn new(encryption_key: Vec<u8>, decryption_key: Vec<u8>) -> (r: Option<Keys>)
        ensures
            r is Some <==> (encryption_key@.len() == 16 && decryption_key@.len() == 16),
            r matches Some(k) ==> k@ == (KeysV {
                encryption_key: encryption_key@,
                decryption_key: decryption_key@,
            }),
    {
        if encryption_key.len() == 16 && decryption_key.len() == 16 {
            Some(Keys { encryption_key, decryption_key })
        } else {
            None
        }
    }
}

impl Drop for Keys {
    /// Relies on `zeroize::Zeroize` for byte vectors: the key material is
    /// overwritten in place before the memory is released, so dropped
    /// sessions leave no key bytes behind.
    #[verifier::external_body]
    fn drop(&mut self)
        opens_invariants none
        no_unwind
    {
        self.encryption_key.zeroize();
        self.decryption_key.zeroize();
    }
}

/// An established secure channel to one peer.
pub struct Session {
    keys: Keys,
    counter: u32,
}

/// The spec-level image of a session.
pub struct SessionV {
    pub keys: KeysV,
    pub counter: u32,
}

impl View for Session {
    type V = SessionV;

    closed spec fn view(&self) -> SessionV {
        SessionV { keys: self.keys@, counter: self.counter }
    }
}

/// Whether a session decrypts these bytes, and to what.
pub open spec fn session_plaintext(
    s: SessionV,
    message_nonce: Seq<u8>,
    message: Seq<u8>,
    aad: Seq<u8>,
) -> Option<Seq<u8>> {
    if 16 <= message.len() <= 0x10_0000_0020 && aad.len() <= 0x10_0000_0000 {
        gcm_plaintext(s.keys.decryption_key, message_nonce, message, aad)
    } else {
        None
    }
}

/// The outcome key derivation owes for given inputs, before the remote's
/// record is checked.
pub open spec fn establish_outcome(
    local_key: LocalKey,
    ephem_pubkey: Seq<u8>,
    enr_record: Option<Seq<u8>>,
) -> Result<(), Error> {
    if local_key is Ed25519 {
        Err(Error::UnsupportedKeyType)
    } else if !valid_public_key(ephem_pubkey) {
        Err(Error::InvalidRemotePublicKey)
    } else if enr_record is None {
        Err(Error::MissingEnrRecord)
    } else {
        Ok(())
    }
}

impl Session {
    /// A session over freshly derived keys; the counter starts at zero.
    pub fn new(keys: Keys) -> (s: Session)
        ensures
            s@.keys == keys@,
            s@.counter == 0,
    {
        Session { keys, counter: 0 }
    }

    /// Wraps key derivation: on success the two derived keys are stored and
    /// the counter starts at zero. A missing remote record is a hard error.
    ///
    /// The decryption key is the initiator key and the encryption key the
    /// recipient key of the pair derived with the ids ordered remote first.
    pub fn establish_from_challenge(
        local_key: &LocalKey,
        local_id: &Vec<u8>,
        remote_id: &Vec<u8>,
        challenge: &Challenge,
        ephem_pubkey: &Vec<u8>,
        enr_record: Option<Vec<u8>>,
    ) -> (r: Result<(Session, Vec<u8>), Error>)
        requires
            local_id@.len() == 32,
            remote_id@.len() == 32,
        ensures
            r is Ok <==> establish_outcome(
                *local_key,
                ephem_pubkey@,
                match enr_record {
                    Some(e) => Some(e@),
                    None => None,
                },
            ) is Ok,
            r matches Err(e) ==> Err::<(), Error>(e) == establish_outcome(
                *local_key,
                ephem_pubkey@,
                match enr_record {
                    Some(e) => Some(e@),
                    None => None,
                },
            ),
            r matches Ok(se) ==> {
                let pair = derived_session_keys(
                    local_key->Secp256k1_0@,
                    ephem_pubkey@,
                    remote_id@,
                    local_id@,
                    challenge.data@,
                );
                &&& se.0@.counter == 0
                &&& se.0@.keys.decryption_key == pair.0
                &&& se.0@.keys.encryption_key == pair.1
                &&& enr_record matches Some(e) && se.1@ == e@
            },
    {
        let (decryption_key, encryption_key) = match derive_keys_from_pubkey(
            local_key,
            local_id,
            remote_id,
            &challenge.data,
            ephem_pubkey,
        ) {
            Ok(keys) => keys,
            Err(e) => {
                return Err(e);
            },
        };
        let record = match enr_record {
            Some(record) => record,
            None => {
                return Err(Error::MissingEnrRecord);
            },
        };
        let keys = match Keys::new(encryption_key, decryption_key) {
            Some(keys) => keys,
            None => {
                return Err(Error::KeyDerivationFailed);
            },
        };
        Ok((Session::new(keys), record))
    }

    /// Encrypts a message into a fully formed outbound packet.
    ///
    /// The counter is incremented first and never repeats; the first four
    /// nonce bytes are its big-endian encoding, the rest are fresh random
    /// bytes, and the associated data is a fresh random IV plus the
    /// re-encoded header.
    pub fn encrypt_message(&mut self, src_id: &Vec<u8>, message: &Vec<u8>) -> (r: Result<
        Packet,
        Error,
    >)
        requires
            src_id@.len() == 32,
            old(self)@.counter < 0xffff_ffffu32,
        ensures
            final(self)@.keys == old(self)@.keys,
            final(self)@.counter == old(self)@.counter + 1,
            r is Ok <==> message@.len() <= 0x10_0000_0000,
            r matches Err(e) ==> e == Error::MessageTooLong,
            r matches Ok(p) ==> encrypted_packet(
                p,
                old(self)@.keys.encryption_key,
                (old(self)@.counter + 1) as u32,
                src_id@,
                message@,
            ),
    {
        proof {
            use_type_invariant(&self.keys);
        }
        self.counter = self.counter + 1;

        let mut message_nonce: Vec<u8> = Vec::new();
        be32_encode(self.counter, &mut message_nonce);
        let random_nonce = random_bytes8();
        message_nonce.extend_from_slice(random_nonce.as_slice());

        let iv = random_bytes16();

        let src = subvec(src_id, 0, src_id.len());
        proof {
            assert(src@ =~= src_id@);
        }
        let header = PacketHeader {
            message_nonce,
            kind: PacketKind::Message { src_id: src },
        };
        let mut authenticated_data = subvec(&iv, 0, 16);
        let header_bytes = crate::wire::encode_header(&header);
        authenticated_data.extend_from_slice(header_bytes.as_slice());

        let cipher = match encrypt_message(
            &self.keys.encryption_key,
            &header.message_nonce,
            message,
            &authenticated_data,
        ) {
            Ok(cipher) => cipher,
            Err(e) => {
                return Err(e);
            },
        };

        let packet = Packet { iv, header, message: cipher };
        proof {
            assert(authenticated_data@ =~= packet_aad(packet));
            assert(packet.header.message_nonce@.take(4) =~= be32(self.counter));
        }
        Ok(packet)
    }

    /// The number of messages this session has encrypted so far.
    pub fn counter(&self) -> (r: u32)
        ensures
            r == self@.counter,
    {
        self.counter
    }

    /// Decrypts an inbound message; the counter is not touched, because
    /// inbound and outbound nonce spaces are independent.
    pub fn decrypt_message(&self, message_nonce: &Vec<u8>, message: &Vec<u8>, aad: &Vec<u8>) -> (r:
        Result<Vec<u8>, Error>)
        requires
            message_nonce@.len() == 12,
        ensures
            r is Ok <==> session_plaintext(self@, message_nonce@, message@, aad@) is Some,
            r matches Err(e) ==> e == Error::AuthenticationFailed,
            r matches Ok(pt) ==> Some(pt@) == session_plaintext(
                self@,
                message_nonce@,
                message@,
                aad@,
            ),
    {
        proof {
            use_type_invariant(&self.keys);
        }
        if message.len() < 16 {
            return Err(Error::AuthenticationFailed);
        }
        decrypt_message(&self.keys.decryption_key, message_nonce, message, aad)
    }
}

/// How an outbound message packet relates to the session that sealed it:
/// a message packet from `src_id` whose nonce starts with the big-endian
/// counter, whose ciphertext is the message sealed under the session key,
/// and whose associated data is its IV plus its re-encoded header.
pub open spec fn encrypted_packet(
    p: Packet,
    key: Seq<u8>,
    counter: u32,
    src_id: Seq<u8>,
    message: Seq<u8>,
) -> bool {
    &&& packet_wf(p)
    &&& p.header.kind matches PacketKind::Message { src_id: s } && s@ == src_id
    &&& p.header.message_nonce@.len() == 12
    &&& p.header.message_nonce@.take(4) == be32(counter)
    &&& p.message@ == gcm_ciphertext(key, p.header.message_nonce@, message, packet_aad(p))
    &&& gcm_plaintext(key, p.header.message_nonce@, p.message@, packet_aad(p)) == Some(message)
}

/// Counter-derived nonce prefixes never repeat: any two distinct counter
/// values, as reached by distinct calls to `encrypt_message` on one session,
/// give packets with different four-byte nonce prefixes.
pub proof fn lemma_nonce_prefixes_distinct(c0: u32, i: nat, j: nat)
    requires
        i < j,
        c0 + j <= 0xffff_ffff,
    ensures
        be32((c0 + i) as u32) != be32((c0 + j) as u32),
{
    crate::bytes::lemma_be32_injective((c0 + i) as u32, (c0 + j) as u32);
}

} // verus!
