//! Key management: long-term identity keys, ephemeral keys, pre-key bundles.
//!
//! An identity combines a Kyber768 keypair, an X25519 keypair and an Ed25519
//! signing keypair.  The well-formedness predicate ties each public key to
//! its secret, which is what the handshake agreement argument rests on.

use vstd::prelude::*;
use vstd::string::StringExecFns;
use crate::byteops::{clone_bytes, extend_from, slice_prefix, zero_bytes};
use crate::primitives::{
    ed25519_pub_of, ed25519_sig_of, ed25519_verifies, kyber_pub_of, x25519_pub_of,
    ed25519_public_key, ed25519_sign_bytes, ed25519_verify_bytes, kyber_keygen,
    x25519_public_key,
};

verus! {

/// Error taxonomy of the cryptographic core.  Every failure carries a short
/// diagnostic string.
#[derive(Debug)]
pub enum CryptoError {
    KeyGeneration(String),
    KeyExchange(String),
    Encryption(String),
    Decryption(String),
    Signature(String),
    InvalidKey(String),
    Random(String),
}

impl CryptoError {
    /// A readable description of the error: a fixed prefix for the kind,
    /// followed by the diagnostic string.
    pub fn message(&self) -> (r: String)
        ensures
            r@ == self.prefix_spec() + self.detail_spec(),
    {
        let (prefix, detail) = match self {
            CryptoError::KeyGeneration(d) => ("Key generation failed: ", d),
            CryptoError::KeyExchange(d) => ("Key exchange failed: ", d),
            CryptoError::Encryption(d) => ("Encryption failed: ", d),
            CryptoError::Decryption(d) => ("Decryption failed: ", d),
            CryptoError::Signature(d) => ("Signature verification failed: ", d),
            CryptoError::InvalidKey(d) => ("Invalid key format: ", d),
            CryptoError::Random(d) => ("Random number generation failed: ", d),
        };
        let mut out = prefix.to_owned();
        out.append(detail.as_str());
        out
    }

    /// The fixed prefix of each error kind's description.
    pub open spec fn prefix_spec(&self) -> Seq<char> {
        match self {
            CryptoError::KeyGeneration(_) => "Key generation failed: "@,
            CryptoError::KeyExchange(_) => "Key exchange failed: "@,
            CryptoError::Encryption(_) => "Encryption failed: "@,
            CryptoError::Decryption(_) => "Decryption failed: "@,
            CryptoError::Signature(_) => "Signature verification failed: "@,
            CryptoError::InvalidKey(_) => "Invalid key format: "@,
            CryptoError::Random(_) => "Random number generation failed: "@,
        }
    }

    /// The diagnostic string carried by the error.
    pub open spec fn detail_spec(&self) -> Seq<char> {
        match self {
            CryptoError::KeyGeneration(d) => d@,
            CryptoError::KeyExchange(d) => d@,
            CryptoError::Encryption(d) => d@,
            CryptoError::Decryption(d) => d@,
            CryptoError::Signature(d) => d@,
            CryptoError::InvalidKey(d) => d@,
            CryptoError::Random(d) => d@,
        }
    }
}

/// Long-term identity key material of one user.
///
/// `identity_secret` holds the 64-byte Ed25519 signing form: the 32-byte
/// seed followed by the 32-byte public key.
pub struct IdentityKeyPair {
    pub pq_public: Vec<u8>,
    pub pq_secret: Vec<u8>,
    pub ec_public: Vec<u8>,
    pub ec_secret: Vec<u8>,
    pub identity_public: Vec<u8>,
    pub identity_secret: Vec<u8>,
}

/// Ephemeral X25519 keys for a single handshake.
pub struct EphemeralKeys {
    pub ec_public: Vec<u8>,
    pub ec_secret: Vec<u8>,
}

/// A signed pre-key bundle: the signature covers `pq_public ++ ec_public`.
pub struct PreKeyBundle {
    pub prekey_id: u32,
    pub pq_public: Vec<u8>,
    pub ec_public: Vec<u8>,
    pub signature: Vec<u8>,
}

/// A one-time X25519 pre-key.
pub struct OneTimeKey {
    pub key_id: u32,
    pub public: Vec<u8>,
}

impl IdentityKeyPair {
    /// The Ed25519 seed recorded in the 64-byte signing form.
    pub open spec fn signing_seed(&self) -> Seq<u8> {
        self.identity_secret@.take(32)
    }

    /// Well-formed identity material: every key has its nominal length and
    /// every public key is the one derived from its secret.
    pub open spec fn wf(&self) -> bool {
        &&& self.pq_public@.len() == 1184
        &&& self.pq_secret@.len() == 2400
        &&& self.ec_public@.len() == 32
        &&& self.ec_secret@.len() == 32
        &&& self.identity_public@.len() == 32
        &&& self.identity_secret@.len() == 64
        &&& self.pq_public@ == kyber_pub_of(self.pq_secret@)
        &&& self.ec_public@ == x25519_pub_of(self.ec_secret@)
        &&& self.identity_public@ == ed25519_pub_of(self.signing_seed())
        &&& self.identity_secret@.skip(32) == self.identity_public@
    }

    /// Generate a fresh identity from the system RNG.  Fails with
    /// `KeyGeneration` only when the RNG fails.
    pub fn generate() -> (r: Result<Self, CryptoError>)
        ensures
            r is Ok ==> r->Ok_0.wf(),
            r is Err ==> r->Err_0 is KeyGeneration,
    {
        let pq = match kyber_keygen() {
            Some(kp) => kp,
            None => {
                return Err(CryptoError::KeyGeneration("post-quantum keypair".to_owned()));
            },
        };
        let ec_secret = crate::utils::random_vec(32);
        let ec_public = x25519_public_key(ec_secret.as_slice());
        let seed = crate::utils::random_vec(32);
        let identity_public = ed25519_public_key(seed.as_slice());
        let mut identity_secret = seed;
        proof {
            assert(identity_secret@.take(32) =~= identity_secret@);
        }
        let mut k: usize = 0;
        while k < 32
            invariant
                k <= 32,
                identity_public@.len() == 32,
                identity_secret@.len() == 32 + k,
                identity_public@ == ed25519_pub_of(identity_secret@.take(32)),
                identity_secret@.skip(32) == identity_public@.take(k as int),
            decreases 32 - k,
        {
            let ghost pre = identity_secret@;
            identity_secret.push(identity_public[k]);
            proof {
                assert(identity_secret@.take(32) =~= pre.take(32));
                assert(identity_secret@.skip(32) =~= identity_public@.take(k + 1));
            }
            k += 1;
        }
        proof {
            assert(identity_public@.take(32) =~= identity_public@);
        }
        Ok(IdentityKeyPair {
            pq_public: pq.0,
            pq_secret: pq.1,
            ec_public,
            ec_secret,
            identity_public,
            identity_secret,
        })
    }

    /// Sign data with the Ed25519 identity seed.
    pub fn sign(&self, data: &[u8]) -> (r: Vec<u8>)
        requires
            self.wf(),
        ensures
            r@ == ed25519_sig_of(self.signing_seed(), data@),
            r@.len() == 64,
    {
        let seed = slice_prefix(self.identity_secret.as_slice(), 32);
        ed25519_sign_bytes(seed.as_slice(), data)
    }

    /// Verify a detached signature under this identity's Ed25519 public key.
    /// Succeeds exactly when Ed25519 verification accepts the signature; in
    /// particular a signature produced by `sign` over the same data is
    /// accepted.
    pub fn verify(&self, data: &[u8], signature: &[u8]) -> (r: Result<(), CryptoError>)
        requires
            self.identity_public@.len() == 32,
        ensures
            r is Ok <==> signature@.len() == 64 && ed25519_verifies(
                self.identity_public@,
                data@,
                signature@,
            ),
            signature@.len() == 64 && (exists|seed: Seq<u8>|
                self.identity_public@ == ed25519_pub_of(seed) && signature@
                    == #[trigger] ed25519_sig_of(seed, data@)) ==> r is Ok,
            r is Err ==> r->Err_0 is Signature,
    {
        if signature.len() != 64 {
            return Err(CryptoError::Signature("signature must be 64 bytes".to_owned()));
        }
        if ed25519_verify_bytes(self.identity_public.as_slice(), data, signature) {
            Ok(())
        } else {
            Err(CryptoError::Signature("signature does not verify".to_owned()))
        }
    }

    /// Create a pre-key bundle signed over `pq_public ++ ec_public`.
    pub fn create_prekey_bundle(&self, prekey_id: u32) -> (r: PreKeyBundle)
        requires
            self.wf(),
        ensures
            r.prekey_id == prekey_id,
            r.pq_public@ == self.pq_public@,
            r.ec_public@ == self.ec_public@,
            r.signature@ == ed25519_sig_of(self.signing_seed(), self.pq_public@ + self.ec_public@),
            r.wf(),
    {
        let mut data_to_sign: Vec<u8> = Vec::new();
        extend_from(&mut data_to_sign, self.pq_public.as_slice());
        extend_from(&mut data_to_sign, self.ec_public.as_slice());
        proof {
            assert(data_to_sign@ =~= self.pq_public@ + self.ec_public@);
        }
        let signature = self.sign(data_to_sign.as_slice());
        PreKeyBundle {
            prekey_id,
            pq_public: clone_bytes(self.pq_public.as_slice()),
            ec_public: clone_bytes(self.ec_public.as_slice()),
            signature,
        }
    }

    /// The canonical public identity bytes:
    /// `pq_public ++ ec_public ++ identity_public`.
    pub fn public_identity(&self) -> (r: Vec<u8>)
        ensures
            r@ == self.pq_public@ + self.ec_public@ + self.identity_public@,
    {
        let mut identity: Vec<u8> = Vec::new();
        extend_from(&mut identity, self.pq_public.as_slice());
        extend_from(&mut identity, self.ec_public.as_slice());
        extend_from(&mut identity, self.identity_public.as_slice());
        proof {
            assert(identity@ =~= self.pq_public@ + self.ec_public@ + self.identity_public@);
        }
        identity
    }

    /// Overwrite all secret material with zeros.
    pub fn wipe(&mut self)
        ensures
            final(self).pq_secret@ == Seq::new(old(self).pq_secret@.len(), |i: int| 0u8),
            final(self).ec_secret@ == Seq::new(old(self).ec_secret@.len(), |i: int| 0u8),
            final(self).identity_secret@ == Seq::new(
                old(self).identity_secret@.len(),
                |i: int| 0u8,
            ),
            final(self).pq_public@ == old(self).pq_public@,
            final(self).ec_public@ == old(self).ec_public@,
            final(self).identity_public@ == old(self).identity_public@,
    {
        zero_bytes(&mut self.pq_secret);
        zero_bytes(&mut self.ec_secret);
        zero_bytes(&mut self.identity_secret);
    }
}

impl EphemeralKeys {
    /// Well-formed ephemeral material.
    pub open spec fn wf(&self) -> bool {
        &&& self.ec_public@.len() == 32
        &&& self.ec_secret@.len() == 32
        &&& self.ec_public@ == x25519_pub_of(self.ec_secret@)
    }

    /// Generate fresh ephemeral X25519 keys.
    pub fn generate() -> (r: Self)
        ensures
            r.wf(),
    {
        let ec_secret = crate::utils::random_vec(32);
        let ec_public = x25519_public_key(ec_secret.as_slice());
        EphemeralKeys { ec_public, ec_secret }
    }

    /// Overwrite the secret with zeros.
    pub fn wipe(&mut self)
        ensures
            final(self).ec_secret@ == Seq::new(old(self).ec_secret@.len(), |i: int| 0u8),
            final(self).ec_public@ == old(self).ec_public@,
    {
        zero_bytes(&mut self.ec_secret);
    }
}

impl PreKeyBundle {
    /// Well-formed bundle: nominal key and signature lengths.
    pub open spec fn wf(&self) -> bool {
        &&& self.pq_public@.len() == 1184
        &&& self.ec_public@.len() == 32
        &&& self.signature@.len() == 64
    }

    /// The wire bytes of the bundle:
    /// `prekey_id (u32 LE) ++ pq_public ++ ec_public ++ signature`.
    pub open spec fn bytes(&self) -> Seq<u8> {
        vstd::bytes::spec_u32_to_le_bytes(self.prekey_id) + self.pq_public@ + self.ec_public@
            + self.signature@
    }

    /// Serialize the bundle for the wire.
    pub fn to_bytes(&self) -> (r: Vec<u8>)
        ensures
            r@ == self.bytes(),
    {
        let mut out = vstd::bytes::u32_to_le_bytes(self.prekey_id);
        extend_from(&mut out, self.pq_public.as_slice());
        extend_from(&mut out, self.ec_public.as_slice());
        extend_from(&mut out, self.signature.as_slice());
        out
    }

    /// Parse a bundle from the wire.  Fails with `InvalidKey` exactly when
    /// the input does not have the fixed wire length; parsing the bytes of
    /// a well-formed bundle gives that bundle back.
    pub fn from_bytes(data: &[u8]) -> (r: Result<Self, CryptoError>)
        ensures
            r is Ok <==> data@.len() == 1284,
            r is Ok ==> r->Ok_0.wf() && r->Ok_0.bytes() == data@,
            r is Err ==> r->Err_0 is InvalidKey,
    {
        if data.len() != 1284 {
            return Err(CryptoError::InvalidKey("a prekey bundle is 1284 bytes".to_owned()));
        }
        let id_bytes = crate::byteops::slice_range(data, 0, 4);
        let prekey_id = vstd::bytes::u32_from_le_bytes(id_bytes.as_slice());
        let bundle = PreKeyBundle {
            prekey_id,
            pq_public: crate::byteops::slice_range(data, 4, 1188),
            ec_public: crate::byteops::slice_range(data, 1188, 1220),
            signature: crate::byteops::slice_range(data, 1220, 1284),
        };
        proof {
            vstd::bytes::lemma_auto_spec_u32_to_from_le_bytes();
            assert(bundle.bytes() =~= data@);
        }
        Ok(bundle)
    }
}

} // verus!
