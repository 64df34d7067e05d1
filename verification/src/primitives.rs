//! Trusted bindings to the cryptographic primitives of outside crates.
//!
//! Each executable function here is an `external_body` wrapper around exactly
//! one outside call.  Deterministic results are given names (`uninterp` spec
//! functions) so that verified callers can state exact contracts; results that
//! depend on randomness or the environment are described only by what holds of
//! every outcome.

use vstd::prelude::*;
use hmac::Mac;
use sha3::Digest;
use ed25519_dalek::{Signer, Verifier};
use aes_gcm::KeyInit;
use aes_gcm::aead::{Aead, Payload};

verus! {

// ---------------------------------------------------------------------------
// Names for deterministic results of outside functions
// ---------------------------------------------------------------------------

/// The BLAKE3 hash (32 bytes) of a byte sequence.
pub uninterp spec fn blake3_of(data: Seq<u8>) -> Seq<u8>;

/// The SHA3-512 hash (64 bytes) of a byte sequence.
pub uninterp spec fn sha3_512_of(data: Seq<u8>) -> Seq<u8>;

/// The HMAC-SHA3-512 tag (64 bytes) of a message under a key.
pub uninterp spec fn hmac_sha3_512_of(key: Seq<u8>, data: Seq<u8>) -> Seq<u8>;

/// The HKDF-SHA3-512 output of length `okm_len` (extract with empty salt,
/// then expand with `info`).
pub uninterp spec fn hkdf_sha3_512_of(ikm: Seq<u8>, info: Seq<u8>, okm_len: int) -> Seq<u8>;

/// The X25519 public key derived from a 32-byte secret.
pub uninterp spec fn x25519_pub_of(secret: Seq<u8>) -> Seq<u8>;

/// The X25519 shared secret of a local secret and a remote public key.
pub uninterp spec fn x25519_shared_of(secret: Seq<u8>, remote_public: Seq<u8>) -> Seq<u8>;

/// The Ed25519 public key derived from a 32-byte seed.
pub uninterp spec fn ed25519_pub_of(seed: Seq<u8>) -> Seq<u8>;

/// The Ed25519 signature (64 bytes) of a message under a 32-byte seed.
pub uninterp spec fn ed25519_sig_of(seed: Seq<u8>, message: Seq<u8>) -> Seq<u8>;

/// Whether Ed25519 verification accepts a signature over a message under
/// a public key.
pub uninterp spec fn ed25519_verifies(public_key: Seq<u8>, message: Seq<u8>, signature: Seq<u8>) -> bool;

/// The Kyber768 public key recorded in a 2400-byte secret key.
pub uninterp spec fn kyber_pub_of(secret: Seq<u8>) -> Seq<u8>;

/// The Kyber768 decapsulation (32 bytes) of a ciphertext under a secret key.
pub uninterp spec fn kyber_decap_of(secret: Seq<u8>, ciphertext: Seq<u8>) -> Seq<u8>;

/// The AES-256-GCM sealing of a plaintext: ciphertext followed by the 16-byte
/// tag, under a 32-byte key, a 12-byte nonce and associated data.
pub uninterp spec fn aes_gcm_seal_of(key: Seq<u8>, nonce: Seq<u8>, aad: Seq<u8>, plaintext: Seq<u8>) -> Seq<u8>;

/// The standard base64 encoding of a byte sequence.
pub uninterp spec fn base64_of(data: Seq<u8>) -> Seq<char>;

// ---------------------------------------------------------------------------
// Clock
// ---------------------------------------------------------------------------

/// Relies on std::time::SystemTime::now for the wall clock (unix seconds);
/// nothing is assumed of the value.
#[verifier::external_body]
pub(crate) fn unix_now() -> u64 {
    match std::time::SystemTime::now().duration_since(std::time::SystemTime::UNIX_EPOCH) {
        Ok(d) => d.as_secs(),
        Err(_) => 0,
    }
}

// ---------------------------------------------------------------------------
// Message authentication
// ---------------------------------------------------------------------------

/// Relies on hmac::Hmac over sha3::Sha3_512: a 64-byte tag determined by key
/// and message alone; new_from_slice accepts keys of any length.
#[verifier::external_body]
pub(crate) fn hmac_sha3_512(key: &[u8], data: &[u8]) -> (r: Vec<u8>)
    ensures
        r@ == hmac_sha3_512_of(key@, data@),
        r@.len() == 64,
{
    let mut mac = <hmac::Hmac<sha3::Sha3_512> as hmac::Mac>::new_from_slice(key)
        .expect("any key length is accepted");
    mac.update(data);
    mac.finalize().into_bytes().to_vec()
}

// ---------------------------------------------------------------------------
// X25519
// ---------------------------------------------------------------------------

/// Relies on x25519_dalek::PublicKey::from(&StaticSecret): the public key is
/// determined by the secret alone.
#[verifier::external_body]
pub(crate) fn x25519_public_key(secret: &[u8]) -> (r: Vec<u8>)
    requires
        secret@.len() == 32,
    ensures
        r@ == x25519_pub_of(secret@),
        r@.len() == 32,
{
    let sec: [u8; 32] = secret.try_into().expect("length checked by the caller");
    let public = x25519_dalek::PublicKey::from(&x25519_dalek::StaticSecret::from(sec));
    public.to_bytes().to_vec()
}

/// Relies on x25519_dalek::StaticSecret::diffie_hellman: the shared secret is
/// determined by the two inputs, and the exchange commutes — both parties of
/// a Diffie-Hellman exchange compute the same bytes (RFC 7748).
#[verifier::external_body]
pub(crate) fn x25519_diffie_hellman(secret: &[u8], remote_public: &[u8]) -> (r: Vec<u8>)
    requires
        secret@.len() == 32,
        remote_public@.len() == 32,
    ensures
        r@ == x25519_shared_of(secret@, remote_public@),
        r@.len() == 32,
        forall|other: Seq<u8>|
            remote_public@ == #[trigger] x25519_pub_of(other)
                ==> r@ == x25519_shared_of(other, x25519_pub_of(secret@)),
{
    let sec: [u8; 32] = secret.try_into().expect("length checked by the caller");
    let pk: [u8; 32] = remote_public.try_into().expect("length checked by the caller");
    let shared = x25519_dalek::StaticSecret::from(sec)
        .diffie_hellman(&x25519_dalek::PublicKey::from(pk));
    shared.as_bytes().to_vec()
}

// ---------------------------------------------------------------------------
// Ed25519
// ---------------------------------------------------------------------------

/// Relies on ed25519_dalek::SigningKey::verifying_key: the public key is
/// determined by the 32-byte seed alone.
#[verifier::external_body]
pub(crate) fn ed25519_public_key(seed: &[u8]) -> (r: Vec<u8>)
    requires
        seed@.len() == 32,
    ensures
        r@ == ed25519_pub_of(seed@),
        r@.len() == 32,
{
    let s: [u8; 32] = seed.try_into().expect("length checked by the caller");
    let signing = ed25519_dalek::SigningKey::from_bytes(&s);
    signing.verifying_key().to_bytes().to_vec()
}

/// Relies on ed25519_dalek::SigningKey / Signer::sign: Ed25519 signing is
/// deterministic, so the 64-byte signature is a function of seed and message.
#[verifier::external_body]
pub(crate) fn ed25519_sign_bytes(seed: &[u8], message: &[u8]) -> (r: Vec<u8>)
    requires
        seed@.len() == 32,
    ensures
        r@ == ed25519_sig_of(seed@, message@),
        r@.len() == 64,
{
    let s: [u8; 32] = seed.try_into().expect("length checked by the caller");
    let signing = ed25519_dalek::SigningKey::from_bytes(&s);
    signing.sign(message).to_bytes().to_vec()
}

/// Relies on ed25519_dalek::VerifyingKey::verify: the outcome is a
/// deterministic function of public key, message and signature, and a
/// signature produced by the signing key of this public key over this
/// message verifies.
#[verifier::external_body]
pub(crate) fn ed25519_verify_bytes(public_key: &[u8], message: &[u8], signature: &[u8]) -> (r: bool)
    requires
        public_key@.len() == 32,
        signature@.len() == 64,
    ensures
        r == ed25519_verifies(public_key@, message@, signature@),
        (exists|seed: Seq<u8>|
            public_key@ == ed25519_pub_of(seed)
                && signature@ == #[trigger] ed25519_sig_of(seed, message@)) ==> r,
{
    let pk: [u8; 32] = public_key.try_into().expect("length checked by the caller");
    let sig: [u8; 64] = signature.try_into().expect("length checked by the caller");
    match ed25519_dalek::VerifyingKey::from_bytes(&pk) {
        Ok(vk) => vk.verify(message, &ed25519_dalek::Signature::from_bytes(&sig)).is_ok(),
        Err(_) => false,
    }
}

// ---------------------------------------------------------------------------
// Kyber768
// ---------------------------------------------------------------------------

/// Relies on pqc_kyber::keypair (Kyber768): returns a 1184-byte public key
/// and the 2400-byte secret key that records it; fails only when the system
/// RNG fails.
#[verifier::external_body]
pub(crate) fn kyber_keygen() -> (r: Option<(Vec<u8>, Vec<u8>)>)
    ensures
        r is Some ==> r->Some_0.0@.len() == 1184,
        r is Some ==> r->Some_0.1@.len() == 2400,
        r is Some ==> r->Some_0.0@ == kyber_pub_of(r->Some_0.1@),
{
    let mut rng = rand::thread_rng();
    match pqc_kyber::keypair(&mut rng) {
        Ok(kp) => Some((kp.public.to_vec(), kp.secret.to_vec())),
        Err(_) => None,
    }
}

/// Relies on pqc_kyber::encapsulate (Kyber768): produces a 1088-byte
/// ciphertext and a 32-byte shared secret; decapsulating the ciphertext with
/// the secret key of the target public key yields the same shared secret.
/// Fails only when the system RNG fails.
#[verifier::external_body]
pub(crate) fn kyber_encapsulate(public_key: &[u8]) -> (r: Option<(Vec<u8>, Vec<u8>)>)
    requires
        public_key@.len() == 1184,
    ensures
        r is Some ==> r->Some_0.0@.len() == 1088,
        r is Some ==> r->Some_0.1@.len() == 32,
        r is Some ==> forall|sec: Seq<u8>|
            public_key@ == #[trigger] kyber_pub_of(sec)
                ==> r->Some_0.1@ == kyber_decap_of(sec, r->Some_0.0@),
{
    let mut rng = rand::thread_rng();
    match pqc_kyber::encapsulate(public_key, &mut rng) {
        Ok((ct, ss)) => Some((ct.to_vec(), ss.to_vec())),
        Err(_) => None,
    }
}

/// Relies on pqc_kyber::decapsulate (Kyber768): a 32-byte shared secret
/// determined by ciphertext and secret key alone; for inputs of the correct
/// lengths the call cannot fail.
#[verifier::external_body]
pub(crate) fn kyber_decapsulate(ciphertext: &[u8], secret_key: &[u8]) -> (r: Vec<u8>)
    requires
        ciphertext@.len() == 1088,
        secret_key@.len() == 2400,
    ensures
        r@ == kyber_decap_of(secret_key@, ciphertext@),
        r@.len() == 32,
{
    match pqc_kyber::decapsulate(ciphertext, secret_key) {
        Ok(ss) => ss.to_vec(),
        // Unreachable: the call fails only on wrong input lengths.
        Err(_) => vec![0u8; 32],
    }
}

// ---------------------------------------------------------------------------
// AES-256-GCM
// ---------------------------------------------------------------------------

/// Relies on aes_gcm::Aes256Gcm (Aead::encrypt with a Payload): returns the
/// ciphertext followed by the 16-byte tag, determined by key, nonce,
/// associated data and plaintext; fails only when plaintext or associated
/// data exceed the AES-GCM length bounds (2^36 bytes).
#[verifier::external_body]
pub(crate) fn aes256_gcm_encrypt(key: &[u8], nonce: &[u8], aad: &[u8], plaintext: &[u8]) -> (r: Option<
    Vec<u8>,
>)
    requires
        key@.len() == 32,
        nonce@.len() == 12,
    ensures
        r is Some ==> r->Some_0@ == aes_gcm_seal_of(key@, nonce@, aad@, plaintext@),
        r is Some ==> r->Some_0@.len() == plaintext@.len() + 16,
        plaintext@.len() <= 0x1000_0000 && aad@.len() <= 0x1000_0000 ==> r is Some,
{
    let cipher = match aes_gcm::Aes256Gcm::new_from_slice(key) {
        Ok(c) => c,
        // Unreachable: the key length is checked by the caller.
        Err(_) => return None,
    };
    let nonce = aes_gcm::Nonce::from_slice(nonce);
    cipher.encrypt(nonce, Payload { msg: plaintext, aad }).ok()
}

/// Relies on aes_gcm::Aes256Gcm (Aead::decrypt with a Payload): succeeds
/// exactly on the sealings produced under the same key, nonce and associated
/// data (within the AES-GCM length bounds), and then returns the sealed
/// plaintext; the tag comparison is constant-time.
#[verifier::external_body]
pub(crate) fn aes256_gcm_decrypt(key: &[u8], nonce: &[u8], aad: &[u8], ciphertext: &[u8]) -> (r:
    Option<Vec<u8>>)
    requires
        key@.len() == 32,
        nonce@.len() == 12,
    ensures
        r is Some ==> ciphertext@ == aes_gcm_seal_of(key@, nonce@, aad@, r->Some_0@),
        forall|p: Seq<u8>|
            ciphertext@ == #[trigger] aes_gcm_seal_of(key@, nonce@, aad@, p) && p.len()
                <= 0x1000_0000 && aad@.len() <= 0x1000_0000 ==> r is Some && r->Some_0@ == p,
{
    let cipher = match aes_gcm::Aes256Gcm::new_from_slice(key) {
        Ok(c) => c,
        // Unreachable: the key length is checked by the caller.
        Err(_) => return None,
    };
    let nonce = aes_gcm::Nonce::from_slice(nonce);
    cipher.decrypt(nonce, Payload { msg: ciphertext, aad }).ok()
}

// ---------------------------------------------------------------------------
// Encoding helpers of std
// ---------------------------------------------------------------------------

/// Relies on String::from_utf8: ASCII bytes decode to the characters with the
/// same code points.
#[verifier::external_body]
pub(crate) fn string_from_ascii(bytes: Vec<u8>) -> (r: String)
    requires
        forall|i: int| 0 <= i < bytes@.len() ==> bytes@[i] < 128,
    ensures
        r@ == bytes@.map_values(|b: u8| b as char),
{
    match String::from_utf8(bytes) {
        Ok(s) => s,
        // Unreachable: ASCII is valid UTF-8.
        Err(_) => String::new(),
    }
}

} // verus!
