//! Cryptographic core of the Liberty Reach messenger.
//!
//! The library provides hybrid identity key material (Kyber768 + X25519 +
//! Ed25519), an X3DH-style handshake with a post-quantum component, a Double
//! Ratchet with a skipped-key cache, AES-256-GCM message sealing, permanent
//! profiles recoverable through threshold secret sharing over GF(2^8), and an
//! LSB steganography codec.

pub mod primitives;
pub mod byteops;
pub mod keys;
pub mod utils;
pub mod steganography;
pub mod gf256;
pub mod profile;
pub mod session;
pub mod ratchet;
