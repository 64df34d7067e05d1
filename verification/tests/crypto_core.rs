//! Tests of key material, signatures and the utility helpers.

use liberty_crypto::keys::{CryptoError, IdentityKeyPair};
use liberty_crypto::utils::{
    base64_decode, base64_encode, blake3_hash, constant_time_eq, hex_decode, hex_encode,
    hkdf_expand, random_bytes, random_vec, sha3_512_hash,
};

#[test]
fn test_identity_key_generation() {
    let identity = IdentityKeyPair::generate().unwrap();
    assert_eq!(identity.pq_public.len(), 1184);
    assert_eq!(identity.pq_secret.len(), 2400);
    assert_eq!(identity.ec_public.len(), 32);
    assert_eq!(identity.ec_secret.len(), 32);
    assert_eq!(identity.identity_public.len(), 32);
    assert_eq!(identity.identity_secret.len(), 64);
}

#[test]
fn test_sign_verify() {
    let identity = IdentityKeyPair::generate().unwrap();
    let data = b"Hello, Liberty Reach!";

    let signature = identity.sign(data);
    assert!(identity.verify(data, &signature).is_ok());

    let bad_data = b"Hello, World!";
    assert!(identity.verify(bad_data, &signature).is_err());
}

#[test]
fn test_prekey_bundle() {
    let identity = IdentityKeyPair::generate().unwrap();
    let bundle = identity.create_prekey_bundle(1);

    assert_eq!(bundle.prekey_id, 1);
    assert_eq!(bundle.pq_public.len(), 1184);
    assert_eq!(bundle.ec_public.len(), 32);
    assert_eq!(bundle.signature.len(), 64);
}

#[test]
fn test_signature_error_kind() {
    let identity = IdentityKeyPair::generate().unwrap();
    let err = identity.verify(b"data", &[0u8; 16]).unwrap_err();
    assert!(matches!(err, CryptoError::Signature(_)));
    assert!(err.message().starts_with("Signature verification failed: "));
}

#[test]
fn test_public_identity_layout() {
    let identity = IdentityKeyPair::generate().unwrap();
    let id = identity.public_identity();
    assert_eq!(id.len(), 1184 + 32 + 32);
    assert_eq!(&id[0..1184], identity.pq_public.as_slice());
    assert_eq!(&id[1184..1216], identity.ec_public.as_slice());
    assert_eq!(&id[1216..1248], identity.identity_public.as_slice());
}

#[test]
fn test_identity_wipe() {
    let mut identity = IdentityKeyPair::generate().unwrap();
    identity.wipe();
    assert!(identity.pq_secret.iter().all(|&b| b == 0));
    assert!(identity.ec_secret.iter().all(|&b| b == 0));
    assert!(identity.identity_secret.iter().all(|&b| b == 0));
    assert_eq!(identity.pq_secret.len(), 2400);
}

#[test]
fn test_random_bytes() {
    let bytes1 = random_bytes::<32>();
    let bytes2 = random_bytes::<32>();
    assert_ne!(bytes1, bytes2);
}

#[test]
fn test_random_vec_len() {
    assert_eq!(random_vec(17).len(), 17);
    assert_eq!(random_vec(0).len(), 0);
}

#[test]
fn test_constant_time_eq() {
    let a = b"hello";
    let b = b"hello";
    let c = b"world";

    assert!(constant_time_eq(a, b));
    assert!(!constant_time_eq(a, c));
}

#[test]
fn test_hash_functions() {
    let data = b"test data";

    let hash1 = blake3_hash(data);
    let hash2 = blake3_hash(data);
    assert_eq!(hash1, hash2);

    let hash3 = blake3_hash(b"different data");
    assert_ne!(hash1, hash3);
}

#[test]
fn test_hash_lengths() {
    assert_eq!(blake3_hash(b"x").len(), 32);
    assert_eq!(sha3_512_hash(b"x").len(), 64);
    assert_ne!(sha3_512_hash(b"x"), sha3_512_hash(b"y"));
    // The digest is not the input handed back.
    assert_ne!(blake3_hash(b"0123456789abcdef0123456789abcdef").as_slice(), b"0123456789abcdef0123456789abcdef".as_slice());
}

#[test]
fn test_hkdf_expand_lengths() {
    let okm = hkdf_expand(b"input keying material", b"info", 76);
    assert_eq!(okm.len(), 76);
    let okm2 = hkdf_expand(b"input keying material", b"info", 76);
    assert_eq!(okm, okm2);
    let okm3 = hkdf_expand(b"input keying material", b"other", 76);
    assert_ne!(okm, okm3);
}

#[test]
fn test_base64_roundtrip() {
    let data = b"Hello, Liberty Reach!";
    let encoded = base64_encode(data);
    let decoded = base64_decode(&encoded).unwrap();
    assert_eq!(data.to_vec(), decoded);
}

#[test]
fn test_base64_known_value() {
    assert_eq!(base64_encode(b"foobar"), "Zm9vYmFy");
}

#[test]
fn test_hex_roundtrip() {
    let data = b"Hello, Liberty Reach!";
    let encoded = hex_encode(data);
    let decoded = hex_decode(&encoded).unwrap();
    assert_eq!(data.to_vec(), decoded);
}

#[test]
fn test_hex_known_values() {
    assert_eq!(hex_encode(&[0x00, 0xab, 0xff]), "00abff");
    assert_eq!(hex_decode("00ABFF").unwrap(), vec![0x00, 0xab, 0xff]);
    assert!(matches!(hex_decode("0g").unwrap_err(), CryptoError::InvalidKey(_)));
    assert!(matches!(hex_decode("abc").unwrap_err(), CryptoError::InvalidKey(_)));
}

#[test]
fn test_prekey_bundle_wire_roundtrip() {
    let identity = IdentityKeyPair::generate().unwrap();
    let bundle = identity.create_prekey_bundle(7);
    let wire = bundle.to_bytes();
    assert_eq!(wire.len(), 1284);
    let parsed = liberty_crypto::keys::PreKeyBundle::from_bytes(&wire).unwrap();
    assert_eq!(parsed.prekey_id, 7);
    assert_eq!(parsed.pq_public, bundle.pq_public);
    assert_eq!(parsed.ec_public, bundle.ec_public);
    assert_eq!(parsed.signature, bundle.signature);
    assert!(liberty_crypto::keys::PreKeyBundle::from_bytes(&wire[1..]).is_err());
}
