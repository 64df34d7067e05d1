//! Tests of the handshake, the AEAD codec and the Double Ratchet.

use liberty_crypto::keys::{CryptoError, EphemeralKeys, IdentityKeyPair};
use liberty_crypto::ratchet::DoubleRatchet;
use liberty_crypto::session::{decrypt_message, encrypt_message, SessionKeys, X3DH};

fn handshake() -> (SessionKeys, SessionKeys) {
    let alice_identity = IdentityKeyPair::generate().unwrap();
    let alice_ephemeral = EphemeralKeys::generate();
    let bob_identity = IdentityKeyPair::generate().unwrap();
    let bob_bundle = bob_identity.create_prekey_bundle(1);

    let (alice_session, kem_ct) = X3DH::initiate(
        &alice_identity,
        &alice_ephemeral,
        &bob_bundle,
        &bob_identity.identity_public,
    )
    .unwrap();
    let bob_session = X3DH::respond(
        &bob_identity,
        &alice_identity.ec_public,
        &alice_ephemeral.ec_public,
        &kem_ct,
    )
    .unwrap();
    (alice_session, bob_session)
}

#[test]
fn test_x3dh_key_exchange() {
    let (alice_session, bob_session) = handshake();
    assert_eq!(alice_session.encryption_key.len(), 32);
    assert_eq!(bob_session.encryption_key.len(), 32);
}

#[test]
fn test_handshake_agreement() {
    let (alice_session, bob_session) = handshake();
    assert_eq!(alice_session.encryption_key, bob_session.encryption_key);
    assert_eq!(alice_session.mac_key, bob_session.mac_key);
    assert_eq!(alice_session.nonce, bob_session.nonce);
    assert_eq!(alice_session.send_chain_key, bob_session.receive_chain_key);
    assert_eq!(alice_session.receive_chain_key, bob_session.send_chain_key);
}

#[test]
fn test_handshake_rejects_bad_bundle_signature() {
    let alice_identity = IdentityKeyPair::generate().unwrap();
    let alice_ephemeral = EphemeralKeys::generate();
    let bob_identity = IdentityKeyPair::generate().unwrap();
    let mut bundle = bob_identity.create_prekey_bundle(1);
    bundle.signature[0] ^= 1;
    let r = X3DH::initiate(
        &alice_identity,
        &alice_ephemeral,
        &bundle,
        &bob_identity.identity_public,
    );
    assert!(matches!(r.unwrap_err(), CryptoError::InvalidKey(_)));
}

#[test]
fn test_respond_rejects_short_ciphertext() {
    let bob_identity = IdentityKeyPair::generate().unwrap();
    let r = X3DH::respond(&bob_identity, &[0u8; 32], &[0u8; 32], &[0u8; 7]);
    assert!(matches!(r.unwrap_err(), CryptoError::InvalidKey(_)));
}

#[test]
fn test_message_encryption() {
    let identity = IdentityKeyPair::generate().unwrap();
    let ephemeral = EphemeralKeys::generate();
    let bundle = identity.create_prekey_bundle(1);

    let (session, _) = X3DH::initiate(&identity, &ephemeral, &bundle, &identity.identity_public)
        .unwrap();

    let plaintext = b"Hello, Liberty Reach!";
    let nonce = session.nonce.clone();

    let ciphertext = encrypt_message(&session, plaintext, &nonce).unwrap();
    let decrypted = decrypt_message(&session, &ciphertext, &nonce).unwrap();

    assert_eq!(plaintext.to_vec(), decrypted);
    assert_ne!(plaintext.to_vec(), ciphertext);
}

#[test]
fn test_tamper_detection() {
    let (session, _) = handshake();
    let nonce = session.nonce.clone();
    let ciphertext = encrypt_message(&session, b"attack at dawn", &nonce).unwrap();

    // Flip one bit of the ciphertext body.
    let mut tampered = ciphertext.clone();
    tampered[0] ^= 0x01;
    assert!(matches!(
        decrypt_message(&session, &tampered, &nonce).unwrap_err(),
        CryptoError::Decryption(_)
    ));

    // Flip one bit of the tag.
    let mut tampered_tag = ciphertext.clone();
    let last = tampered_tag.len() - 1;
    tampered_tag[last] ^= 0x80;
    assert!(matches!(
        decrypt_message(&session, &tampered_tag, &nonce).unwrap_err(),
        CryptoError::Decryption(_)
    ));
}

#[test]
fn test_double_ratchet() {
    let (alice_session, bob_session) = handshake();

    let mut alice_ratchet = DoubleRatchet::new(&alice_session);
    let mut _bob_ratchet = DoubleRatchet::new(&bob_session);

    let plaintext = b"Hello Bob!";
    let (ciphertext, _header) = alice_ratchet.encrypt(plaintext).unwrap();

    assert!(!ciphertext.is_empty());
    assert_ne!(ciphertext, plaintext.as_slice());
}

#[test]
fn test_ordered_messaging() {
    let (alice_session, bob_session) = handshake();
    let mut alice = DoubleRatchet::new(&alice_session);
    let mut bob = DoubleRatchet::new(&bob_session);

    let (c1, h1) = alice.encrypt(b"m1").unwrap();
    let (c2, h2) = alice.encrypt(b"m2").unwrap();
    let (c3, h3) = alice.encrypt(b"m3").unwrap();

    assert_eq!(bob.decrypt(&c1, &h1).unwrap(), b"m1".to_vec());
    assert_eq!(bob.decrypt(&c2, &h2).unwrap(), b"m2".to_vec());
    assert_eq!(bob.decrypt(&c3, &h3).unwrap(), b"m3".to_vec());
    assert_eq!(bob.receive_count(), 3);
    assert_eq!(bob.skipped_count(), 0);
}

#[test]
fn test_reordered_messaging() {
    let (alice_session, bob_session) = handshake();
    let mut alice = DoubleRatchet::new(&alice_session);
    let mut bob = DoubleRatchet::new(&bob_session);

    let (c1, h1) = alice.encrypt(b"m1").unwrap();
    let (c2, h2) = alice.encrypt(b"m2").unwrap();
    let (c3, h3) = alice.encrypt(b"m3").unwrap();

    assert_eq!(bob.decrypt(&c3, &h3).unwrap(), b"m3".to_vec());
    assert_eq!(bob.skipped_count(), 2);
    assert_eq!(bob.decrypt(&c1, &h1).unwrap(), b"m1".to_vec());
    assert_eq!(bob.decrypt(&c2, &h2).unwrap(), b"m2".to_vec());
    assert_eq!(bob.skipped_count(), 0);
}

#[test]
fn test_message_consumed_only_once() {
    let (alice_session, bob_session) = handshake();
    let mut alice = DoubleRatchet::new(&alice_session);
    let mut bob = DoubleRatchet::new(&bob_session);

    let (c1, h1) = alice.encrypt(b"m1").unwrap();
    assert_eq!(bob.decrypt(&c1, &h1).unwrap(), b"m1".to_vec());
    // Replaying the same ciphertext fails: its key was consumed.
    assert!(matches!(
        bob.decrypt(&c1, &h1).unwrap_err(),
        CryptoError::Decryption(_)
    ));
}

#[test]
fn test_ratchet_tamper_leaves_state_unchanged() {
    let (alice_session, bob_session) = handshake();
    let mut alice = DoubleRatchet::new(&alice_session);
    let mut bob = DoubleRatchet::new(&bob_session);

    let (c1, h1) = alice.encrypt(b"m1").unwrap();
    let mut tampered = c1.clone();
    tampered[0] ^= 1;
    assert!(bob.decrypt(&tampered, &h1).is_err());
    assert_eq!(bob.receive_count(), 0);
    assert_eq!(bob.skipped_count(), 0);
    // The untampered message still decrypts.
    assert_eq!(bob.decrypt(&c1, &h1).unwrap(), b"m1".to_vec());
}

#[test]
fn test_wiped_ratchet_cannot_send() {
    let (alice_session, _) = handshake();
    let mut alice = DoubleRatchet::new(&alice_session);
    alice.wipe();
    assert!(matches!(
        alice.encrypt(b"m").unwrap_err(),
        CryptoError::KeyExchange(_)
    ));
}

#[test]
fn test_dh_ratchet_restarts_counters() {
    let (alice_session, _) = handshake();
    let mut alice = DoubleRatchet::new(&alice_session);
    alice.encrypt(b"m1").unwrap();
    assert_eq!(alice.send_count(), 1);

    let pair = EphemeralKeys::generate();
    alice.with_ratchet_keys((pair.ec_public.clone(), pair.ec_secret.clone())).unwrap();
    let remote = EphemeralKeys::generate();
    alice.dh_ratchet(remote.ec_public.clone()).unwrap();
    assert_eq!(alice.send_count(), 0);
    assert_eq!(alice.receive_count(), 0);
}

#[test]
fn test_dh_ratchet_needs_local_keypair() {
    let (alice_session, _) = handshake();
    let mut alice = DoubleRatchet::new(&alice_session);
    let remote = EphemeralKeys::generate();
    assert!(matches!(
        alice.dh_ratchet(remote.ec_public.clone()).unwrap_err(),
        CryptoError::KeyExchange(_)
    ));
}

#[test]
fn test_session_keys_wipe() {
    let (mut session, _) = handshake();
    session.wipe();
    assert!(session.encryption_key.iter().all(|&b| b == 0));
    assert!(session.send_chain_key.iter().all(|&b| b == 0));
    assert!(session.receive_chain_key.iter().all(|&b| b == 0));
}
