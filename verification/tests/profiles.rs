//! Tests of threshold secret sharing and the profile lifecycle.

use liberty_crypto::keys::{CryptoError, IdentityKeyPair};
use liberty_crypto::profile::{
    encode, ProfileManager, ProfileRecovery, ProfileStatus, SecretShare,
};

#[test]
fn test_create_profile() {
    let identity = IdentityKeyPair::generate().unwrap();
    let (profile, master) = ProfileManager::create_profile("user123", &identity).unwrap();

    assert_eq!(profile.user_id, "user123");
    assert_eq!(profile.status, ProfileStatus::Active);
    assert_eq!(master.recovery_shares.len(), 5);
    assert!(profile.created_at > 0);
}

#[test]
fn test_deactivate_reactivate() {
    let identity = IdentityKeyPair::generate().unwrap();
    let (mut profile, _) = ProfileManager::create_profile("user123", &identity).unwrap();

    ProfileManager::deactivate_profile(&mut profile).unwrap();
    assert_eq!(profile.status, ProfileStatus::Deactivated);

    ProfileManager::reactivate_profile(&mut profile).unwrap();
    assert_eq!(profile.status, ProfileStatus::Active);
}

#[test]
fn test_reactivate_requires_deactivated() {
    let identity = IdentityKeyPair::generate().unwrap();
    let (mut profile, _) = ProfileManager::create_profile("user123", &identity).unwrap();
    assert!(matches!(
        ProfileManager::reactivate_profile(&mut profile).unwrap_err(),
        CryptoError::KeyGeneration(_)
    ));
    assert_eq!(profile.status, ProfileStatus::Active);
}

#[test]
fn test_delete_not_allowed() {
    let result = ProfileManager::delete_profile("user123");
    assert!(result.is_err());
    let err = result.unwrap_err().message();
    assert!(err.contains("NOT allowed"));
    assert!(err.contains("permanent"));
}

#[test]
fn test_shamir_split_recover() {
    let mut secret = [0u8; 32];
    secret[..28].copy_from_slice(b"my super secret key 12345678");

    let shares = ProfileRecovery::split_secret(&secret, 5, 3).unwrap();
    assert_eq!(shares.len(), 5);

    let recovered = ProfileRecovery::recover_secret(&shares[0..3]).unwrap();
    assert_eq!(recovered, secret.to_vec());
}

#[test]
fn test_shamir_three_of_five() {
    let secret: Vec<u8> = (0u8..32).collect();

    let shares = ProfileRecovery::split_secret(&secret, 5, 3).unwrap();
    assert_eq!(shares.len(), 5);

    let pick = |idx: &[usize]| -> Vec<SecretShare> {
        idx.iter()
            .map(|&i| SecretShare { id: shares[i].id, data: shares[i].data.clone() })
            .collect()
    };

    for idx in [[0usize, 1, 2], [1, 3, 4], [0, 2, 4], [2, 3, 4]] {
        let quorum = pick(&idx);
        assert_eq!(ProfileRecovery::recover_secret(&quorum).unwrap(), secret);
    }

    // Two shares are not enough: the interpolation misses the secret.
    let two = pick(&[0, 1]);
    assert_ne!(ProfileRecovery::recover_secret(&two).unwrap(), secret);
}

#[test]
fn test_shamir_parameter_errors() {
    let secret = [7u8; 32];
    assert!(matches!(
        ProfileRecovery::split_secret(&secret, 2, 3).unwrap_err(),
        CryptoError::KeyGeneration(_)
    ));
    assert!(matches!(
        ProfileRecovery::split_secret(&secret, 5, 1).unwrap_err(),
        CryptoError::KeyGeneration(_)
    ));
    assert!(matches!(
        ProfileRecovery::split_secret(&secret, 300, 3).unwrap_err(),
        CryptoError::KeyGeneration(_)
    ));
}

#[test]
fn test_recover_rejects_bad_shares() {
    assert!(ProfileRecovery::recover_secret(&[]).is_err());

    let secret = [9u8; 32];
    let shares = ProfileRecovery::split_secret(&secret, 3, 2).unwrap();
    let dup = vec![
        SecretShare { id: shares[0].id, data: shares[0].data.clone() },
        SecretShare { id: shares[0].id, data: shares[0].data.clone() },
    ];
    assert!(matches!(
        ProfileRecovery::recover_secret(&dup).unwrap_err(),
        CryptoError::KeyGeneration(_)
    ));

    let zero_id = vec![SecretShare { id: 0, data: vec![0u8; 32] }];
    assert!(ProfileRecovery::recover_secret(&zero_id).is_err());

    let short = vec![SecretShare { id: 1, data: vec![0u8; 5] }];
    assert!(ProfileRecovery::recover_secret(&short).is_err());
}

#[test]
fn test_refresh_shares_keeps_secret() {
    let secret: Vec<u8> = (100u8..132).collect();
    let shares = ProfileRecovery::split_secret(&secret, 5, 3).unwrap();
    let refreshed = ProfileRecovery::refresh_shares(&shares).unwrap();
    assert_eq!(refreshed.len(), 5);
    // The new shares still recover the same secret.
    assert_eq!(ProfileRecovery::recover_secret(&refreshed[1..4]).unwrap(), secret);
    // Proactive refresh: the share data changed.
    assert_ne!(refreshed[0].data, shares[0].data);
}

#[test]
fn test_recover_profile_binds_hash() {
    let identity = IdentityKeyPair::generate().unwrap();
    let (profile, master) = ProfileManager::create_profile("user123", &identity).unwrap();

    let recovered = ProfileManager::recover_profile("user123", &master.recovery_shares).unwrap();
    assert_eq!(recovered.key, master.key);
    assert_eq!(recovered.recovery_hash, master.recovery_hash);
    assert_eq!(profile.recovery_hash, encode(&recovered.recovery_hash));

    // A different user id gives a different recovery hash.
    let other = ProfileManager::recover_profile("user456", &master.recovery_shares).unwrap();
    assert_ne!(other.recovery_hash, master.recovery_hash);

    // Too few shares are rejected.
    assert!(matches!(
        ProfileManager::recover_profile("user123", &master.recovery_shares[0..2]).unwrap_err(),
        CryptoError::KeyGeneration(_)
    ));
}

#[test]
fn test_update_last_seen_touches_nothing_else() {
    let identity = IdentityKeyPair::generate().unwrap();
    let (mut profile, _) = ProfileManager::create_profile("user123", &identity).unwrap();
    let created = profile.created_at;
    ProfileManager::update_last_seen(&mut profile);
    assert_eq!(profile.created_at, created);
    assert_eq!(profile.status, ProfileStatus::Active);
    assert_eq!(profile.user_id, "user123");
}

#[test]
fn test_master_key_wipe() {
    let identity = IdentityKeyPair::generate().unwrap();
    let (_, mut master) = ProfileManager::create_profile("user123", &identity).unwrap();
    master.wipe();
    assert!(master.key.iter().all(|&b| b == 0));
    assert_eq!(master.key.len(), 32);
}

#[test]
fn test_share_wire_roundtrip() {
    let secret = [3u8; 32];
    let shares = ProfileRecovery::split_secret(&secret, 3, 2).unwrap();
    let wire = shares[1].to_bytes();
    assert_eq!(wire.len(), 33);
    let parsed = SecretShare::from_bytes(&wire).unwrap();
    assert_eq!(parsed.id, shares[1].id);
    assert_eq!(parsed.data, shares[1].data);
    assert!(SecretShare::from_bytes(&wire[..32]).is_err());
}
