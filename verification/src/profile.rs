//! Permanent profiles with threshold secret sharing for recovery.
//!
//! The master key is split byte-wise with Shamir's scheme over GF(2^8):
//! every byte position gets a random polynomial of degree `threshold - 1`
//! whose constant term is the secret byte, and share `i` carries the
//! evaluations at the point `i`.  Recovery interpolates at zero.

use vstd::prelude::*;
use vstd::string::StringSliceAdditionalSpecFns;
use crate::byteops::{clone_bytes, extend_from};
use crate::gf256::{gf256_lagrange_zero, gf_poly_eval, lagrange_interp_zero};
use crate::keys::{CryptoError, IdentityKeyPair};
use crate::primitives::blake3_of;
use crate::utils::hex_chars_of;

verus! {

/// One Shamir share: the evaluation point (1-based id) and the 32 evaluated
/// bytes.
#[derive(Debug)]
pub struct SecretShare {
    pub id: u8,
    pub data: Vec<u8>,
}

/// The profile master key with its recovery material.
#[derive(Debug)]
pub struct ProfileMasterKey {
    pub key: Vec<u8>,
    pub created_at: u64,
    pub recovery_hash: Vec<u8>,
    pub recovery_shares: Vec<SecretShare>,
}

/// The public part of a stored profile.
pub struct PublicKeys {
    pub pq_public: Vec<u8>,
    pub ec_public: Vec<u8>,
    pub identity_public: Vec<u8>,
}

/// Lifecycle state of a profile.  There is no deleted state.
#[derive(Clone, Copy, Debug, PartialEq, Eq, Structural)]
pub enum ProfileStatus {
    Active,
    Deactivated,
}

/// Where an encrypted backup of the profile lives.
pub struct BackupLocation {
    pub kind: String,
    pub location: String,
}

/// A stored profile; only `status` and `last_seen` ever change.
pub struct EncryptedProfile {
    pub user_id: String,
    pub public_keys: PublicKeys,
    pub encrypted_data: Vec<u8>,
    pub recovery_hash: String,
    pub created_at: u64,
    pub last_seen: u64,
    pub status: ProfileStatus,
    pub backup_locations: Vec<BackupLocation>,
}

/// Threshold secret sharing over GF(2^8).
pub struct ProfileRecovery;

/// Profile lifecycle operations.
pub struct ProfileManager;

/// The views of a sequence of byte vectors.
pub open spec fn views_of(s: Seq<Vec<u8>>) -> Seq<Seq<u8>> {
    s.map_values(|v: Vec<u8>| v@)
}

/// Column `j` of a coefficient matrix: the polynomial for byte position `j`,
/// constant term first.
pub open spec fn column(coeffs: Seq<Seq<u8>>, j: int) -> Seq<u8> {
    Seq::new(coeffs.len(), |t: int| coeffs[t][j])
}

/// The shares carry evaluations of the byte-wise polynomials given by
/// `coeffs`: `coeffs` has `threshold` rows of 32 bytes, its first row is the
/// secret, and share `i` holds `P_j(id_i)` at byte `j`.
pub open spec fn shares_match(
    coeffs: Seq<Seq<u8>>,
    secret: Seq<u8>,
    threshold: int,
    shares: Seq<SecretShare>,
) -> bool {
    &&& coeffs.len() == threshold
    &&& (forall|t: int| 0 <= t < coeffs.len() ==> (#[trigger] coeffs[t]).len() == 32)
    &&& coeffs[0] == secret
    &&& (forall|i: int, j: int|
        0 <= i < shares.len() && 0 <= j < 32 ==> (#[trigger] shares[i].data@[j]) == gf_poly_eval(
            column(coeffs, j),
            shares[i].id,
        ))
}

/// A well-formed share list produced by a split into `n` shares:
/// ids 1 through `n` in order, 32 bytes each.
pub open spec fn share_set_wf(shares: Seq<SecretShare>, n: int) -> bool {
    &&& shares.len() == n
    &&& (forall|i: int|
        0 <= i < shares.len() ==> (#[trigger] shares[i]).id == i + 1 && shares[i].data@.len()
            == 32)
}

/// What `recover_secret` accepts: at least one share, nonzero distinct ids,
/// 32 bytes of data each.
pub open spec fn valid_share_set(shares: Seq<SecretShare>) -> bool {
    &&& shares.len() >= 1
    &&& (forall|i: int|
        0 <= i < shares.len() ==> (#[trigger] shares[i]).id >= 1 && shares[i].data@.len() == 32)
    &&& (forall|i1: int, i2: int|
        0 <= i1 < i2 < shares.len() ==> (#[trigger] shares[i1].id) != (#[trigger] shares[i2].id))
}

/// The evaluation points of a share list.
pub open spec fn ids_of(shares: Seq<SecretShare>) -> Seq<u8> {
    Seq::new(shares.len(), |i: int| shares[i].id)
}

/// Byte `j` of every share, in order.
pub open spec fn data_column(shares: Seq<SecretShare>, j: int) -> Seq<u8> {
    Seq::new(shares.len(), |i: int| shares[i].data@[j])
}

/// The 32 bytes that Lagrange interpolation at zero reads out of a share
/// list.
pub open spec fn recovered_secret(shares: Seq<SecretShare>) -> Seq<u8> {
    Seq::new(32, |j: int| lagrange_interp_zero(ids_of(shares), data_column(shares, j), 0))
}

impl SecretShare {
    /// The wire bytes of a share: `id (u8) ++ data`.
    pub open spec fn bytes(&self) -> Seq<u8> {
        seq![self.id] + self.data@
    }

    /// Serialize the share for backup.
    pub fn to_bytes(&self) -> (r: Vec<u8>)
        ensures
            r@ == self.bytes(),
    {
        let mut out: Vec<u8> = Vec::new();
        out.push(self.id);
        extend_from(&mut out, self.data.as_slice());
        proof {
            assert(out@ =~= self.bytes());
        }
        out
    }

    /// Parse a share from its backup form.  Fails with `InvalidKey` exactly
    /// when the input does not carry an id and 32 data bytes; parsing the
    /// bytes of a share gives that share back.
    pub fn from_bytes(data: &[u8]) -> (r: Result<Self, CryptoError>)
        ensures
            r is Ok <==> data@.len() == 33,
            r is Ok ==> r->Ok_0.bytes() == data@ && r->Ok_0.data@.len() == 32,
            r is Err ==> r->Err_0 is InvalidKey,
    {
        if data.len() != 33 {
            return Err(CryptoError::InvalidKey("a share is 33 bytes".to_owned()));
        }
        let share = SecretShare { id: data[0], data: crate::byteops::slice_range(data, 1, 33) };
        proof {
            assert(share.bytes() =~= data@);
        }
        Ok(share)
    }
}

/// Threshold correctness: any quorum of valid shares drawn from a split of
/// `secret`, with at least as many shares as the polynomial degree demands,
/// recovers `secret` exactly.
pub proof fn lemma_threshold_recovery(
    coeffs: Seq<Seq<u8>>,
    secret: Seq<u8>,
    threshold: int,
    all_shares: Seq<SecretShare>,
    quorum: Seq<SecretShare>,
)
    requires
        shares_match(coeffs, secret, threshold, all_shares),
        secret.len() == 32,
        threshold >= 1,
        quorum.len() >= threshold,
        valid_share_set(quorum),
        forall|i: int|
            0 <= i < quorum.len() ==> exists|j: int|
                0 <= j < all_shares.len() && (#[trigger] quorum[i]).id == all_shares[j].id
                    && quorum[i].data@ == all_shares[j].data@,
    ensures
        recovered_secret(quorum) == secret,
{
    let xs = ids_of(quorum);
    assert(crate::gf256::distinct_points(xs)) by {
        assert(forall|i: int| 0 <= i < xs.len() ==> xs[i] == (#[trigger] quorum[i]).id);
    }
    assert(crate::gf256::nonzero_points(xs)) by {
        assert(forall|i: int| 0 <= i < xs.len() ==> xs[i] == (#[trigger] quorum[i]).id);
    }
    assert forall|j: int| 0 <= j < 32 implies recovered_secret(quorum)[j] == secret[j] by {
        let col = column(coeffs, j);
        assert(col.len() == threshold);
        assert forall|i: int|
            0 <= i < quorum.len() implies data_column(quorum, j)[i] == gf_poly_eval(
            col,
            xs[i],
        ) by {
            let witness = choose|jj: int|
                0 <= jj < all_shares.len() && quorum[i].id == all_shares[jj].id && quorum[i].data@
                    == all_shares[jj].data@;
            assert(all_shares[witness].data@[j] == gf_poly_eval(
                column(coeffs, j),
                all_shares[witness].id,
            ));
        }
        assert(data_column(quorum, j) =~= crate::gf256::evals_at(col, xs));
        crate::gf256::lemma_lagrange_interpolates(xs, col);
        crate::gf256::lemma_mul_units(gf_poly_eval(col.skip(1), 0));
        let c0 = col[0];
        assert(gf_poly_eval(col, 0) == c0 ^ 0);
        assert(c0 ^ 0 == c0) by (bit_vector);
        assert(col[0] == coeffs[0][j]);
    }
    assert(recovered_secret(quorum) =~= secret);
}

impl ProfileRecovery {
    /// Split a 32-byte secret into `total_shares` shares of which any
    /// `threshold` recover it.  Fails with `KeyGeneration` exactly when the
    /// parameters are outside `2 <= threshold <= total_shares <= 255`.
    pub fn split_secret(secret: &[u8], total_shares: usize, threshold: usize) -> (r: Result<
        Vec<SecretShare>,
        CryptoError,
    >)
        requires
            secret@.len() == 32,
        ensures
            r is Ok <==> 2 <= threshold <= total_shares <= 255,
            r is Ok ==> share_set_wf(r->Ok_0@, total_shares as int),
            r is Ok ==> exists|coeffs: Seq<Seq<u8>>|
                #[trigger] shares_match(coeffs, secret@, threshold as int, r->Ok_0@),
            r is Err ==> r->Err_0 is KeyGeneration,
    {
        if threshold > total_shares {
            return Err(
                CryptoError::KeyGeneration(
                    "Threshold cannot be greater than total shares".to_owned(),
                ),
            );
        }
        if threshold < 2 {
            return Err(CryptoError::KeyGeneration("Threshold must be at least 2".to_owned()));
        }
        if total_shares > 255 {
            return Err(
                CryptoError::KeyGeneration("At most 255 shares can be issued".to_owned()),
            );
        }
        let mut coeffs: Vec<Vec<u8>> = Vec::new();
        coeffs.push(clone_bytes(secret));
        let mut t: usize = 1;
        while t < threshold
            invariant
                1 <= t <= threshold,
                coeffs@.len() == t,
                coeffs@[0]@ == secret@,
                forall|u: int| 0 <= u < t ==> (#[trigger] coeffs@[u])@.len() == 32,
            decreases threshold - t,
        {
            coeffs.push(crate::utils::random_vec(32));
            t += 1;
        }
        let ghost cv = views_of(coeffs@);
        proof {
            assert(cv[0] == secret@);
        }
        let mut shares: Vec<SecretShare> = Vec::new();
        let mut i: usize = 1;
        while i <= total_shares
            invariant
                1 <= i <= total_shares + 1,
                total_shares <= 255,
                shares@.len() == i - 1,
                coeffs@.len() == threshold,
                cv == views_of(coeffs@),
                forall|u: int| 0 <= u < coeffs@.len() ==> (#[trigger] coeffs@[u])@.len() == 32,
                forall|u: int|
                    0 <= u < shares@.len() ==> (#[trigger] shares@[u]).id == u + 1
                        && shares@[u].data@.len() == 32,
                forall|u: int, j: int|
                    0 <= u < shares@.len() && 0 <= j < 32 ==> (#[trigger] shares@[u].data@[j])
                        == gf_poly_eval(column(cv, j), shares@[u].id),
            decreases total_shares + 1 - i,
        {
            let data = ProfileRecovery::evaluate_polynomial(&coeffs, i as u8);
            shares.push(SecretShare { id: i as u8, data });
            i += 1;
        }
        proof {
            assert(shares_match(cv, secret@, threshold as int, shares@));
        }
        Ok(shares)
    }

    /// Evaluate every byte-position polynomial at the point `x`.
    pub fn evaluate_polynomial(coeffs: &Vec<Vec<u8>>, x: u8) -> (r: Vec<u8>)
        requires
            forall|t: int| 0 <= t < coeffs@.len() ==> (#[trigger] coeffs@[t])@.len() == 32,
        ensures
            r@.len() == 32,
            forall|j: int|
                0 <= j < 32 ==> (#[trigger] r@[j]) == gf_poly_eval(column(views_of(coeffs@), j), x),
    {
        let k = coeffs.len();
        let mut out: Vec<u8> = Vec::new();
        let mut j: usize = 0;
        while j < 32
            invariant
                j <= 32,
                k == coeffs@.len(),
                forall|t: int| 0 <= t < coeffs@.len() ==> (#[trigger] coeffs@[t])@.len() == 32,
                out@.len() == j,
                forall|u: int|
                    0 <= u < j ==> (#[trigger] out@[u]) == gf_poly_eval(
                        column(views_of(coeffs@), u),
                        x,
                    ),
            decreases 32 - j,
        {
            let mut col: Vec<u8> = Vec::new();
            let mut t: usize = 0;
            while t < k
                invariant
                    t <= k,
                    j < 32,
                    k == coeffs@.len(),
                    forall|u: int| 0 <= u < coeffs@.len() ==> (#[trigger] coeffs@[u])@.len() == 32,
                    col@.len() == t,
                    forall|u: int| 0 <= u < t ==> (#[trigger] col@[u]) == coeffs@[u]@[j as int],
                decreases k - t,
            {
                let row = &coeffs[t];
                col.push(row[j]);
                t += 1;
            }
            proof {
                assert(col@ =~= column(views_of(coeffs@), j as int));
            }
            out.push(crate::gf256::gf256_poly_eval(&col, x));
            j += 1;
        }
        out
    }

    /// Recover the secret by Lagrange interpolation at zero.  Fails with
    /// `KeyGeneration` exactly when no share is given, a share id is zero or
    /// repeated, or a share does not carry 32 bytes.
    pub fn recover_secret(shares: &[SecretShare]) -> (r: Result<Vec<u8>, CryptoError>)
        ensures
            r is Ok <==> valid_share_set(shares@),
            r is Ok ==> r->Ok_0@ == recovered_secret(shares@),
            r is Err ==> r->Err_0 is KeyGeneration,
    {
        let n = shares.len();
        if n == 0 {
            return Err(CryptoError::KeyGeneration("No shares provided".to_owned()));
        }
        let mut i: usize = 0;
        while i < n
            invariant
                i <= n,
                n == shares@.len(),
                forall|u: int|
                    0 <= u < i ==> (#[trigger] shares@[u]).id >= 1 && shares@[u].data@.len() == 32,
                forall|i1: int, i2: int|
                    0 <= i1 < i2 < i ==> (#[trigger] shares@[i1].id) != (#[trigger] shares@[i2].id),
            decreases n - i,
        {
            if shares[i].id == 0 {
                return Err(CryptoError::KeyGeneration("Share id must be nonzero".to_owned()));
            }
            if shares[i].data.len() != 32 {
                return Err(CryptoError::KeyGeneration("Share must carry 32 bytes".to_owned()));
            }
            let mut v: usize = 0;
            while v < i
                invariant
                    v <= i < n,
                    n == shares@.len(),
                    forall|u: int| 0 <= u < v ==> (#[trigger] shares@[u].id) != shares@[i as int].id,
                decreases i - v,
            {
                if shares[v].id == shares[i].id {
                    return Err(CryptoError::KeyGeneration("Duplicate share id".to_owned()));
                }
                v += 1;
            }
            i += 1;
        }
        let mut xs: Vec<u8> = Vec::new();
        let mut u: usize = 0;
        while u < n
            invariant
                u <= n,
                n == shares@.len(),
                xs@.len() == u,
                forall|w: int| 0 <= w < u ==> (#[trigger] xs@[w]) == shares@[w].id,
            decreases n - u,
        {
            xs.push(shares[u].id);
            u += 1;
        }
        proof {
            assert(xs@ =~= ids_of(shares@));
        }
        let mut secret: Vec<u8> = Vec::new();
        let mut j: usize = 0;
        while j < 32
            invariant
                j <= 32,
                n == shares@.len(),
                xs@ == ids_of(shares@),
                valid_share_set(shares@),
                secret@.len() == j,
                forall|w: int| 0 <= w < j ==> (#[trigger] secret@[w]) == recovered_secret(shares@)[w],
            decreases 32 - j,
        {
            let mut ys: Vec<u8> = Vec::new();
            let mut w: usize = 0;
            while w < n
                invariant
                    w <= n,
                    j < 32,
                    n == shares@.len(),
                    valid_share_set(shares@),
                    ys@.len() == w,
                    forall|q: int| 0 <= q < w ==> (#[trigger] ys@[q]) == shares@[q].data@[j as int],
                decreases n - w,
            {
                let row = &shares[w];
                ys.push(row.data[j]);
                w += 1;
            }
            proof {
                assert(ys@ =~= data_column(shares@, j as int));
            }
            secret.push(gf256_lagrange_zero(&xs, &ys));
            j += 1;
        }
        proof {
            assert(secret@ =~= recovered_secret(shares@));
        }
        Ok(secret)
    }

    /// Recover the secret from the old shares, then split it again with
    /// fresh randomness into as many shares, with a majority threshold.
    pub fn refresh_shares(old_shares: &[SecretShare]) -> (r: Result<Vec<SecretShare>, CryptoError>)
        ensures
            r is Ok <==> valid_share_set(old_shares@) && 2 <= old_shares@.len() as int / 2 + 1
                && old_shares@.len() <= 255,
            r is Ok ==> share_set_wf(r->Ok_0@, old_shares@.len() as int),
            r is Ok ==> exists|coeffs: Seq<Seq<u8>>|
                #[trigger] shares_match(
                    coeffs,
                    recovered_secret(old_shares@),
                    old_shares@.len() as int / 2 + 1,
                    r->Ok_0@,
                ),
            r is Err ==> r->Err_0 is KeyGeneration,
    {
        let secret = match ProfileRecovery::recover_secret(old_shares) {
            Ok(s) => s,
            Err(e) => {
                return Err(e);
            },
        };
        ProfileRecovery::split_secret(secret.as_slice(), old_shares.len(), old_shares.len() / 2 + 1)
    }
}

/// The current unix time in seconds.
fn current_timestamp() -> u64 {
    crate::primitives::unix_now()
}

/// Hex encoding of a recovery hash, as stored inside a profile.
pub fn encode(bytes: &[u8]) -> (r: String)
    ensures
        r@ == hex_chars_of(bytes@),
{
    crate::utils::hex_encode(bytes)
}

impl ProfileManager {
    /// Create a permanent profile: a fresh master key, its BLAKE3 recovery
    /// hash bound to the user id, and a 3-of-5 share set.
    pub fn create_profile(user_id: &str, identity: &IdentityKeyPair) -> (r: Result<
        (EncryptedProfile, ProfileMasterKey),
        CryptoError,
    >)
        ensures
            r is Ok,
            r is Ok ==> ({
                let (profile, master) = r->Ok_0;
                &&& master.key@.len() == 32
                &&& master.recovery_hash@ == blake3_of(master.key@ + user_id.spec_bytes())
                &&& share_set_wf(master.recovery_shares@, 5)
                &&& (exists|coeffs: Seq<Seq<u8>>|
                    #[trigger] shares_match(coeffs, master.key@, 3, master.recovery_shares@))
                &&& profile.user_id@ == user_id@
                &&& profile.status is Active
                &&& profile.created_at == master.created_at
                &&& profile.recovery_hash@ == hex_chars_of(master.recovery_hash@)
                &&& profile.encrypted_data@.len() == 0
                &&& profile.public_keys.pq_public@ == identity.pq_public@
                &&& profile.public_keys.ec_public@ == identity.ec_public@
                &&& profile.public_keys.identity_public@ == identity.identity_public@
            }),
    {
        let master_key = crate::utils::random_vec(32);
        let mut hash_input = clone_bytes(master_key.as_slice());
        extend_from(&mut hash_input, user_id.as_bytes());
        let recovery_hash = crate::utils::blake3_hash(hash_input.as_slice());
        let shares = match ProfileRecovery::split_secret(master_key.as_slice(), 5, 3) {
            Ok(s) => s,
            Err(_) => {
                return Err(
                    CryptoError::KeyGeneration("share split cannot fail for 3 of 5".to_owned()),
                );
            },
        };
        let created_at = current_timestamp();
        let hash_hex = encode(recovery_hash.as_slice());
        let profile_master = ProfileMasterKey {
            key: master_key,
            created_at,
            recovery_hash,
            recovery_shares: shares,
        };
        let public_keys = PublicKeys {
            pq_public: clone_bytes(identity.pq_public.as_slice()),
            ec_public: clone_bytes(identity.ec_public.as_slice()),
            identity_public: clone_bytes(identity.identity_public.as_slice()),
        };
        let mut backup_locations: Vec<BackupLocation> = Vec::new();
        backup_locations.push(
            BackupLocation {
                kind: "cloudflare".to_owned(),
                location: "sofia.libertyreach.internal".to_owned(),
            },
        );
        let profile = EncryptedProfile {
            user_id: user_id.to_owned(),
            public_keys,
            encrypted_data: Vec::new(),
            recovery_hash: hash_hex,
            created_at,
            last_seen: current_timestamp(),
            status: ProfileStatus::Active,
            backup_locations,
        };
        Ok((profile, profile_master))
    }

    /// Deactivate a profile; reversible, always succeeds.
    pub fn deactivate_profile(profile: &mut EncryptedProfile) -> (r: Result<(), CryptoError>)
        ensures
            r is Ok,
            final(profile).status is Deactivated,
            final(profile).user_id == old(profile).user_id,
            final(profile).public_keys == old(profile).public_keys,
            final(profile).encrypted_data == old(profile).encrypted_data,
            final(profile).recovery_hash == old(profile).recovery_hash,
            final(profile).created_at == old(profile).created_at,
            final(profile).last_seen == old(profile).last_seen,
            final(profile).backup_locations == old(profile).backup_locations,
    {
        profile.status = ProfileStatus::Deactivated;
        Ok(())
    }

    /// Reactivate a deactivated profile; fails with `KeyGeneration` exactly
    /// when the profile is not deactivated, and then changes nothing.
    pub fn reactivate_profile(profile: &mut EncryptedProfile) -> (r: Result<(), CryptoError>)
        ensures
            r is Ok <==> old(profile).status is Deactivated,
            r is Ok ==> final(profile).status is Active,
            r is Err ==> final(profile).status == old(profile).status && final(profile).last_seen
                == old(profile).last_seen,
            r is Err ==> r->Err_0 is KeyGeneration,
            final(profile).user_id == old(profile).user_id,
            final(profile).public_keys == old(profile).public_keys,
            final(profile).encrypted_data == old(profile).encrypted_data,
            final(profile).recovery_hash == old(profile).recovery_hash,
            final(profile).created_at == old(profile).created_at,
            final(profile).backup_locations == old(profile).backup_locations,
    {
        if !matches!(profile.status, ProfileStatus::Deactivated) {
            return Err(CryptoError::KeyGeneration("Profile is not deactivated".to_owned()));
        }
        profile.status = ProfileStatus::Active;
        profile.last_seen = current_timestamp();
        Ok(())
    }

    /// Deleting a profile is never allowed: profiles are permanent.  The
    /// error always carries the same diagnostic, naming the deactivation
    /// alternative.
    pub fn delete_profile(user_id: &str) -> (r: Result<(), CryptoError>)
        ensures
            r is Err,
            r->Err_0 is KeyGeneration,
            r->Err_0.detail_spec()
                == "Profile deletion is NOT allowed. Profiles are permanent in Liberty Reach. Use deactivate_profile() instead."@,
    {
        Err(
            CryptoError::KeyGeneration(
                "Profile deletion is NOT allowed. Profiles are permanent in Liberty Reach. Use deactivate_profile() instead.".to_owned(),
            ),
        )
    }

    /// Recover the master key from at least three shares and bind its
    /// recovery hash to the user id.
    pub fn recover_profile(user_id: &str, shares: &[SecretShare]) -> (r: Result<
        ProfileMasterKey,
        CryptoError,
    >)
        ensures
            r is Ok <==> shares@.len() >= 3 && valid_share_set(shares@),
            r is Ok ==> ({
                let master = r->Ok_0;
                &&& master.key@ == recovered_secret(shares@)
                &&& master.recovery_hash@ == blake3_of(master.key@ + user_id.spec_bytes())
                &&& master.recovery_shares@.len() == shares@.len()
                &&& (forall|i: int|
                    0 <= i < shares@.len() ==> (#[trigger] master.recovery_shares@[i]).id
                        == shares@[i].id && master.recovery_shares@[i].data@ == shares@[i].data@)
            }),
            r is Err ==> r->Err_0 is KeyGeneration,
    {
        if shares.len() < 3 {
            return Err(CryptoError::KeyGeneration("Need at least 3 shares".to_owned()));
        }
        let master_key = match ProfileRecovery::recover_secret(shares) {
            Ok(k) => k,
            Err(e) => {
                return Err(e);
            },
        };
        let mut hash_input = clone_bytes(master_key.as_slice());
        extend_from(&mut hash_input, user_id.as_bytes());
        let recovery_hash = crate::utils::blake3_hash(hash_input.as_slice());
        let mut recovery_shares: Vec<SecretShare> = Vec::new();
        let mut i: usize = 0;
        while i < shares.len()
            invariant
                i <= shares@.len(),
                recovery_shares@.len() == i,
                forall|u: int|
                    0 <= u < i ==> (#[trigger] recovery_shares@[u]).id == shares@[u].id
                        && recovery_shares@[u].data@ == shares@[u].data@,
            decreases shares@.len() - i,
        {
            let s = &shares[i];
            recovery_shares.push(SecretShare { id: s.id, data: clone_bytes(s.data.as_slice()) });
            i += 1;
        }
        Ok(
            ProfileMasterKey {
                key: master_key,
                created_at: current_timestamp(),
                recovery_hash,
                recovery_shares,
            },
        )
    }

    /// Refresh the profile's last-seen time from the clock.
    pub fn update_last_seen(profile: &mut EncryptedProfile)
        ensures
            final(profile).status == old(profile).status,
            final(profile).user_id == old(profile).user_id,
            final(profile).public_keys == old(profile).public_keys,
            final(profile).encrypted_data == old(profile).encrypted_data,
            final(profile).recovery_hash == old(profile).recovery_hash,
            final(profile).created_at == old(profile).created_at,
            final(profile).backup_locations == old(profile).backup_locations,
    {
        profile.last_seen = current_timestamp();
    }
}

impl ProfileMasterKey {
    /// Overwrite the master key bytes with zeros.
    pub fn wipe(&mut self)
        ensures
            final(self).key@ == Seq::new(old(self).key@.len(), |i: int| 0u8),
            final(self).created_at == old(self).created_at,
            final(self).recovery_hash == old(self).recovery_hash,
    {
        crate::byteops::zero_bytes(&mut self.key);
    }
}

} // verus!
