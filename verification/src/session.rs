//! Session key derivation: hybrid X3DH handshake and the AES-256-GCM codec.
//!
//! The initiator encapsulates to the responder's Kyber768 public key and
//! mixes the shared secret with two X25519 exchanges; HKDF-SHA3-512 expands
//! the mixed keying material into the session keys.  The responder runs the
//! symmetric computation from the KEM ciphertext and swaps the chain keys.

use vstd::prelude::*;
use crate::byteops::{clone_bytes, extend_from, slice_range, zero_bytes};
use crate::keys::{CryptoError, EphemeralKeys, IdentityKeyPair, PreKeyBundle};
use crate::primitives::{
    aes_gcm_seal_of, aes256_gcm_decrypt, aes256_gcm_encrypt, ed25519_pub_of, ed25519_sig_of,
    ed25519_verifies, ed25519_verify_bytes, hkdf_sha3_512_of, kyber_decap_of, kyber_decapsulate,
    kyber_encapsulate, kyber_pub_of, x25519_diffie_hellman, x25519_pub_of, x25519_shared_of,
};

verus! {

/// Session keys derived from one HKDF expansion of the handshake keying
/// material.
#[derive(Debug)]
pub struct SessionKeys {
    pub encryption_key: Vec<u8>,
    pub mac_key: Vec<u8>,
    pub nonce: Vec<u8>,
    pub send_chain_key: Vec<u8>,
    pub receive_chain_key: Vec<u8>,
}

impl SessionKeys {
    /// Nominal lengths of every field.
    pub open spec fn wf(&self) -> bool {
        &&& self.encryption_key@.len() == 32
        &&& self.mac_key@.len() == 32
        &&& self.nonce@.len() == 12
        &&& self.send_chain_key@.len() == 32
        &&& self.receive_chain_key@.len() == 32
    }

    /// The fields partition a 140-byte HKDF output; a responder swaps the
    /// two chain keys.
    pub open spec fn matches_okm(&self, okm: Seq<u8>, swapped: bool) -> bool {
        &&& self.encryption_key@ == okm.subrange(0, 32)
        &&& self.mac_key@ == okm.subrange(32, 64)
        &&& self.nonce@ == okm.subrange(64, 76)
        &&& self.send_chain_key@ == (if swapped {
            okm.subrange(108, 140)
        } else {
            okm.subrange(76, 108)
        })
        &&& self.receive_chain_key@ == (if swapped {
            okm.subrange(76, 108)
        } else {
            okm.subrange(108, 140)
        })
    }

    /// Overwrite every key with zeros.
    pub fn wipe(&mut self)
        ensures
            final(self).encryption_key@ == Seq::new(old(self).encryption_key@.len(), |i: int| 0u8),
            final(self).mac_key@ == Seq::new(old(self).mac_key@.len(), |i: int| 0u8),
            final(self).nonce@ == Seq::new(old(self).nonce@.len(), |i: int| 0u8),
            final(self).send_chain_key@ == Seq::new(old(self).send_chain_key@.len(), |i: int| 0u8),
            final(self).receive_chain_key@ == Seq::new(
                old(self).receive_chain_key@.len(),
                |i: int| 0u8,
            ),
    {
        zero_bytes(&mut self.encryption_key);
        zero_bytes(&mut self.mac_key);
        zero_bytes(&mut self.nonce);
        zero_bytes(&mut self.send_chain_key);
        zero_bytes(&mut self.receive_chain_key);
    }
}

/// The HKDF info label of the handshake: the bytes of
/// "LibertyReach-v1-Session-Key".
pub open spec fn session_info_bytes() -> Seq<u8> {
    seq![
        76u8, 105u8, 98u8, 101u8, 114u8, 116u8, 121u8, 82u8, 101u8, 97u8, 99u8, 104u8, 45u8,
        118u8, 49u8, 45u8, 83u8, 101u8, 115u8, 115u8, 105u8, 111u8, 110u8, 45u8, 75u8, 101u8,
        121u8,
    ]
}

/// The HKDF info label of the handshake ("LibertyReach-v1-Session-Key").
fn session_info() -> (v: Vec<u8>)
    ensures
        v@ == session_info_bytes(),
{
    let v: Vec<u8> = vec![
        76u8, 105u8, 98u8, 101u8, 114u8, 116u8, 121u8, 82u8, 101u8, 97u8, 99u8, 104u8, 45u8,
        118u8, 49u8, 45u8, 83u8, 101u8, 115u8, 115u8, 105u8, 111u8, 110u8, 45u8, 75u8, 101u8,
        121u8,
    ];
    proof {
        assert(v@ =~= session_info_bytes());
    }
    v
}

/// The 140-byte session key block derived from handshake keying material.
pub open spec fn session_okm_of(ikm: Seq<u8>) -> Seq<u8> {
    hkdf_sha3_512_of(ikm, session_info_bytes(), 140)
}

/// The handshake keying material, written from the responder's side:
/// the KEM decapsulation followed by the two X25519 exchanges against the
/// initiator's identity and ephemeral public keys.
pub open spec fn handshake_ikm(
    pq_secret: Seq<u8>,
    ec_secret: Seq<u8>,
    kem_ct: Seq<u8>,
    initiator_id_pub: Seq<u8>,
    initiator_eph_pub: Seq<u8>,
) -> Seq<u8> {
    kyber_decap_of(pq_secret, kem_ct) + x25519_shared_of(ec_secret, initiator_id_pub)
        + x25519_shared_of(ec_secret, initiator_eph_pub)
}

/// What a successful `initiate` promises: for every responder secret that
/// matches the bundle's public keys, the initiator's keys equal the ones the
/// responder derives from the KEM ciphertext and the initiator's public
/// keys.
pub open spec fn initiator_agrees(
    keys: SessionKeys,
    kem_ct: Seq<u8>,
    bundle_pq_pub: Seq<u8>,
    bundle_ec_pub: Seq<u8>,
    initiator_id_pub: Seq<u8>,
    initiator_eph_pub: Seq<u8>,
) -> bool {
    forall|pq_s: Seq<u8>, ec_s: Seq<u8>|
        bundle_pq_pub == #[trigger] kyber_pub_of(pq_s) && bundle_ec_pub == #[trigger] x25519_pub_of(
            ec_s,
        ) ==> keys.matches_okm(
            session_okm_of(handshake_ikm(pq_s, ec_s, kem_ct, initiator_id_pub, initiator_eph_pub)),
            false,
        )
}

/// Partition a 140-byte key block into session keys.
fn partition_okm(okm: &Vec<u8>, swapped: bool) -> (r: SessionKeys)
    requires
        okm@.len() == 140,
    ensures
        r.wf(),
        r.matches_okm(okm@, swapped),
{
    let encryption_key = slice_range(okm.as_slice(), 0, 32);
    let mac_key = slice_range(okm.as_slice(), 32, 64);
    let nonce = slice_range(okm.as_slice(), 64, 76);
    let first_chain = slice_range(okm.as_slice(), 76, 108);
    let second_chain = slice_range(okm.as_slice(), 108, 140);
    if swapped {
        SessionKeys {
            encryption_key,
            mac_key,
            nonce,
            send_chain_key: second_chain,
            receive_chain_key: first_chain,
        }
    } else {
        SessionKeys {
            encryption_key,
            mac_key,
            nonce,
            send_chain_key: first_chain,
            receive_chain_key: second_chain,
        }
    }
}

/// Hybrid X3DH key exchange.
pub struct X3DH;

impl X3DH {
    /// Initiator side: verify the bundle signature, encapsulate to the
    /// responder's Kyber768 key, run the two X25519 exchanges and expand the
    /// session keys.  Returns the keys and the KEM ciphertext to transmit.
    ///
    /// The bundle is rejected as `InvalidKey` exactly when Ed25519
    /// verification refuses its signature; in particular an honestly signed
    /// bundle is never rejected.  The only other failure is a KEM failure,
    /// reported as `KeyExchange`.
    pub fn initiate(
        local_identity: &IdentityKeyPair,
        local_ephemeral: &EphemeralKeys,
        remote_bundle: &PreKeyBundle,
        remote_identity_public: &[u8],
    ) -> (r: Result<(SessionKeys, Vec<u8>), CryptoError>)
        requires
            local_identity.wf(),
            local_ephemeral.wf(),
            remote_bundle.wf(),
            remote_identity_public@.len() == 32,
        ensures
            r is Ok ==> r->Ok_0.0.wf() && r->Ok_0.1@.len() == 1088 && initiator_agrees(
                r->Ok_0.0,
                r->Ok_0.1@,
                remote_bundle.pq_public@,
                remote_bundle.ec_public@,
                x25519_pub_of(local_identity.ec_secret@),
                x25519_pub_of(local_ephemeral.ec_secret@),
            ),
            r is Err && r->Err_0 is InvalidKey <==> !ed25519_verifies(
                remote_identity_public@,
                remote_bundle.pq_public@ + remote_bundle.ec_public@,
                remote_bundle.signature@,
            ),
            (exists|seed: Seq<u8>|
                remote_identity_public@ == ed25519_pub_of(seed) && remote_bundle.signature@
                    == #[trigger] ed25519_sig_of(
                    seed,
                    remote_bundle.pq_public@ + remote_bundle.ec_public@,
                )) ==> !(r is Err && r->Err_0 is InvalidKey),
            r is Err ==> r->Err_0 is InvalidKey || r->Err_0 is KeyExchange,
    {
        let mut signed: Vec<u8> = Vec::new();
        extend_from(&mut signed, remote_bundle.pq_public.as_slice());
        extend_from(&mut signed, remote_bundle.ec_public.as_slice());
        proof {
            assert(signed@ =~= remote_bundle.pq_public@ + remote_bundle.ec_public@);
        }
        if !ed25519_verify_bytes(
            remote_identity_public,
            signed.as_slice(),
            remote_bundle.signature.as_slice(),
        ) {
            return Err(
                CryptoError::InvalidKey("prekey bundle signature does not verify".to_owned()),
            );
        }
        let (kem_ct, pq_shared) = match kyber_encapsulate(remote_bundle.pq_public.as_slice()) {
            Some(p) => p,
            None => {
                return Err(CryptoError::KeyExchange("KEM encapsulation failed".to_owned()));
            },
        };
        let dh2 = x25519_diffie_hellman(
            local_identity.ec_secret.as_slice(),
            remote_bundle.ec_public.as_slice(),
        );
        let dh3 = x25519_diffie_hellman(
            local_ephemeral.ec_secret.as_slice(),
            remote_bundle.ec_public.as_slice(),
        );
        let mut ikm = clone_bytes(pq_shared.as_slice());
        extend_from(&mut ikm, dh2.as_slice());
        extend_from(&mut ikm, dh3.as_slice());
        let info = session_info();
        let okm = crate::utils::hkdf_expand(ikm.as_slice(), info.as_slice(), 140);
        let keys = partition_okm(&okm, false);
        proof {
            assert forall|pq_s: Seq<u8>, ec_s: Seq<u8>|
                remote_bundle.pq_public@ == #[trigger] kyber_pub_of(pq_s)
                    && remote_bundle.ec_public@ == #[trigger] x25519_pub_of(ec_s) implies
                keys.matches_okm(
                    session_okm_of(
                        handshake_ikm(
                            pq_s,
                            ec_s,
                            kem_ct@,
                            x25519_pub_of(local_identity.ec_secret@),
                            x25519_pub_of(local_ephemeral.ec_secret@),
                        ),
                    ),
                    false,
                ) by {
                assert(pq_shared@ == kyber_decap_of(pq_s, kem_ct@));
                assert(dh2@ == x25519_shared_of(ec_s, x25519_pub_of(local_identity.ec_secret@)));
                assert(dh3@ == x25519_shared_of(ec_s, x25519_pub_of(local_ephemeral.ec_secret@)));
                assert(ikm@ =~= handshake_ikm(
                    pq_s,
                    ec_s,
                    kem_ct@,
                    x25519_pub_of(local_identity.ec_secret@),
                    x25519_pub_of(local_ephemeral.ec_secret@),
                ));
            }
        }
        Ok((keys, kem_ct))
    }

    /// Responder side: decapsulate the KEM ciphertext, run the symmetric
    /// X25519 exchanges and expand the session keys with the chain keys
    /// swapped.  Fails with `InvalidKey` exactly when the ciphertext does
    /// not have the Kyber768 length.
    pub fn respond(
        local_identity: &IdentityKeyPair,
        remote_identity_ec_public: &[u8],
        remote_ephemeral_public: &[u8],
        kem_ciphertext: &[u8],
    ) -> (r: Result<SessionKeys, CryptoError>)
        requires
            local_identity.wf(),
            remote_identity_ec_public@.len() == 32,
            remote_ephemeral_public@.len() == 32,
        ensures
            r is Ok <==> kem_ciphertext@.len() == 1088,
            r is Ok ==> r->Ok_0.wf() && r->Ok_0.matches_okm(
                session_okm_of(
                    handshake_ikm(
                        local_identity.pq_secret@,
                        local_identity.ec_secret@,
                        kem_ciphertext@,
                        remote_identity_ec_public@,
                        remote_ephemeral_public@,
                    ),
                ),
                true,
            ),
            r is Err ==> r->Err_0 is InvalidKey,
    {
        if kem_ciphertext.len() != 1088 {
            return Err(CryptoError::InvalidKey("KEM ciphertext must be 1088 bytes".to_owned()));
        }
        let pq_shared = kyber_decapsulate(kem_ciphertext, local_identity.pq_secret.as_slice());
        let dh2 = x25519_diffie_hellman(
            local_identity.ec_secret.as_slice(),
            remote_identity_ec_public,
        );
        let dh3 = x25519_diffie_hellman(local_identity.ec_secret.as_slice(), remote_ephemeral_public);
        let mut ikm = clone_bytes(pq_shared.as_slice());
        extend_from(&mut ikm, dh2.as_slice());
        extend_from(&mut ikm, dh3.as_slice());
        proof {
            assert(ikm@ =~= handshake_ikm(
                local_identity.pq_secret@,
                local_identity.ec_secret@,
                kem_ciphertext@,
                remote_identity_ec_public@,
                remote_ephemeral_public@,
            ));
        }
        let info = session_info();
        let okm = crate::utils::hkdf_expand(ikm.as_slice(), info.as_slice(), 140);
        Ok(partition_okm(&okm, true))
    }
}

/// Handshake agreement: when the initiator's promise holds of a bundle
/// published by a well-formed responder identity, and the responder derives
/// its keys from the transmitted KEM ciphertext and the initiator's public
/// keys, the two parties hold identical key material, with the chain keys
/// crossed.
pub proof fn lemma_handshake_agreement(
    initiator_keys: SessionKeys,
    kem_ct: Seq<u8>,
    responder: IdentityKeyPair,
    responder_keys: SessionKeys,
    initiator_id_ec_pub: Seq<u8>,
    initiator_eph_pub: Seq<u8>,
)
    requires
        responder.wf(),
        initiator_agrees(
            initiator_keys,
            kem_ct,
            responder.pq_public@,
            responder.ec_public@,
            initiator_id_ec_pub,
            initiator_eph_pub,
        ),
        responder_keys.matches_okm(
            session_okm_of(
                handshake_ikm(
                    responder.pq_secret@,
                    responder.ec_secret@,
                    kem_ct,
                    initiator_id_ec_pub,
                    initiator_eph_pub,
                ),
            ),
            true,
        ),
    ensures
        initiator_keys.encryption_key@ == responder_keys.encryption_key@,
        initiator_keys.mac_key@ == responder_keys.mac_key@,
        initiator_keys.nonce@ == responder_keys.nonce@,
        initiator_keys.send_chain_key@ == responder_keys.receive_chain_key@,
        initiator_keys.receive_chain_key@ == responder_keys.send_chain_key@,
{
    assert(responder.pq_public@ == kyber_pub_of(responder.pq_secret@));
    assert(responder.ec_public@ == x25519_pub_of(responder.ec_secret@));
}

/// Seal a message under the session's AEAD key with the given nonce and no
/// associated data.  Fails with `Encryption` exactly when the plaintext is
/// over the supported length.
pub fn encrypt_message(keys: &SessionKeys, plaintext: &[u8], nonce: &[u8]) -> (r: Result<
    Vec<u8>,
    CryptoError,
>)
    requires
        keys.wf(),
        nonce@.len() == 12,
    ensures
        r is Ok <==> plaintext@.len() <= 0x1000_0000,
        r is Ok ==> r->Ok_0@ == aes_gcm_seal_of(
            keys.encryption_key@,
            nonce@,
            Seq::<u8>::empty(),
            plaintext@,
        ),
        r is Ok ==> r->Ok_0@.len() == plaintext@.len() + 16,
        r is Err ==> r->Err_0 is Encryption,
{
    if plaintext.len() > 0x1000_0000 {
        return Err(CryptoError::Encryption("plaintext too long".to_owned()));
    }
    let empty: Vec<u8> = Vec::new();
    match aes256_gcm_encrypt(keys.encryption_key.as_slice(), nonce, empty.as_slice(), plaintext) {
        Some(ct) => Ok(ct),
        // Unreachable: the wrapper promises success within the length bound.
        None => Err(CryptoError::Encryption("sealing failed".to_owned())),
    }
}

/// Open a sealed message.  Succeeds exactly on the sealings of the session
/// key and nonce, and returns the sealed plaintext; everything else fails
/// with `Decryption`.
pub fn decrypt_message(keys: &SessionKeys, ciphertext: &[u8], nonce: &[u8]) -> (r: Result<
    Vec<u8>,
    CryptoError,
>)
    requires
        keys.wf(),
        nonce@.len() == 12,
    ensures
        r is Ok ==> ciphertext@ == aes_gcm_seal_of(
            keys.encryption_key@,
            nonce@,
            Seq::<u8>::empty(),
            r->Ok_0@,
        ),
        forall|p: Seq<u8>|
            ciphertext@ == #[trigger] aes_gcm_seal_of(
                keys.encryption_key@,
                nonce@,
                Seq::<u8>::empty(),
                p,
            ) && p.len() <= 0x1000_0000 ==> r is Ok && r->Ok_0@ == p,
        r is Err ==> r->Err_0 is Decryption,
{
    let empty: Vec<u8> = Vec::new();
    match aes256_gcm_decrypt(keys.encryption_key.as_slice(), nonce, empty.as_slice(), ciphertext) {
        Some(pt) => Ok(pt),
        None => Err(CryptoError::Decryption("authentication failed".to_owned())),
    }
}

} // verus!
