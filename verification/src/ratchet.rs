//! Double Ratchet: two symmetric chains rooted in a root key, a
//! Diffie-Hellman ratchet step on every new remote ratchet key, and a
//! bounded cache of skipped message keys for out-of-order delivery.
//!
//! Chain KDF: the message key at a position is HMAC-SHA3-512(ck, 0x01)
//! truncated to 32 bytes, the successor chain key HMAC-SHA3-512(ck, 0x02)
//! truncated.  Root KDF: HKDF-extract with the root key as salt, split into
//! the new root and a fresh chain seed.  Every message is sealed with
//! AES-256-GCM under parameters expanded from its message key, with the
//! header bytes as associated data.

use vstd::prelude::*;
use vstd::bytes::{spec_u32_to_le_bytes, u32_to_le_bytes};
use crate::byteops::{bytes_eq, clone_bytes, extend_from, slice_prefix, slice_range, zero_bytes};
use crate::keys::CryptoError;
use crate::primitives::{
    aes_gcm_seal_of, aes256_gcm_decrypt, aes256_gcm_encrypt, hkdf_sha3_512_of, hmac_sha3_512,
    hmac_sha3_512_of, x25519_diffie_hellman, x25519_pub_of, x25519_public_key, x25519_shared_of,
};
use crate::session::SessionKeys;

verus! {

// ---------------------------------------------------------------------------
// Chain and root KDF specifications
// ---------------------------------------------------------------------------

/// The message key drawn from a chain key.
pub open spec fn chain_msg_key(ck: Seq<u8>) -> Seq<u8> {
    hmac_sha3_512_of(ck, seq![1u8]).take(32)
}

/// The successor of a chain key.
pub open spec fn chain_next(ck: Seq<u8>) -> Seq<u8> {
    hmac_sha3_512_of(ck, seq![2u8]).take(32)
}

/// The chain key at position `n` of the chain seeded by `seed`.
pub open spec fn chain_at(seed: Seq<u8>, n: int) -> Seq<u8>
    decreases n,
{
    if n <= 0 {
        seed
    } else {
        chain_next(chain_at(seed, n - 1))
    }
}

/// The message key at position `n` of a chain.
pub open spec fn message_key_at(seed: Seq<u8>, n: int) -> Seq<u8> {
    chain_msg_key(chain_at(seed, n))
}

/// The HKDF info label of per-message keys: the bytes of "message-keys".
pub open spec fn message_info_bytes() -> Seq<u8> {
    seq![109u8, 101u8, 115u8, 115u8, 97u8, 103u8, 101u8, 45u8, 107u8, 101u8, 121u8, 115u8]
}

/// The 76-byte block of AEAD parameters expanded from a message key.
pub open spec fn message_okm_of(mk: Seq<u8>) -> Seq<u8> {
    hkdf_sha3_512_of(mk, message_info_bytes(), 76)
}

/// The AEAD key of a message key.
pub open spec fn message_aead_key(mk: Seq<u8>) -> Seq<u8> {
    message_okm_of(mk).subrange(0, 32)
}

/// The AEAD nonce of a message key.
pub open spec fn message_nonce(mk: Seq<u8>) -> Seq<u8> {
    message_okm_of(mk).subrange(64, 76)
}

/// The sealing of a plaintext under a message key, with the header bytes as
/// associated data.
pub open spec fn message_seal(mk: Seq<u8>, aad: Seq<u8>, plaintext: Seq<u8>) -> Seq<u8> {
    aes_gcm_seal_of(message_aead_key(mk), message_nonce(mk), aad, plaintext)
}

/// The new root after mixing a Diffie-Hellman output into a root key.
pub open spec fn root_step_root(root: Seq<u8>, dh: Seq<u8>) -> Seq<u8> {
    hmac_sha3_512_of(root, dh).subrange(0, 32)
}

/// The fresh chain seed produced beside the new root.
pub open spec fn root_step_chain(root: Seq<u8>, dh: Seq<u8>) -> Seq<u8> {
    hmac_sha3_512_of(root, dh).subrange(32, 64)
}

/// The view of an optional byte vector.
pub open spec fn opt_bytes(o: Option<Vec<u8>>) -> Option<Seq<u8>> {
    match o {
        Some(v) => Some(v@),
        None => None,
    }
}

// ---------------------------------------------------------------------------
// Message header
// ---------------------------------------------------------------------------

/// The header sent with each message: the position in the sending chain,
/// the AEAD nonce, and the sender's current ratchet public key when one is
/// in use.
#[derive(Debug)]
pub struct MessageHeader {
    pub counter: u32,
    pub nonce: Vec<u8>,
    pub ratchet_public: Option<Vec<u8>>,
}

impl MessageHeader {
    /// Nominal field lengths.
    pub closed spec fn wf(&self) -> bool {
        &&& self.nonce@.len() == 12
        &&& (self.ratchet_public matches Some(p) ==> p@.len() == 32)
    }

    /// The wire bytes of the header: little-endian counter, nonce, and the
    /// ratchet public key when present.
    pub open spec fn bytes(&self) -> Seq<u8> {
        spec_u32_to_le_bytes(self.counter) + self.nonce@ + (match self.ratchet_public {
            Some(p) => p@,
            None => Seq::<u8>::empty(),
        })
    }

    /// Serialize the header; these bytes are the AEAD associated data.
    pub fn encode(&self) -> (r: Vec<u8>)
        ensures
            r@ == self.bytes(),
    {
        let mut out = u32_to_le_bytes(self.counter);
        extend_from(&mut out, self.nonce.as_slice());
        match &self.ratchet_public {
            Some(p) => {
                extend_from(&mut out, p.as_slice());
            },
            None => {
                proof {
                    assert(out@ + Seq::<u8>::empty() =~= out@);
                }
            },
        }
        out
    }
}

/// The header bytes of a well-formed header are short: at most 48 bytes.
proof fn lemma_header_bytes_len(h: &MessageHeader)
    requires
        h.wf(),
    ensures
        h.bytes().len() <= 48,
{
    vstd::bytes::lemma_auto_spec_u32_to_from_le_bytes();
}

// ---------------------------------------------------------------------------
// Skipped-key cache
// ---------------------------------------------------------------------------

/// A cached message key for a position that has not been delivered yet,
/// keyed by the remote ratchet public key under which it was skipped.
pub struct SkippedEntry {
    remote: Option<Vec<u8>>,
    counter: u32,
    key: Vec<u8>,
}

/// The view of a cache entry: epoch key, position, message key.
pub closed spec fn entry_view(e: SkippedEntry) -> (Option<Seq<u8>>, u32, Seq<u8>) {
    (opt_bytes(e.remote), e.counter, e.key@)
}

/// The views of a sequence of cache entries.
pub closed spec fn entries_view(s: Seq<SkippedEntry>) -> Seq<(Option<Seq<u8>>, u32, Seq<u8>)> {
    s.map_values(|e: SkippedEntry| entry_view(e))
}

/// Whether a cache entry belongs to the given epoch and position.
pub open spec fn entry_matches(e: (Option<Seq<u8>>, u32, Seq<u8>), rp: Option<Seq<u8>>, c: u32) -> bool {
    e.0 == rp && e.1 == c
}

/// The index of the first cache entry for an epoch and position, or -1.
pub open spec fn first_skipped(
    sk: Seq<(Option<Seq<u8>>, u32, Seq<u8>)>,
    rp: Option<Seq<u8>>,
    c: u32,
) -> int
    decreases sk.len(),
{
    if sk.len() == 0 {
        -1
    } else if entry_matches(sk[0], rp, c) {
        0
    } else if first_skipped(sk.drop_first(), rp, c) < 0 {
        -1
    } else {
        1 + first_skipped(sk.drop_first(), rp, c)
    }
}

/// Characterization of `first_skipped`: it is -1 exactly when no entry
/// matches, and otherwise the least matching index.
pub proof fn lemma_first_skipped(sk: Seq<(Option<Seq<u8>>, u32, Seq<u8>)>, rp: Option<Seq<u8>>, c: u32)
    ensures
        first_skipped(sk, rp, c) < 0 ==> forall|i: int|
            0 <= i < sk.len() ==> !entry_matches(#[trigger] sk[i], rp, c),
        first_skipped(sk, rp, c) >= 0 ==> first_skipped(sk, rp, c) < sk.len() && entry_matches(
            sk[first_skipped(sk, rp, c)],
            rp,
            c,
        ) && forall|i: int| 0 <= i < first_skipped(sk, rp, c) ==> !entry_matches(#[trigger] sk[i], rp, c),
    decreases sk.len(),
{
    if sk.len() == 0 {
    } else if entry_matches(sk[0], rp, c) {
    } else {
        lemma_first_skipped(sk.drop_first(), rp, c);
        let rest = first_skipped(sk.drop_first(), rp, c);
        if rest < 0 {
            assert forall|i: int| 0 <= i < sk.len() implies !entry_matches(#[trigger] sk[i], rp, c) by {
                if i > 0 {
                    assert(sk[i] == sk.drop_first()[i - 1]);
                }
            }
        } else {
            assert(sk[1 + rest] == sk.drop_first()[rest]);
            assert forall|i: int| 0 <= i < 1 + rest implies !entry_matches(#[trigger] sk[i], rp, c) by {
                if i > 0 {
                    assert(sk[i] == sk.drop_first()[i - 1]);
                }
            }
        }
    }
}

// ---------------------------------------------------------------------------
// Double Ratchet state
// ---------------------------------------------------------------------------

/// Double Ratchet session state.
pub struct DoubleRatchet {
    root_key: Vec<u8>,
    send_chain_key: Option<Vec<u8>>,
    receive_chain_key: Option<Vec<u8>>,
    ratchet_key_pair: Option<(Vec<u8>, Vec<u8>)>,
    remote_ratchet_public: Option<Vec<u8>>,
    send_counter: u32,
    receive_counter: u32,
    skipped_keys: Vec<SkippedEntry>,
    send_seed: Ghost<Seq<u8>>,
    recv_seed: Ghost<Seq<u8>>,
}

impl DoubleRatchet {
    /// The root key.
    pub closed spec fn spec_root(&self) -> Seq<u8> {
        self.root_key@
    }

    /// The sending chain key, when a sending chain exists.
    pub closed spec fn spec_send_chain(&self) -> Option<Seq<u8>> {
        opt_bytes(self.send_chain_key)
    }

    /// The receiving chain key, when a receiving chain exists.
    pub closed spec fn spec_recv_chain(&self) -> Option<Seq<u8>> {
        opt_bytes(self.receive_chain_key)
    }

    /// The local ratchet keypair (public, secret), when one is installed.
    pub closed spec fn spec_ratchet_pair(&self) -> Option<(Seq<u8>, Seq<u8>)> {
        match self.ratchet_key_pair {
            Some(kp) => Some((kp.0@, kp.1@)),
            None => None,
        }
    }

    /// The stored remote ratchet public key.
    pub closed spec fn spec_remote(&self) -> Option<Seq<u8>> {
        opt_bytes(self.remote_ratchet_public)
    }

    /// The position of the next outgoing message in the sending chain.
    pub closed spec fn spec_send_counter(&self) -> u32 {
        self.send_counter
    }

    /// The next expected position in the receiving chain.
    pub closed spec fn spec_receive_counter(&self) -> u32 {
        self.receive_counter
    }

    /// The seed of the current sending chain.
    pub closed spec fn spec_send_seed(&self) -> Seq<u8> {
        self.send_seed@
    }

    /// The seed of the current receiving chain.
    pub closed spec fn spec_recv_seed(&self) -> Seq<u8> {
        self.recv_seed@
    }

    /// The cached skipped keys, oldest first.
    pub closed spec fn skipped_view(&self) -> Seq<(Option<Seq<u8>>, u32, Seq<u8>)> {
        entries_view(self.skipped_keys@)
    }

    /// Well-formed ratchet state: nominal lengths, chains tied to their
    /// seeds at the current counters, the cache bounded.
    pub closed spec fn wf(&self) -> bool {
        &&& self.root_key@.len() == 32
        &&& (self.send_chain_key matches Some(ck) ==> ck@.len() == 32 && ck@ == chain_at(
            self.send_seed@,
            self.send_counter as int,
        ))
        &&& (self.receive_chain_key matches Some(ck) ==> ck@.len() == 32 && ck@ == chain_at(
            self.recv_seed@,
            self.receive_counter as int,
        ))
        &&& (self.ratchet_key_pair matches Some(kp) ==> kp.0@.len() == 32 && kp.1@.len() == 32
            && kp.0@ == x25519_pub_of(kp.1@))
        &&& (self.remote_ratchet_public matches Some(p) ==> p@.len() == 32)
        &&& self.skipped_keys@.len() <= 2000
        &&& (forall|i: int|
            0 <= i < self.skipped_keys@.len() ==> (#[trigger] self.skipped_keys@[i]).key@.len()
                == 32 && (self.skipped_keys@[i].remote matches Some(p) ==> p@.len() == 32))
    }

    /// Everything observable is equal: used to state that failed calls
    /// leave the session unchanged.
    pub open spec fn same_state(&self, other: &Self) -> bool {
        &&& self.spec_root() == other.spec_root()
        &&& self.spec_send_chain() == other.spec_send_chain()
        &&& self.spec_recv_chain() == other.spec_recv_chain()
        &&& self.spec_ratchet_pair() == other.spec_ratchet_pair()
        &&& self.spec_remote() == other.spec_remote()
        &&& self.spec_send_counter() == other.spec_send_counter()
        &&& self.spec_receive_counter() == other.spec_receive_counter()
        &&& self.skipped_view() == other.skipped_view()
        &&& self.spec_send_seed() == other.spec_send_seed()
        &&& self.spec_recv_seed() == other.spec_recv_seed()
    }

    /// Create a ratchet from session keys: the sending chain is seeded by
    /// the session's send chain key, the receiving chain by its receive
    /// chain key, and the root by the send chain key.
    pub fn new(session_keys: &SessionKeys) -> (r: Self)
        requires
            session_keys.wf(),
        ensures
            r.wf(),
            r.spec_root() == session_keys.send_chain_key@,
            r.spec_send_chain() == Some(session_keys.send_chain_key@),
            r.spec_recv_chain() == Some(session_keys.receive_chain_key@),
            r.spec_send_seed() == session_keys.send_chain_key@,
            r.spec_recv_seed() == session_keys.receive_chain_key@,
            r.spec_send_counter() == 0u32,
            r.spec_receive_counter() == 0u32,
            r.spec_ratchet_pair() is None,
            r.spec_remote() is None,
            r.skipped_view() == Seq::<(Option<Seq<u8>>, u32, Seq<u8>)>::empty(),
    {
        let r = DoubleRatchet {
            root_key: clone_bytes(session_keys.send_chain_key.as_slice()),
            send_chain_key: Some(clone_bytes(session_keys.send_chain_key.as_slice())),
            receive_chain_key: Some(clone_bytes(session_keys.receive_chain_key.as_slice())),
            ratchet_key_pair: None,
            remote_ratchet_public: None,
            send_counter: 0,
            receive_counter: 0,
            skipped_keys: Vec::new(),
            send_seed: Ghost(session_keys.send_chain_key@),
            recv_seed: Ghost(session_keys.receive_chain_key@),
        };
        proof {
            assert(r.skipped_view() =~= Seq::<(Option<Seq<u8>>, u32, Seq<u8>)>::empty());
        }
        r
    }

    /// Install a local ratchet keypair.  Fails with `InvalidKey` exactly
    /// when the keys are not 32 bytes or the public key is not the one
    /// derived from the secret; then nothing changes.
    pub fn with_ratchet_keys(&mut self, key_pair: (Vec<u8>, Vec<u8>)) -> (r: Result<
        (),
        CryptoError,
    >)
        requires
            old(self).wf(),
        ensures
            final(self).wf(),
            r is Ok <==> key_pair.0@.len() == 32 && key_pair.1@.len() == 32 && key_pair.0@
                == x25519_pub_of(key_pair.1@),
            r is Ok ==> final(self).spec_ratchet_pair() == Some((key_pair.0@, key_pair.1@)),
            r is Err ==> final(self).same_state(old(self)) && r->Err_0 is InvalidKey,
            final(self).spec_root() == old(self).spec_root(),
            final(self).spec_send_chain() == old(self).spec_send_chain(),
            final(self).spec_recv_chain() == old(self).spec_recv_chain(),
            final(self).spec_remote() == old(self).spec_remote(),
            final(self).spec_send_counter() == old(self).spec_send_counter(),
            final(self).spec_receive_counter() == old(self).spec_receive_counter(),
            final(self).skipped_view() == old(self).skipped_view(),
            final(self).spec_send_seed() == old(self).spec_send_seed(),
            final(self).spec_recv_seed() == old(self).spec_recv_seed(),
    {
        if key_pair.0.len() != 32 || key_pair.1.len() != 32 {
            return Err(CryptoError::InvalidKey("ratchet keys must be 32 bytes".to_owned()));
        }
        let derived = x25519_public_key(key_pair.1.as_slice());
        if !bytes_eq(derived.as_slice(), key_pair.0.as_slice()) {
            return Err(
                CryptoError::InvalidKey("public key does not match the secret".to_owned()),
            );
        }
        self.ratchet_key_pair = Some(key_pair);
        Ok(())
    }

    /// Store the peer's ratchet public key.
    pub fn set_remote_ratchet(&mut self, remote_public: Vec<u8>)
        requires
            old(self).wf(),
            remote_public@.len() == 32,
        ensures
            final(self).wf(),
            final(self).spec_remote() == Some(remote_public@),
            final(self).spec_root() == old(self).spec_root(),
            final(self).spec_send_chain() == old(self).spec_send_chain(),
            final(self).spec_recv_chain() == old(self).spec_recv_chain(),
            final(self).spec_ratchet_pair() == old(self).spec_ratchet_pair(),
            final(self).spec_send_counter() == old(self).spec_send_counter(),
            final(self).spec_receive_counter() == old(self).spec_receive_counter(),
            final(self).skipped_view() == old(self).skipped_view(),
            final(self).spec_send_seed() == old(self).spec_send_seed(),
            final(self).spec_recv_seed() == old(self).spec_recv_seed(),
    {
        self.remote_ratchet_public = Some(remote_public);
    }

    /// The number of cached skipped keys.
    pub fn skipped_count(&self) -> (r: usize)
        ensures
            r == self.skipped_view().len(),
    {
        self.skipped_keys.len()
    }

    /// The position of the next outgoing message.
    pub fn send_count(&self) -> (r: u32)
        ensures
            r == self.spec_send_counter(),
    {
        self.send_counter
    }

    /// The next expected incoming position.
    pub fn receive_count(&self) -> (r: u32)
        ensures
            r == self.spec_receive_counter(),
    {
        self.receive_counter
    }

    /// Draw the next sending message key and advance the sending chain.
    /// Fails with `KeyExchange` when no sending chain exists, and with
    /// `Encryption` when the chain is exhausted; then nothing changes.
    pub fn next_send_key(&mut self) -> (r: Result<Vec<u8>, CryptoError>)
        requires
            old(self).wf(),
        ensures
            final(self).wf(),
            r is Ok <==> old(self).spec_send_chain() is Some && old(self).spec_send_counter()
                < u32::MAX,
            r is Ok ==> r->Ok_0@ == message_key_at(
                old(self).spec_send_seed(),
                old(self).spec_send_counter() as int,
            ) && r->Ok_0@.len() == 32,
            r is Ok ==> final(self).spec_send_counter() == old(self).spec_send_counter() + 1
                && final(self).spec_send_chain() == Some(
                chain_at(old(self).spec_send_seed(), old(self).spec_send_counter() + 1),
            ),
            final(self).spec_root() == old(self).spec_root(),
            final(self).spec_recv_chain() == old(self).spec_recv_chain(),
            final(self).spec_ratchet_pair() == old(self).spec_ratchet_pair(),
            final(self).spec_remote() == old(self).spec_remote(),
            final(self).spec_receive_counter() == old(self).spec_receive_counter(),
            final(self).skipped_view() == old(self).skipped_view(),
            final(self).spec_send_seed() == old(self).spec_send_seed(),
            final(self).spec_recv_seed() == old(self).spec_recv_seed(),
            r is Err ==> final(self).same_state(old(self)),
            r is Err ==> r->Err_0 is KeyExchange || r->Err_0 is Encryption,
            r is Err && old(self).spec_send_chain() is None ==> r->Err_0 is KeyExchange,
    {
        match &self.send_chain_key {
            None => Err(CryptoError::KeyExchange("No send chain".to_owned())),
            Some(chain_key) => {
                if self.send_counter == u32::MAX {
                    return Err(CryptoError::Encryption("sending chain exhausted".to_owned()));
                }
                let message_key = chain_message_key(chain_key);
                let next_chain = chain_next_key(chain_key);
                self.send_chain_key = Some(next_chain);
                self.send_counter = self.send_counter + 1;
                Ok(message_key)
            },
        }
    }
}

/// Whether a header's ratchet key continues the current receiving epoch:
/// it does when absent, or when it equals the stored remote key.
pub open spec fn same_epoch(rp: Option<Seq<u8>>, cur: Option<Seq<u8>>) -> bool {
    rp is None || rp == cur
}

/// The cache bounded to its capacity: when it overflows, the oldest
/// entries leave.
pub open spec fn clamp_cache(total: Seq<(Option<Seq<u8>>, u32, Seq<u8>)>) -> Seq<
    (Option<Seq<u8>>, u32, Seq<u8>),
> {
    if total.len() > 2000 {
        total.skip(total.len() - 2000)
    } else {
        total
    }
}

/// The cache after skipping the positions `from .. upto` of the chain
/// seeded by `seed` under the epoch key `epoch`.
pub open spec fn cache_after(
    sk: Seq<(Option<Seq<u8>>, u32, Seq<u8>)>,
    epoch: Option<Seq<u8>>,
    from: u32,
    upto: u32,
    seed: Seq<u8>,
) -> Seq<(Option<Seq<u8>>, u32, Seq<u8>)> {
    clamp_cache(
        sk + Seq::new(
            (upto - from) as nat,
            |k: int| (epoch, (from + k) as u32, message_key_at(seed, from + k)),
        ),
    )
}

impl DoubleRatchet {
    /// Find the first cached key for an epoch and position.
    fn find_skipped(&self, rp: &Option<Vec<u8>>, c: u32) -> (r: Option<usize>)
        ensures
            match r {
                Some(i) => first_skipped(self.skipped_view(), opt_bytes(*rp), c) == i as int && (i
                    as int) < self.skipped_view().len(),
                None => first_skipped(self.skipped_view(), opt_bytes(*rp), c) < 0,
            },
    {
        let ghost rpv = opt_bytes(*rp);
        let n = self.skipped_keys.len();
        let mut k: usize = 0;
        while k < n
            invariant
                k <= n,
                n == self.skipped_keys@.len(),
                rpv == opt_bytes(*rp),
                forall|j: int|
                    0 <= j < k ==> !entry_matches(#[trigger] self.skipped_view()[j], rpv, c),
            decreases n - k,
        {
            let e = &self.skipped_keys[k];
            let matches_here: bool = e.counter == c && (match (&e.remote, rp) {
                (None, None) => true,
                (Some(a), Some(b)) => bytes_eq(a.as_slice(), b.as_slice()),
                _ => false,
            });
            proof {
                assert(matches_here == entry_matches(self.skipped_view()[k as int], rpv, c));
            }
            if matches_here {
                proof {
                    lemma_first_skipped(self.skipped_view(), rpv, c);
                }
                return Some(k);
            }
            k += 1;
        }
        proof {
            lemma_first_skipped(self.skipped_view(), rpv, c);
        }
        None
    }

    /// Push fresh skipped entries, evicting the oldest past the capacity.
    fn absorb_entries(&mut self, fresh: Vec<SkippedEntry>)
        requires
            old(self).wf(),
            forall|k: int|
                0 <= k < fresh@.len() ==> (#[trigger] fresh@[k]).key@.len() == 32 && (
                fresh@[k].remote matches Some(p) ==> p@.len() == 32),
        ensures
            final(self).wf(),
            final(self).skipped_view() == clamp_cache(
                old(self).skipped_view() + entries_view(fresh@),
            ),
            final(self).spec_root() == old(self).spec_root(),
            final(self).spec_send_chain() == old(self).spec_send_chain(),
            final(self).spec_recv_chain() == old(self).spec_recv_chain(),
            final(self).spec_ratchet_pair() == old(self).spec_ratchet_pair(),
            final(self).spec_remote() == old(self).spec_remote(),
            final(self).spec_send_counter() == old(self).spec_send_counter(),
            final(self).spec_receive_counter() == old(self).spec_receive_counter(),
            final(self).spec_send_seed() == old(self).spec_send_seed(),
            final(self).spec_recv_seed() == old(self).spec_recv_seed(),
    {
        let ghost total = old(self).skipped_view() + entries_view(fresh@);
        let mut fresh = fresh;
        let ghost fresh0 = fresh@;
        let mut moved: usize = 0;
        let n = fresh.len();
        while moved < n
            invariant
                moved <= n,
                n == fresh0.len(),
                fresh@ == fresh0.skip(moved as int),
                entries_view(self.skipped_keys@) == old(
                    self,
                ).skipped_view() + entries_view(fresh0).take(
                    moved as int,
                ),
                forall|k: int|
                    0 <= k < fresh@.len() ==> (#[trigger] fresh@[k]).key@.len() == 32 && (
                    fresh@[k].remote matches Some(p) ==> p@.len() == 32),
                forall|i: int|
                    0 <= i < self.skipped_keys@.len() ==> (#[trigger] self.skipped_keys@[i]).key@.len()
                        == 32 && (self.skipped_keys@[i].remote matches Some(p) ==> p@.len() == 32),
                self.root_key == old(self).root_key,
                self.send_chain_key == old(self).send_chain_key,
                self.receive_chain_key == old(self).receive_chain_key,
                self.ratchet_key_pair == old(self).ratchet_key_pair,
                self.remote_ratchet_public == old(self).remote_ratchet_public,
                self.send_counter == old(self).send_counter,
                self.receive_counter == old(self).receive_counter,
                self.send_seed == old(self).send_seed,
                self.recv_seed == old(self).recv_seed,
            decreases n - moved,
        {
            let ghost pre_fresh = fresh@;
            let ghost pre_keys = self.skipped_keys@;
            let e = fresh.remove(0);
            proof {
                assert(entry_view(e) == entries_view(fresh0)[moved as int]);
            }
            self.skipped_keys.push(e);
            proof {
                assert(fresh@ =~= fresh0.skip(moved + 1));
                let cur = self.skipped_keys@;
                let target = old(self).skipped_view() + entries_view(fresh0).take(moved + 1);
                assert(entries_view(pre_keys).len() == pre_keys.len());
                assert forall|i: int| 0 <= i < entries_view(cur).len() implies entries_view(cur)[i]
                    == target[i] by {
                    assert(entries_view(cur)[i] == entry_view(cur[i]));
                    if i < pre_keys.len() {
                        assert(cur[i] == pre_keys[i]);
                        assert(entries_view(pre_keys)[i] == entry_view(pre_keys[i]));
                        assert(entries_view(pre_keys)[i] == target[i]);
                    } else {
                        assert(cur[i] == e);
                        assert(target[i] == entries_view(fresh0).take(moved + 1)[moved as int]);
                    }
                }
                assert(entries_view(cur) =~= target);
            }
            moved += 1;
        }
        proof {
            assert(entries_view(fresh0).take(n as int)
                =~= entries_view(fresh0));
            assert(entries_view(self.skipped_keys@) == total);
        }
        let ghost total_len = total.len();
        while self.skipped_keys.len() > 2000
            invariant
                entries_view(self.skipped_keys@) == total.skip(
                    total_len - self.skipped_keys@.len(),
                ),
                total_len == total.len(),
                self.skipped_keys@.len() <= total_len,
                total_len > 2000 ==> self.skipped_keys@.len() >= 2000,
                total_len <= 2000 ==> self.skipped_keys@.len() == total_len,
                forall|i: int|
                    0 <= i < self.skipped_keys@.len() ==> (#[trigger] self.skipped_keys@[i]).key@.len()
                        == 32 && (self.skipped_keys@[i].remote matches Some(p) ==> p@.len() == 32),
                self.root_key == old(self).root_key,
                self.send_chain_key == old(self).send_chain_key,
                self.receive_chain_key == old(self).receive_chain_key,
                self.ratchet_key_pair == old(self).ratchet_key_pair,
                self.remote_ratchet_public == old(self).remote_ratchet_public,
                self.send_counter == old(self).send_counter,
                self.receive_counter == old(self).receive_counter,
                self.send_seed == old(self).send_seed,
                self.recv_seed == old(self).recv_seed,
            decreases self.skipped_keys@.len(),
        {
            let ghost pre = self.skipped_keys@;
            self.skipped_keys.remove(0);
            proof {
                let cur = self.skipped_keys@;
                let d = total_len - cur.len();
                assert(entries_view(pre) == total.skip(d - 1));
                assert forall|i: int| 0 <= i < entries_view(cur).len() implies entries_view(cur)[i]
                    == total.skip(d)[i] by {
                    assert(cur[i] == pre[i + 1]);
                    assert(entries_view(cur)[i] == entry_view(cur[i]));
                    assert(entries_view(pre)[i + 1] == entry_view(pre[i + 1]));
                    assert(total.skip(d - 1)[i + 1] == total[d + i]);
                    assert(total.skip(d)[i] == total[d + i]);
                }
                assert(entries_view(cur) =~= total.skip(d));
            }
        }
        proof {
            assert(total.skip(0) =~= total);
            if total_len > 2000 {
                assert(self.skipped_keys@.len() == 2000);
            }
            assert(entries_view(self.skipped_keys@) == clamp_cache(
                total,
            ));
        }
    }

    /// Seal a message with the next sending message key.  The header holds
    /// the chain position, the derived nonce and the current local ratchet
    /// public key; its bytes are the associated data.  Fails exactly when
    /// no sending chain exists, the chain is exhausted, or the plaintext is
    /// over the supported length; then nothing changes.
    pub fn encrypt(&mut self, plaintext: &[u8]) -> (r: Result<(Vec<u8>, MessageHeader), CryptoError>)
        requires
            old(self).wf(),
        ensures
            final(self).wf(),
            r is Ok <==> old(self).spec_send_chain() is Some && old(self).spec_send_counter()
                < u32::MAX && plaintext@.len() <= 0x1000_0000,
            r is Ok ==> ({
                let ct = r->Ok_0.0;
                let header = r->Ok_0.1;
                let mk = message_key_at(
                    old(self).spec_send_seed(),
                    old(self).spec_send_counter() as int,
                );
                &&& header.wf()
                &&& header.counter == old(self).spec_send_counter()
                &&& header.nonce@ == message_nonce(mk)
                &&& opt_bytes(header.ratchet_public) == (match old(self).spec_ratchet_pair() {
                    Some(kp) => Some(kp.0),
                    None => None::<Seq<u8>>,
                })
                &&& ct@ == message_seal(mk, header.bytes(), plaintext@)
                &&& final(self).spec_send_counter() == old(self).spec_send_counter() + 1
                &&& final(self).spec_send_chain() == Some(
                    chain_at(old(self).spec_send_seed(), old(self).spec_send_counter() + 1),
                )
            }),
            final(self).spec_root() == old(self).spec_root(),
            final(self).spec_recv_chain() == old(self).spec_recv_chain(),
            final(self).spec_ratchet_pair() == old(self).spec_ratchet_pair(),
            final(self).spec_remote() == old(self).spec_remote(),
            final(self).spec_receive_counter() == old(self).spec_receive_counter(),
            final(self).skipped_view() == old(self).skipped_view(),
            final(self).spec_send_seed() == old(self).spec_send_seed(),
            final(self).spec_recv_seed() == old(self).spec_recv_seed(),
            r is Err ==> final(self).same_state(old(self)),
            r is Err ==> r->Err_0 is KeyExchange || r->Err_0 is Encryption,
    {
        if plaintext.len() > 0x1000_0000 {
            return Err(CryptoError::Encryption("plaintext too long".to_owned()));
        }
        if self.send_chain_key.is_none() {
            return Err(CryptoError::KeyExchange("No send chain".to_owned()));
        }
        if self.send_counter == u32::MAX {
            return Err(CryptoError::Encryption("sending chain exhausted".to_owned()));
        }
        let counter = self.send_counter;
        let mk = match self.next_send_key() {
            Ok(k) => k,
            Err(e) => {
                return Err(e);
            },
        };
        let (aead_key, nonce) = message_params(&mk);
        let ratchet_public = match &self.ratchet_key_pair {
            Some(kp) => Some(clone_bytes(kp.0.as_slice())),
            None => None,
        };
        let header = MessageHeader { counter, nonce, ratchet_public };
        let aad = header.encode();
        proof {
            lemma_header_bytes_len(&header);
        }
        match aes256_gcm_encrypt(
            aead_key.as_slice(),
            header.nonce.as_slice(),
            aad.as_slice(),
            plaintext,
        ) {
            Some(ct) => Ok((ct, header)),
            // Unreachable: the wrapper promises success within the bound.
            None => Err(CryptoError::Encryption("sealing failed".to_owned())),
        }
    }

    /// Open an incoming message.
    ///
    /// A cached skipped key for the header's epoch and position is
    /// consumed; otherwise, within the current epoch, the receiving chain
    /// advances to the header's position, caching every key passed over; a
    /// fresh remote ratchet key triggers a Diffie-Hellman ratchet step
    /// first.  The per-chain gap is capped at 1000 positions and the cache
    /// holds at most 2000 keys.  A failed decryption leaves the state
    /// unchanged.
    pub fn decrypt(&mut self, ciphertext: &[u8], header: &MessageHeader) -> (r: Result<
        Vec<u8>,
        CryptoError,
    >)
        requires
            old(self).wf(),
            header.wf(),
        ensures
            final(self).wf(),
            r is Err ==> final(self).same_state(old(self)) && (r->Err_0 is Decryption || r->Err_0
                is KeyExchange),
            ({
                let rp = opt_bytes(header.ratchet_public);
                let f = first_skipped(old(self).skipped_view(), rp, header.counter);
                &&& (f >= 0 ==> ({
                    let mk = old(self).skipped_view()[f].2;
                    &&& (forall|p: Seq<u8>|
                        ciphertext@ == #[trigger] message_seal(mk, header.bytes(), p) && p.len()
                            <= 0x1000_0000 ==> r is Ok && r->Ok_0@ == p)
                    &&& (r is Ok ==> ciphertext@ == message_seal(mk, header.bytes(), r->Ok_0@)
                        && final(self).skipped_view() == old(self).skipped_view().remove(f)
                        && final(self).spec_receive_counter() == old(self).spec_receive_counter()
                        && final(self).spec_recv_chain() == old(self).spec_recv_chain()
                        && final(self).spec_recv_seed() == old(self).spec_recv_seed()
                        && final(self).spec_send_chain() == old(self).spec_send_chain()
                        && final(self).spec_send_counter() == old(self).spec_send_counter()
                        && final(self).spec_send_seed() == old(self).spec_send_seed()
                        && final(self).spec_root() == old(self).spec_root()
                        && final(self).spec_remote() == old(self).spec_remote()
                        && final(self).spec_ratchet_pair() == old(self).spec_ratchet_pair())
                }))
                &&& (f < 0 && same_epoch(rp, old(self).spec_remote()) ==> ({
                    &&& (old(self).spec_recv_chain() is None ==> r is Err)
                    &&& (header.counter < old(self).spec_receive_counter() ==> r is Err)
                    &&& (old(self).spec_recv_chain() is Some && header.counter >= old(
                        self,
                    ).spec_receive_counter() && header.counter - old(self).spec_receive_counter()
                        <= 1000 && header.counter < u32::MAX ==> ({
                        let mk = message_key_at(old(self).spec_recv_seed(), header.counter as int);
                        &&& (forall|p: Seq<u8>|
                            ciphertext@ == #[trigger] message_seal(mk, header.bytes(), p) && p.len()
                                <= 0x1000_0000 ==> r is Ok && r->Ok_0@ == p)
                        &&& (r is Ok ==> ciphertext@ == message_seal(mk, header.bytes(), r->Ok_0@)
                            && final(self).spec_receive_counter() == header.counter + 1
                            && final(self).spec_recv_seed() == old(self).spec_recv_seed()
                            && final(self).spec_recv_chain() == Some(
                            chain_at(old(self).spec_recv_seed(), header.counter + 1),
                        ) && final(self).skipped_view() == cache_after(
                            old(self).skipped_view(),
                            old(self).spec_remote(),
                            old(self).spec_receive_counter(),
                            header.counter,
                            old(self).spec_recv_seed(),
                        ) && final(self).spec_send_chain() == old(self).spec_send_chain() && final(self).spec_send_counter() == old(self).spec_send_counter() && final(self).spec_send_seed() == old(self).spec_send_seed() && final(self).spec_root()
                            == old(self).spec_root() && final(self).spec_remote() == old(
                            self,
                        ).spec_remote() && final(self).spec_ratchet_pair() == old(
                            self,
                        ).spec_ratchet_pair())
                    }))
                    &&& (old(self).spec_recv_chain() is Some && header.counter >= old(
                        self,
                    ).spec_receive_counter() && header.counter - old(self).spec_receive_counter()
                        > 1000 ==> r is Err)
                }))
                &&& (f < 0 && !same_epoch(rp, old(self).spec_remote()) ==> ({
                    &&& (old(self).spec_ratchet_pair() is None ==> r is Err && r->Err_0
                        is KeyExchange)
                    &&& (header.counter > 1000 ==> r is Err)
                    &&& (header.ratchet_public is Some && old(self).spec_ratchet_pair() is Some
                        && header.counter <= 1000 ==> ({
                        let np = header.ratchet_public->Some_0@;
                        let seed = root_step_chain(
                            old(self).spec_root(),
                            x25519_shared_of(old(self).spec_ratchet_pair()->Some_0.1, np),
                        );
                        let mk = message_key_at(seed, header.counter as int);
                        &&& (forall|p: Seq<u8>|
                            ciphertext@ == #[trigger] message_seal(mk, header.bytes(), p) && p.len()
                                <= 0x1000_0000 ==> r is Ok && r->Ok_0@ == p)
                        &&& (r is Ok ==> ciphertext@ == message_seal(mk, header.bytes(), r->Ok_0@)
                            && final(self).spec_remote() == Some(np)
                            && final(self).spec_receive_counter() == header.counter + 1 && final(self).spec_recv_seed() == seed && final(self).spec_recv_chain() == Some(
                            chain_at(seed, header.counter + 1),
                        ) && final(self).spec_send_counter() == 0)
                    }))
                }))
            }),
    {
        let found = self.find_skipped(&header.ratchet_public, header.counter);
        proof {
            lemma_first_skipped(
                self.skipped_view(),
                opt_bytes(header.ratchet_public),
                header.counter,
            );
        }
        if let Some(i) = found {
            let aad = header.encode();
            proof {
                lemma_header_bytes_len(header);
            }
            let entry_key = clone_bytes(self.skipped_keys[i].key.as_slice());
            let (aead_key, nonce) = message_params(&entry_key);
            match aes256_gcm_decrypt(
                aead_key.as_slice(),
                nonce.as_slice(),
                aad.as_slice(),
                ciphertext,
            ) {
                Some(pt) => {
                    let ghost pre = self.skipped_keys@;
                    self.skipped_keys.remove(i);
                    proof {
                        assert(entries_view(self.skipped_keys@) =~= old(
                            self,
                        ).skipped_view().remove(i as int));
                    }
                    Ok(pt)
                },
                None => Err(CryptoError::Decryption("message authentication failed".to_owned())),
            }
        } else {
            let is_same_epoch: bool = match (&header.ratchet_public, &self.remote_ratchet_public) {
                (None, _) => true,
                (Some(hp), Some(cp)) => bytes_eq(hp.as_slice(), cp.as_slice()),
                (Some(_), None) => false,
            };
            if is_same_epoch {
                self.decrypt_current_chain(ciphertext, header)
            } else {
                self.decrypt_after_step(ciphertext, header)
            }
        }
    }

    /// Open a message within the current receiving epoch, advancing the
    /// chain and caching skipped keys.
    fn decrypt_current_chain(&mut self, ciphertext: &[u8], header: &MessageHeader) -> (r: Result<
        Vec<u8>,
        CryptoError,
    >)
        requires
            old(self).wf(),
            header.wf(),
        ensures
            final(self).wf(),
            r is Err ==> final(self).same_state(old(self)) && r->Err_0 is Decryption,
            old(self).spec_recv_chain() is None ==> r is Err,
            header.counter < old(self).spec_receive_counter() ==> r is Err,
            old(self).spec_recv_chain() is Some && header.counter >= old(
                self,
            ).spec_receive_counter() && header.counter - old(self).spec_receive_counter() > 1000
                ==> r is Err,
            old(self).spec_recv_chain() is Some && header.counter >= old(
                self,
            ).spec_receive_counter() && header.counter - old(self).spec_receive_counter() <= 1000
                && header.counter < u32::MAX ==> ({
                let mk = message_key_at(old(self).spec_recv_seed(), header.counter as int);
                &&& (forall|p: Seq<u8>|
                    ciphertext@ == #[trigger] message_seal(mk, header.bytes(), p) && p.len()
                        <= 0x1000_0000 ==> r is Ok && r->Ok_0@ == p)
                &&& (r is Ok ==> ciphertext@ == message_seal(mk, header.bytes(), r->Ok_0@) && final(self).spec_receive_counter() == header.counter + 1 && final(self).spec_recv_seed()
                    == old(self).spec_recv_seed() && final(self).spec_recv_chain() == Some(
                    chain_at(old(self).spec_recv_seed(), header.counter + 1),
                ) && final(self).skipped_view() == cache_after(
                    old(self).skipped_view(),
                    old(self).spec_remote(),
                    old(self).spec_receive_counter(),
                    header.counter,
                    old(self).spec_recv_seed(),
                ) && final(self).spec_send_chain() == old(self).spec_send_chain() && final(self).spec_send_counter() == old(self).spec_send_counter() && final(self).spec_send_seed() == old(self).spec_send_seed() && final(self).spec_root() == old(
                    self,
                ).spec_root() && final(self).spec_remote() == old(self).spec_remote() && final(self).spec_ratchet_pair() == old(self).spec_ratchet_pair())
            }),
    {
        let chain = match &self.receive_chain_key {
            None => {
                return Err(CryptoError::Decryption("No receive chain".to_owned()));
            },
            Some(c) => clone_bytes(c.as_slice()),
        };
        if header.counter < self.receive_counter {
            return Err(CryptoError::Decryption("message key already consumed".to_owned()));
        }
        if header.counter == u32::MAX {
            return Err(CryptoError::Decryption("counter out of range".to_owned()));
        }
        if header.counter - self.receive_counter > 1000 {
            return Err(CryptoError::Decryption("gap in the receiving chain too large".to_owned()));
        }
        let start = self.receive_counter;
        let mut temp_chain = chain;
        let mut c = start;
        let mut fresh: Vec<SkippedEntry> = Vec::new();
        while c < header.counter
            invariant
                start <= c <= header.counter,
                header.counter < u32::MAX,
                temp_chain@ == chain_at(self.recv_seed@, c as int),
                temp_chain@.len() == 32,
                fresh@.len() == c - start,
                self.remote_ratchet_public matches Some(p) ==> p@.len() == 32,
                forall|k: int|
                    0 <= k < fresh@.len() ==> entry_view(#[trigger] fresh@[k]) == (
                        self.spec_remote(),
                        (start + k) as u32,
                        message_key_at(self.recv_seed@, start + k),
                    ),
                forall|k: int|
                    0 <= k < fresh@.len() ==> (#[trigger] fresh@[k]).key@.len() == 32 && (
                    fresh@[k].remote matches Some(p) ==> p@.len() == 32),
            decreases header.counter - c,
        {
            let mk = chain_message_key(&temp_chain);
            let remote_clone = clone_opt(&self.remote_ratchet_public);
            fresh.push(SkippedEntry { remote: remote_clone, counter: c, key: mk });
            temp_chain = chain_next_key(&temp_chain);
            c = c + 1;
        }
        let mk = chain_message_key(&temp_chain);
        let (aead_key, nonce) = message_params(&mk);
        let aad = header.encode();
        proof {
            lemma_header_bytes_len(header);
        }
        match aes256_gcm_decrypt(aead_key.as_slice(), nonce.as_slice(), aad.as_slice(), ciphertext) {
            Some(pt) => {
                let next_chain = chain_next_key(&temp_chain);
                self.receive_chain_key = Some(next_chain);
                self.receive_counter = header.counter + 1;
                proof {
                    assert(entries_view(fresh@) =~= Seq::new(
                        (header.counter - start) as nat,
                        |k: int| (
                            old(self).spec_remote(),
                            (start + k) as u32,
                            message_key_at(old(self).spec_recv_seed(), start + k),
                        ),
                    ));
                }
                self.absorb_entries(fresh);
                Ok(pt)
            },
            None => Err(CryptoError::Decryption("message authentication failed".to_owned())),
        }
    }

    /// Open the first message of a new remote epoch: perform the
    /// Diffie-Hellman ratchet step, then advance the fresh receiving chain.
    fn decrypt_after_step(&mut self, ciphertext: &[u8], header: &MessageHeader) -> (r: Result<
        Vec<u8>,
        CryptoError,
    >)
        requires
            old(self).wf(),
            header.wf(),
            header.ratchet_public is Some,
        ensures
            final(self).wf(),
            r is Err ==> final(self).same_state(old(self)) && (r->Err_0 is Decryption || r->Err_0
                is KeyExchange),
            old(self).spec_ratchet_pair() is None ==> r is Err && r->Err_0 is KeyExchange,
            header.counter > 1000 ==> r is Err,
            header.ratchet_public is Some && old(self).spec_ratchet_pair() is Some
                && header.counter <= 1000 ==> ({
                let np = header.ratchet_public->Some_0@;
                let seed = root_step_chain(
                    old(self).spec_root(),
                    x25519_shared_of(old(self).spec_ratchet_pair()->Some_0.1, np),
                );
                let mk = message_key_at(seed, header.counter as int);
                &&& (forall|p: Seq<u8>|
                    ciphertext@ == #[trigger] message_seal(mk, header.bytes(), p) && p.len()
                        <= 0x1000_0000 ==> r is Ok && r->Ok_0@ == p)
                &&& (r is Ok ==> ciphertext@ == message_seal(mk, header.bytes(), r->Ok_0@) && final(self).spec_remote() == Some(np) && final(self).spec_receive_counter() == header.counter
                    + 1 && final(self).spec_recv_seed() == seed && final(self).spec_recv_chain()
                    == Some(chain_at(seed, header.counter + 1)) && final(self).spec_send_counter()
                    == 0)
            }),
    {
        let my_secret = match &self.ratchet_key_pair {
            Some(kp) => clone_bytes(kp.1.as_slice()),
            None => {
                return Err(CryptoError::KeyExchange("no local ratchet keypair".to_owned()));
            },
        };
        if header.counter > 1000 {
            return Err(CryptoError::Decryption("gap in the receiving chain too large".to_owned()));
        }
        let np = match &header.ratchet_public {
            Some(p) => clone_bytes(p.as_slice()),
            None => {
                return Err(CryptoError::Decryption("missing ratchet key".to_owned()));
            },
        };
        let dh1 = x25519_diffie_hellman(my_secret.as_slice(), np.as_slice());
        let prk1 = hmac_sha3_512(self.root_key.as_slice(), dh1.as_slice());
        let root1 = slice_range(prk1.as_slice(), 0, 32);
        let new_recv_seed = slice_range(prk1.as_slice(), 32, 64);
        let ghost seed = new_recv_seed@;
        let mut temp_chain = clone_bytes(new_recv_seed.as_slice());
        let mut c: u32 = 0;
        let mut fresh: Vec<SkippedEntry> = Vec::new();
        while c < header.counter
            invariant
                c <= header.counter,
                header.counter <= 1000,
                np@.len() == 32,
                temp_chain@ == chain_at(seed, c as int),
                temp_chain@.len() == 32,
                fresh@.len() == c,
                forall|k: int|
                    0 <= k < fresh@.len() ==> entry_view(#[trigger] fresh@[k]) == (
                        Some(np@),
                        k as u32,
                        message_key_at(seed, k),
                    ),
                forall|k: int|
                    0 <= k < fresh@.len() ==> (#[trigger] fresh@[k]).key@.len() == 32 && (
                    fresh@[k].remote matches Some(p) ==> p@.len() == 32),
            decreases header.counter - c,
        {
            let mk = chain_message_key(&temp_chain);
            fresh.push(
                SkippedEntry { remote: Some(clone_bytes(np.as_slice())), counter: c, key: mk },
            );
            temp_chain = chain_next_key(&temp_chain);
            c = c + 1;
        }
        let mk = chain_message_key(&temp_chain);
        let (aead_key, nonce) = message_params(&mk);
        let aad = header.encode();
        proof {
            lemma_header_bytes_len(header);
        }
        match aes256_gcm_decrypt(aead_key.as_slice(), nonce.as_slice(), aad.as_slice(), ciphertext) {
            Some(pt) => {
                let new_secret = crate::utils::random_vec(32);
                let new_public = x25519_public_key(new_secret.as_slice());
                let dh2 = x25519_diffie_hellman(new_secret.as_slice(), np.as_slice());
                let prk2 = hmac_sha3_512(root1.as_slice(), dh2.as_slice());
                self.root_key = slice_range(prk2.as_slice(), 0, 32);
                let new_send_seed = slice_range(prk2.as_slice(), 32, 64);
                self.send_seed = Ghost(new_send_seed@);
                self.send_chain_key = Some(new_send_seed);
                self.send_counter = 0;
                self.ratchet_key_pair = Some((new_public, new_secret));
                self.receive_chain_key = Some(chain_next_key(&temp_chain));
                self.recv_seed = Ghost(seed);
                self.receive_counter = header.counter + 1;
                self.remote_ratchet_public = Some(np);
                self.absorb_entries(fresh);
                Ok(pt)
            },
            None => Err(CryptoError::Decryption("message authentication failed".to_owned())),
        }
    }

    /// Perform a Diffie-Hellman ratchet step against a fresh remote
    /// ratchet key: mix the old local secret into the root and derive the
    /// receiving chain, then generate a fresh local keypair, mix again and
    /// derive the sending chain; both counters restart.  Fails with
    /// `KeyExchange` exactly when no local ratchet keypair is installed,
    /// and then changes nothing.
    pub fn dh_ratchet(&mut self, remote_ratchet_public: Vec<u8>) -> (r: Result<(), CryptoError>)
        requires
            old(self).wf(),
            remote_ratchet_public@.len() == 32,
        ensures
            final(self).wf(),
            r is Ok <==> old(self).spec_ratchet_pair() is Some,
            r is Err ==> final(self).same_state(old(self)) && r->Err_0 is KeyExchange,
            old(self).spec_ratchet_pair() matches Some(kp) ==> ({
                let dh1 = x25519_shared_of(kp.1, remote_ratchet_public@);
                let root1 = root_step_root(old(self).spec_root(), dh1);
                &&& final(self).spec_recv_seed() == root_step_chain(old(self).spec_root(), dh1)
                &&& final(self).spec_recv_chain() == Some(final(self).spec_recv_seed())
                &&& final(self).spec_remote() == Some(remote_ratchet_public@)
                &&& final(self).spec_send_counter() == 0
                &&& final(self).spec_receive_counter() == 0
                &&& final(self).skipped_view() == old(self).skipped_view()
                &&& (final(self).spec_ratchet_pair() matches Some(kp2) && final(self).spec_root()
                    == root_step_root(root1, x25519_shared_of(kp2.1, remote_ratchet_public@))
                    && final(self).spec_send_seed() == root_step_chain(
                    root1,
                    x25519_shared_of(kp2.1, remote_ratchet_public@),
                ) && final(self).spec_send_chain() == Some(final(self).spec_send_seed()))
            }),
    {
        let my_secret = match &self.ratchet_key_pair {
            Some(kp) => clone_bytes(kp.1.as_slice()),
            None => {
                return Err(CryptoError::KeyExchange("no local ratchet keypair".to_owned()));
            },
        };
        let dh1 = x25519_diffie_hellman(my_secret.as_slice(), remote_ratchet_public.as_slice());
        let prk1 = hmac_sha3_512(self.root_key.as_slice(), dh1.as_slice());
        let root1 = slice_range(prk1.as_slice(), 0, 32);
        let new_recv_seed = slice_range(prk1.as_slice(), 32, 64);
        let new_secret = crate::utils::random_vec(32);
        let new_public = x25519_public_key(new_secret.as_slice());
        let dh2 = x25519_diffie_hellman(new_secret.as_slice(), remote_ratchet_public.as_slice());
        let prk2 = hmac_sha3_512(root1.as_slice(), dh2.as_slice());
        self.root_key = slice_range(prk2.as_slice(), 0, 32);
        let new_send_seed = slice_range(prk2.as_slice(), 32, 64);
        self.send_seed = Ghost(new_send_seed@);
        self.send_chain_key = Some(new_send_seed);
        self.send_counter = 0;
        self.recv_seed = Ghost(new_recv_seed@);
        self.receive_chain_key = Some(new_recv_seed);
        self.receive_counter = 0;
        self.ratchet_key_pair = Some((new_public, new_secret));
        self.remote_ratchet_public = Some(remote_ratchet_public);
        Ok(())
    }

    /// Overwrite all key material with zeros and drop every cached key;
    /// the session cannot be used afterwards.
    pub fn wipe(&mut self)
        ensures
            final(self).spec_root() == Seq::new(old(self).spec_root().len(), |i: int| 0u8),
            final(self).spec_send_chain() is None,
            final(self).spec_recv_chain() is None,
            final(self).spec_ratchet_pair() is None,
            final(self).spec_remote() is None,
            final(self).skipped_view() == Seq::<(Option<Seq<u8>>, u32, Seq<u8>)>::empty(),
            final(self).spec_send_counter() == 0,
            final(self).spec_receive_counter() == 0,
    {
        zero_bytes(&mut self.root_key);
        self.send_chain_key = None;
        self.receive_chain_key = None;
        self.ratchet_key_pair = None;
        self.remote_ratchet_public = None;
        self.send_counter = 0;
        self.receive_counter = 0;
        self.skipped_keys = Vec::new();
        proof {
            assert(entries_view(self.skipped_keys@) =~= Seq::<
                (Option<Seq<u8>>, u32, Seq<u8>),
            >::empty());
        }
    }
}

/// Clone an optional byte vector.
fn clone_opt(o: &Option<Vec<u8>>) -> (r: Option<Vec<u8>>)
    ensures
        opt_bytes(r) == opt_bytes(*o),
        r is Some <==> o is Some,
{
    match o {
        Some(v) => Some(clone_bytes(v.as_slice())),
        None => None,
    }
}

/// The message key of a chain key: HMAC with the byte 0x01, truncated.
fn chain_message_key(ck: &Vec<u8>) -> (r: Vec<u8>)
    ensures
        r@ == chain_msg_key(ck@),
        r@.len() == 32,
{
    let label: Vec<u8> = vec![1u8];
    proof {
        assert(label@ =~= seq![1u8]);
    }
    let tag = hmac_sha3_512(ck.as_slice(), label.as_slice());
    slice_prefix(tag.as_slice(), 32)
}

/// The successor chain key: HMAC with the byte 0x02, truncated.
fn chain_next_key(ck: &Vec<u8>) -> (r: Vec<u8>)
    ensures
        r@ == chain_next(ck@),
        r@.len() == 32,
{
    let label: Vec<u8> = vec![2u8];
    proof {
        assert(label@ =~= seq![2u8]);
    }
    let tag = hmac_sha3_512(ck.as_slice(), label.as_slice());
    slice_prefix(tag.as_slice(), 32)
}

/// The HKDF info label of per-message keys ("message-keys").
fn message_info() -> (v: Vec<u8>)
    ensures
        v@ == message_info_bytes(),
{
    let v: Vec<u8> = vec![
        109u8, 101u8, 115u8, 115u8, 97u8, 103u8, 101u8, 45u8, 107u8, 101u8, 121u8, 115u8,
    ];
    proof {
        assert(v@ =~= message_info_bytes());
    }
    v
}

/// Expand a message key into its AEAD key and nonce.
fn message_params(mk: &Vec<u8>) -> (r: (Vec<u8>, Vec<u8>))
    ensures
        r.0@ == message_aead_key(mk@),
        r.0@.len() == 32,
        r.1@ == message_nonce(mk@),
        r.1@.len() == 12,
{
    let info = message_info();
    let okm = crate::utils::hkdf_expand(mk.as_slice(), info.as_slice(), 76);
    let key = slice_range(okm.as_slice(), 0, 32);
    let nonce = slice_range(okm.as_slice(), 64, 76);
    (key, nonce)
}

} // verus!
