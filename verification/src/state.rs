//! The per-CoValue verified state: header, per-session logs, and the
//! verify-and-append pipeline.

use vstd::prelude::*;

use crate::covalue::{co_id_of_header, CoValueHeader, HeaderV};
use crate::crypto::{
    blake3_of, ed25519_verifies, hash_prefix, prefixed_text, Signature, SignerID, StreamingHash,
};
use crate::errors::CoValueError;
use crate::ids::{RawCoID, SessionID};
use crate::json::{json_canon, JsonV, JsonValue};
use crate::session::{
    empty_log_view, log_wf, sigs_view, tx_payload, txs_canon, txs_payload, txs_view, SessionLog,
    SessionLogV, SessionMap, sm_wf, Transaction, TransactionV,
};
use crate::smap::{am_find, am_keys_unique, SidV};
use crate::sync::{ContentMap, CoValueKnownState, CountMap, SyncMessage};
use crate::MAX_RECOMMENDED_TX_SIZE;

verus! {

/// The model of a verified state: its identity, header and session logs.
/// The caches are not part of the model; they are tied to it by the
/// state's well-formedness.
pub struct StateV {
    pub id: Seq<u8>,
    pub header: HeaderV,
    pub sessions: Seq<(SidV, SessionLogV)>,
}

/// The canonical JSON text of the textual form of a digest: the message a
/// session-head signature signs.
pub open spec fn signed_message(digest: Seq<u8>) -> Seq<u8> {
    json_canon(JsonV::Text(prefixed_text(hash_prefix(), digest)), 0)
}

/// The session log found under a key, or a fresh empty log.
pub open spec fn log_or_empty(s: Seq<(SidV, SessionLogV)>, k: SidV) -> SessionLogV {
    match am_find(s, k) {
        Some(log) => log,
        None => empty_log_view(),
    }
}

/// A run of absent checkpoint slots.
pub open spec fn none_slots(n: nat) -> Seq<Option<Seq<u8>>> {
    Seq::new(n, |i: int| None)
}

/// The index of the last populated checkpoint slot, if any.
pub open spec fn last_populated(sa: Seq<Option<Seq<u8>>>) -> Option<int>
    decreases sa,
{
    if sa.len() == 0 {
        None
    } else if sa.last() is Some {
        Some(sa.len() - 1)
    } else {
        last_populated(sa.drop_last())
    }
}

/// The first index whose payload counts towards the unsigned tail: one
/// past the last populated slot, which defaults to index zero when no slot
/// is populated (so the first transaction never counts towards the first
/// checkpoint decision).
pub open spec fn tail_start(sa: Seq<Option<Seq<u8>>>) -> int {
    match last_populated(sa) {
        Some(i) => i + 1,
        None => 1,
    }
}

/// The payload bytes of the transactions strictly after the last populated
/// checkpoint slot.
pub open spec fn tail_size(ts: Seq<TransactionV>, sa: Seq<Option<Seq<u8>>>) -> nat {
    if tail_start(sa) <= ts.len() {
        txs_payload(ts.skip(tail_start(sa)))
    } else {
        0
    }
}

/// The log that results from appending `new_txs` under signature `sig`:
/// the transactions and transcript grow, the checkpoint slots are extended
/// with absences and the newest slot is signed when the unsigned tail
/// exceeds the recommended size, and hash and head signature move to the
/// new head.
pub open spec fn appended_log(
    old_log: SessionLogV,
    new_txs: Seq<TransactionV>,
    sig: Seq<u8>,
) -> SessionLogV {
    let txs = old_log.transactions + new_txs;
    let sa0 = old_log.signature_after + none_slots(new_txs.len());
    let consumed = old_log.consumed + txs_canon(new_txs);
    let sa = if tail_size(txs, sa0) > MAX_RECOMMENDED_TX_SIZE {
        sa0.update(txs.len() - 1, Some(sig))
    } else {
        sa0
    };
    SessionLogV {
        transactions: txs,
        last_hash: Some(blake3_of(consumed)),
        consumed,
        signature_after: sa,
        last_signature: sig,
    }
}

/// The per-session transaction counts of a state.
pub open spec fn counts_of(s: Seq<(SidV, SessionLogV)>) -> Seq<(SidV, usize)> {
    s.map_values(|e: (SidV, SessionLogV)| (e.0, e.1.transactions.len() as usize))
}

/// The digest that appending `new_txs` to session `k` must chain to.
pub open spec fn expected_digest(st: StateV, k: SidV, new_txs: Seq<TransactionV>) -> Seq<u8> {
    blake3_of(log_or_empty(st.sessions, k).consumed + txs_canon(new_txs))
}

/// Whether the recompute-and-check path owes success: the caller's
/// expected hash (when given) matches the recomputed digest, and the
/// signature verifies over the digest's textual form.
pub open spec fn append_ok(
    st: StateV,
    k: SidV,
    new_txs: Seq<TransactionV>,
    given_hash: Option<Seq<u8>>,
    signer: Seq<u8>,
    sig: Seq<u8>,
) -> bool {
    let digest = expected_digest(st, k, new_txs);
    &&& (given_hash matches Some(g) ==> g == digest)
    &&& ed25519_verifies(signer, signed_message(digest), sig)
}

/// The hash and hasher that an append will commit, computed ahead of the
/// commit so the caller can compare them with what a peer claimed.
pub struct ExpectedNewHashAfter {
    /// The digest of the chain extended with the new transactions.
    pub expected_new_hash: crate::crypto::Hash,
    /// The hasher having consumed the extended chain.
    pub new_streaming_hash: StreamingHash,
}

/// The per-CoValue aggregate: header, session logs and caches; appends go
/// through hash-chain and signature verification.
pub struct VerifiedState {
    id: RawCoID,
    header: CoValueHeader,
    sessions: SessionMap,
    cached_known_state: Option<CoValueKnownState>,
    cached_new_content_since_empty: Option<Vec<SyncMessage>>,
}

impl View for VerifiedState {
    type V = StateV;

    closed spec fn view(&self) -> StateV {
        StateV { id: self.id@, header: self.header@, sessions: self.sessions@ }
    }
}

impl VerifiedState {
    /// Well-formedness: the ID is the header's, every session log keeps
    /// its chain invariant, and each cache, when present, agrees with the
    /// current state.
    pub closed spec fn wf(&self) -> bool {
        &&& self.header.wf()
        &&& self.id@ == co_id_of_header(self.header@)
        &&& sm_wf(self.sessions@)
        &&& match self.cached_known_state {
            Some(ks) => ks@.id == self.id@ && ks@.header == true && ks@.sessions == counts_of(
                self.sessions@,
            ),
            None => true,
        }
        &&& match self.cached_new_content_since_empty {
            Some(msgs) => crate::diff::content_post(
                self@,
                None,
                crate::sync::msgs_view(msgs@),
            ) && msgs@.len() >= 1,
            None => true,
        }
    }

    /// A verified state from its parts.  The ID must be the one the header
    /// determines, and the given logs must satisfy the chain invariant.
    pub fn new(id: RawCoID, header: CoValueHeader, sessions: SessionMap) -> (r: VerifiedState)
        requires
            header.wf(),
            id@ == co_id_of_header(header@),
            sm_wf(sessions@),
        ensures
            r@.id == id@,
            r@.header == header@,
            r@.sessions == sessions@,
            r.wf(),
    {
        VerifiedState {
            id,
            header,
            sessions,
            cached_known_state: None,
            cached_new_content_since_empty: None,
        }
    }

    /// The CoValue's ID.
    pub fn id(&self) -> (r: &RawCoID)
        ensures
            r@ == self@.id,
    {
        &self.id
    }

    /// The CoValue's header.
    pub fn header(&self) -> (r: &CoValueHeader)
        ensures
            r@ == self@.header,
    {
        &self.header
    }

    /// The session log of `session_id`, if that session is known.
    pub fn session_log(&self, session_id: &SessionID) -> (r: Option<&SessionLog>)
        ensures
            match r {
                Some(log) => am_find(self@.sessions, session_id@) == Some(log@),
                None => am_find(self@.sessions, session_id@) is None,
            },
    {
        self.sessions.get(session_id)
    }

    /// The number of sessions.
    pub fn session_count(&self) -> (r: usize)
        ensures
            r == self@.sessions.len(),
    {
        self.sessions.len()
    }

    /// The digest and hasher of session `session_id`'s chain extended with
    /// `new_transactions`, without committing anything.
    pub fn expected_new_hash_after(
        &self,
        session_id: &SessionID,
        new_transactions: &Vec<Transaction>,
    ) -> (r: ExpectedNewHashAfter)
        requires
            self.wf(),
        ensures
            r.new_streaming_hash.consumed_bytes() == log_or_empty(
                self@.sessions,
                session_id@,
            ).consumed + txs_canon(txs_view(new_transactions@)),
            r.expected_new_hash@ == expected_digest(
                self@,
                session_id@,
                txs_view(new_transactions@),
            ),
            r.expected_new_hash@.len() == crate::crypto::HASH_LENGTH,
    {
        let mut hasher: StreamingHash = match self.sessions.get(session_id) {
            Some(log) => log.streaming_hash_state().clone_state(),
            None => StreamingHash::new(),
        };
        proof {
            assert(hasher.consumed_bytes() == log_or_empty(
                self@.sessions,
                session_id@,
            ).consumed);
            assert(txs_view(new_transactions@.take(0)) =~= Seq::<TransactionV>::empty());
        }
        let ghost base = hasher.consumed_bytes();
        let mut i: usize = 0;
        while i < new_transactions.len()
            invariant
                i <= new_transactions@.len(),
                hasher.consumed_bytes() == base + txs_canon(txs_view(new_transactions@.take(
                    i as int,
                ))),
            decreases new_transactions@.len() - i,
        {
            let bytes = new_transactions[i].canonical_bytes();
            hasher.update(&bytes);
            proof {
                let pre = txs_view(new_transactions@.take(i as int));
                let cur = txs_view(new_transactions@.take(i + 1));
                assert(cur =~= pre.push(new_transactions@[i as int]@));
                assert(cur.drop_last() =~= pre);
                assert(cur.last() == new_transactions@[i as int]@);
                assert(txs_canon(cur) == txs_canon(pre) + crate::session::tx_canon(
                    new_transactions@[i as int]@,
                ));
                assert((base + txs_canon(pre)) + crate::session::tx_canon(
                    new_transactions@[i as int]@,
                ) =~= base + txs_canon(cur));
            }
            i = i + 1;
        }
        proof {
            assert(new_transactions@.take(new_transactions@.len() as int) =~= new_transactions@);
        }
        let digest = hasher.digest();
        ExpectedNewHashAfter { expected_new_hash: digest, new_streaming_hash: hasher }
    }

    /// Commits an append whose digest and hasher were already computed.
    #[verifier::rlimit(100)]
    fn do_add_transactions(
        &mut self,
        session_id: &SessionID,
        new_transactions: &Vec<Transaction>,
        new_signature: &Signature,
        expected_new_hash: crate::crypto::Hash,
        new_streaming_hash: StreamingHash,
    )
        requires
            old(self).wf(),
            new_signature.wf(),
            new_streaming_hash.consumed_bytes() == log_or_empty(
                old(self)@.sessions,
                session_id@,
            ).consumed + txs_canon(txs_view(new_transactions@)),
            expected_new_hash@ == blake3_of(new_streaming_hash.consumed_bytes()),
            txs_payload(log_or_empty(old(self)@.sessions, session_id@).transactions)
                + txs_payload(txs_view(new_transactions@)) <= usize::MAX,
        ensures
            final(self)@.id == old(self)@.id,
            final(self)@.header == old(self)@.header,
            final(self)@.sessions == crate::smap::am_set(
                old(self)@.sessions,
                session_id@,
                appended_log(
                    log_or_empty(old(self)@.sessions, session_id@),
                    txs_view(new_transactions@),
                    new_signature@,
                ),
            ),
            final(self).wf(),
    {
        let ghost old_log = log_or_empty(self@.sessions, session_id@);
        proof {
            lemma_log_or_empty_wf(self.sessions@, session_id@);
        }
        let mut txs: Vec<Transaction> = Vec::new();
        let mut sa: Vec<Option<Signature>> = Vec::new();
        match self.sessions.get(session_id) {
            Some(log) => {
                let source = log.transactions();
                let mut i: usize = 0;
                while i < source.len()
                    invariant
                        i <= source@.len(),
                        txs@.len() == i,
                        forall|j: int| 0 <= j < i ==> (#[trigger] txs@[j])@ == source@[j]@,
                    decreases source@.len() - i,
                {
                    txs.push(source[i].duplicate());
                    i = i + 1;
                }
                let slots = log.signature_after();
                let mut j: usize = 0;
                while j < slots.len()
                    invariant
                        j <= slots@.len(),
                        sa@.len() == j,
                        forall|m: int|
                            0 <= m < j ==> (match (#[trigger] sa@[m], slots@[m]) {
                                (Some(x), Some(y)) => x@ == y@,
                                (None, None) => true,
                                _ => false,
                            }),
                    decreases slots@.len() - j,
                {
                    match &slots[j] {
                        Some(sig) => sa.push(Some(sig.duplicate())),
                        None => sa.push(None),
                    }
                    j = j + 1;
                }
                proof {
                    assert(txs_view(txs@) =~= log@.transactions);
                    assert(sigs_view(sa@) =~= log@.signature_after);
                }
            },
            None => {
                proof {
                    assert(txs_view(txs@) =~= old_log.transactions);
                    assert(sigs_view(sa@) =~= old_log.signature_after);
                }
            },
        }
        proof {
            assert(txs_view(txs@) == old_log.transactions);
            assert(sigs_view(sa@) == old_log.signature_after);
        }
        let ghost old_count = txs@.len();
        let mut i: usize = 0;
        while i < new_transactions.len()
            invariant
                i <= new_transactions@.len(),
                txs@.len() == old_count + i,
                sa@.len() == old_count + i,
                txs_view(txs@) == old_log.transactions + txs_view(new_transactions@.take(i as int)),
                sigs_view(sa@) == old_log.signature_after + none_slots(i as nat),
            decreases new_transactions@.len() - i,
        {
            let ghost before_txs = txs@;
            let ghost before_sa = sa@;
            txs.push(new_transactions[i].duplicate());
            sa.push(None);
            proof {
                assert(txs_view(txs@) =~= txs_view(before_txs).push(txs@.last()@));
                assert(txs@.last()@ == new_transactions@[i as int]@);
                assert(txs_view(new_transactions@.take(i + 1)) =~= txs_view(
                    new_transactions@.take(i as int),
                ).push(new_transactions@[i as int]@));
                assert(old_log.transactions + txs_view(new_transactions@.take(i + 1)) =~= (
                old_log.transactions + txs_view(new_transactions@.take(i as int))).push(
                    new_transactions@[i as int]@,
                ));
                assert(sigs_view(sa@) =~= sigs_view(before_sa).push(None));
                assert(none_slots((i + 1) as nat) =~= none_slots(i as nat).push(None));
                assert(old_log.signature_after + none_slots((i + 1) as nat) =~= (
                old_log.signature_after + none_slots(i as nat)).push(None));
            }
            i = i + 1;
        }
        proof {
            assert(new_transactions@.take(new_transactions@.len() as int) =~= new_transactions@);
        }
        let ghost new_txs_v = txs_view(new_transactions@);
        let ghost full_txs = old_log.transactions + new_txs_v;
        let ghost sa0 = old_log.signature_after + none_slots(new_txs_v.len());
        proof {
            crate::session::lemma_txs_payload_concat(old_log.transactions, new_txs_v);
        }
        let slot_count = sa.len();
        let start: usize = match last_populated_index(&sa) {
            Some(idx) => {
                proof {
                    assert(idx < slot_count);
                }
                idx + 1
            },
            None => 1,
        };
        let mut tail: usize = 0;
        if start < txs.len() {
            let ghost base_skip = txs_view(txs@).skip(start as int);
            let mut m: usize = start;
            proof {
                assert(txs_view(txs@).skip(start as int).skip(0) =~= txs_view(txs@).skip(
                    start as int,
                ));
                assert(txs_view(txs@).subrange(start as int, start as int) =~= Seq::<
                    TransactionV,
                >::empty());
            }
            while m < txs.len()
                invariant
                    start <= m <= txs@.len(),
                    txs_view(txs@) == full_txs,
                    txs_payload(full_txs) <= usize::MAX,
                    tail == txs_payload(txs_view(txs@).subrange(start as int, m as int)),
                decreases txs@.len() - m,
            {
                proof {
                    let sub = txs_view(txs@).subrange(start as int, m + 1);
                    assert(sub.drop_last() =~= txs_view(txs@).subrange(start as int, m as int));
                    assert(sub.last() == txs_view(txs@)[m as int]);
                    assert(txs_view(txs@)[m as int] == txs@[m as int]@);
                    crate::session::lemma_txs_payload_skip(full_txs, start as int);
                    crate::session::lemma_txs_payload_concat(
                        full_txs.subrange(start as int, m + 1),
                        full_txs.skip(m + 1),
                    );
                    assert(full_txs.subrange(start as int, m + 1) + full_txs.skip(m + 1)
                        =~= full_txs.skip(start as int));
                }
                tail = tail + txs[m].payload_len();
                m = m + 1;
            }
            proof {
                assert(txs_view(txs@).subrange(start as int, txs@.len() as int) =~= txs_view(
                    txs@,
                ).skip(start as int));
            }
        }
        proof {
            if start as int <= full_txs.len() && start < txs@.len() {
                assert(tail == txs_payload(full_txs.skip(start as int)));
            }
            if start as int == full_txs.len() {
                assert(full_txs.skip(start as int) =~= Seq::<TransactionV>::empty());
                assert(tail == txs_payload(full_txs.skip(start as int)));
            }
            assert(tail_start(sa0) == start as int);
            if start as int <= full_txs.len() {
                assert(tail == tail_size(full_txs, sa0));
            } else {
                assert(tail == 0);
                assert(tail == tail_size(full_txs, sa0));
            }
        }
        if tail > MAX_RECOMMENDED_TX_SIZE {
            proof {
                assert(tail == tail_size(full_txs, sa0));
                if full_txs.len() < tail_start(sa0) {
                    assert(tail_size(full_txs, sa0) == 0);
                }
                if full_txs.len() == tail_start(sa0) {
                    assert(full_txs.skip(tail_start(sa0)).len() == 0);
                    assert(tail_size(full_txs, sa0) == 0);
                }
                assert(full_txs.len() > tail_start(sa0));
                assert(txs_view(txs@).len() == txs@.len());
                assert(txs@.len() > 0);
            }
            let last = txs.len() - 1;
            sa.set(last, Some(new_signature.duplicate()));
            proof {
                assert(sigs_view(sa@) =~= sa0.update(
                    full_txs.len() - 1,
                    Some(new_signature@),
                ));
            }
        }
        let new_log = SessionLog {
            transactions: txs,
            last_hash: Some(expected_new_hash),
            streaming_hash: new_streaming_hash,
            signature_after: sa,
            last_signature: new_signature.duplicate(),
        };
        proof {
            crate::session::lemma_txs_canon_concat(old_log.transactions, new_txs_v);
            let expect = appended_log(old_log, new_txs_v, new_signature@);
            assert(new_log@.transactions == expect.transactions);
            assert(new_log@.consumed == expect.consumed);
            assert(new_log@.last_hash == expect.last_hash);
            assert(new_log@.signature_after == expect.signature_after);
            assert(new_log@.last_signature == expect.last_signature);
            assert(new_log@ == expect);
            assert(new_log@.signature_after.len() == new_log@.transactions.len());
            assert forall|ii: int| 0 <= ii < new_log@.signature_after.len() implies match (
            #[trigger] new_log@.signature_after[ii]) {
                Some(x) => x.len() == crate::crypto::SIGNATURE_LENGTH,
                None => true,
            } by {
                if ii < old_log.signature_after.len() {
                    assert(sa0[ii] == old_log.signature_after[ii]);
                }
            }
            assert(log_wf(new_log@));
        }
        self.sessions.set(session_id, new_log);
        self.cached_known_state = None;
        self.cached_new_content_since_empty = None;
        proof {
            assert forall|j: int| 0 <= j < self.sessions@.len() implies log_wf(
                (#[trigger] self.sessions@[j]).1,
            ) by {
            }
        }
    }

    /// Verifies and appends new transactions to one session.
    ///
    /// With `skip_verify` set and both the expected hash and the extended
    /// hasher supplied (as when replaying from trusted local storage), the
    /// append commits without re-checking; otherwise the chain is
    /// recomputed, compared with the caller's expected hash if one was
    /// given, and the signature over the new head's textual form is
    /// verified.  On success the session log is extended exactly as
    /// `appended_log` describes (so its rolling hash digests the full
    /// transcript and its head signature is the new one); on failure the
    /// state is unchanged and the error says what was wrong.
    pub fn try_add_transactions(
        &mut self,
        session_id: &SessionID,
        signer_id: &SignerID,
        new_transactions: &Vec<Transaction>,
        given_expected_new_hash: &Option<crate::crypto::Hash>,
        new_signature: &Signature,
        skip_verify: &Option<bool>,
        given_new_streaming_hash: &Option<StreamingHash>,
    ) -> (r: Result<(), CoValueError>)
        requires
            old(self).wf(),
            signer_id.wf(),
            new_signature.wf(),
            txs_payload(log_or_empty(old(self)@.sessions, session_id@).transactions)
                + txs_payload(txs_view(new_transactions@)) <= usize::MAX,
            *skip_verify == Some(true) ==> match *given_new_streaming_hash {
                Some(h) => h.consumed_bytes() == log_or_empty(
                    old(self)@.sessions,
                    session_id@,
                ).consumed + txs_canon(txs_view(new_transactions@)),
                None => true,
            },
        ensures
            final(self)@.id == old(self)@.id,
            final(self)@.header == old(self)@.header,
            r is Ok <==> (if *skip_verify == Some(true) && *given_new_streaming_hash is Some
                && *given_expected_new_hash is Some {
                (*given_expected_new_hash)->0@ == expected_digest(
                    old(self)@,
                    session_id@,
                    txs_view(new_transactions@),
                )
            } else {
                append_ok(
                    old(self)@,
                    session_id@,
                    txs_view(new_transactions@),
                    match *given_expected_new_hash {
                        Some(g) => Some(g@),
                        None => None,
                    },
                    signer_id@,
                    new_signature@,
                )
            }),
            r is Ok ==> final(self)@.sessions == crate::smap::am_set(
                old(self)@.sessions,
                session_id@,
                appended_log(
                    log_or_empty(old(self)@.sessions, session_id@),
                    txs_view(new_transactions@),
                    new_signature@,
                ),
            ) && crate::smap::am_find(final(self)@.sessions, session_id@) == Some(
                appended_log(
                    log_or_empty(old(self)@.sessions, session_id@),
                    txs_view(new_transactions@),
                    new_signature@,
                ),
            ),
            r is Err ==> final(self)@ == old(self)@,
            final(self).wf(),
            r matches Err(e) ==> match e {
                CoValueError::HashMismatch { covalue_id, expected, actual } => {
                    &&& match *given_expected_new_hash {
                        Some(g) => g@ != expected_digest(
                            old(self)@,
                            session_id@,
                            txs_view(new_transactions@),
                        ) && expected@ == g@,
                        None => false,
                    }
                    &&& covalue_id@ == old(self)@.id
                    &&& actual@ == expected_digest(
                        old(self)@,
                        session_id@,
                        txs_view(new_transactions@),
                    )
                },
                CoValueError::SignatureInvalid => {
                    &&& match *given_expected_new_hash {
                        Some(g) => g@ == expected_digest(
                            old(self)@,
                            session_id@,
                            txs_view(new_transactions@),
                        ),
                        None => true,
                    }
                    &&& !ed25519_verifies(
                        signer_id@,
                        signed_message(
                            expected_digest(
                                old(self)@,
                                session_id@,
                                txs_view(new_transactions@),
                            ),
                        ),
                        new_signature@,
                    )
                },
                _ => false,
            },
    {
        let skip = match skip_verify {
            Some(true) => true,
            _ => false,
        };
        if skip {
            match (given_new_streaming_hash, given_expected_new_hash) {
                (Some(hasher), Some(hash)) => {
                    let hasher_copy = hasher.clone_state();
                    let digest = hasher_copy.digest();
                    if crate::crypto::bytes_eq(hash.as_bytes(), digest.as_bytes()) {
                        self.do_add_transactions(
                            session_id,
                            new_transactions,
                            new_signature,
                            digest,
                            hasher_copy,
                        );
                        proof {
                            crate::smap::lemma_am_set_props(
                                old(self)@.sessions,
                                session_id@,
                                appended_log(
                                    log_or_empty(old(self)@.sessions, session_id@),
                                    txs_view(new_transactions@),
                                    new_signature@,
                                ),
                            );
                        }
                        return Ok(());
                    } else {
                        return Err(
                            CoValueError::HashMismatch {
                                covalue_id: self.id.duplicate(),
                                expected: hash.duplicate(),
                                actual: digest,
                            },
                        );
                    }
                },
                _ => {},
            }
        }
        let exp = self.expected_new_hash_after(session_id, new_transactions);
        if let Some(given) = given_expected_new_hash {
            if !crate::crypto::bytes_eq(given.as_bytes(), exp.expected_new_hash.as_bytes()) {
                return Err(
                    CoValueError::HashMismatch {
                        covalue_id: self.id.duplicate(),
                        expected: given.duplicate(),
                        actual: exp.expected_new_hash.duplicate(),
                    },
                );
            }
        }
        let text = exp.expected_new_hash.to_text();
        let message = JsonValue::Text(text);
        match signer_id.verify(&message, new_signature) {
            Ok(()) => {},
            Err(e) => {
                return Err(e);
            },
        }
        self.do_add_transactions(
            session_id,
            new_transactions,
            new_signature,
            exp.expected_new_hash,
            exp.new_streaming_hash,
        );
        proof {
            crate::smap::lemma_am_set_props(
                old(self)@.sessions,
                session_id@,
                appended_log(
                    log_or_empty(old(self)@.sessions, session_id@),
                    txs_view(new_transactions@),
                    new_signature@,
                ),
            );
        }
        Ok(())
    }

    /// The first populated checkpoint slot at or after the peer's cursor:
    /// the sent cursor when one is tracked, the peer's known count
    /// otherwise, zero failing both.
    pub fn get_known_signature_idx(
        log: &SessionLog,
        known_state_for_session_id: Option<&usize>,
        sent_state_for_session_id: Option<&usize>,
    ) -> (r: Option<usize>)
        ensures
            ({
                let cursor: usize = match sent_state_for_session_id {
                    Some(s) => *s,
                    None => match known_state_for_session_id {
                        Some(c) => *c,
                        None => 0,
                    },
                };
                match r {
                    Some(j) => (j as int) < log@.signature_after.len() && j >= cursor
                        && log@.signature_after[j as int] is Some && (forall|m: int|
                        cursor <= m < j ==> (#[trigger] log@.signature_after[m]) is None),
                    None => forall|m: int|
                        cursor <= m < log@.signature_after.len() ==> (
                        #[trigger] log@.signature_after[m]) is None,
                }
            }),
    {
        let cursor: usize = match sent_state_for_session_id {
            Some(s) => *s,
            None => match known_state_for_session_id {
                Some(c) => *c,
                None => 0,
            },
        };
        let total = log.signature_after.len();
        let mut j: usize = cursor;
        while j < total
            invariant
                cursor <= j,
                cursor == (match sent_state_for_session_id {
                    Some(s) => *s,
                    None => match known_state_for_session_id {
                        Some(c) => *c,
                        None => 0usize,
                    },
                }),
                total == log@.signature_after.len(),
                forall|m: int| cursor <= m < j ==> (#[trigger] log@.signature_after[m]) is None,
            decreases total - j,
        {
            let populated = match &log.signature_after[j] {
                Some(_) => true,
                None => false,
            };
            proof {
                assert(log@.signature_after[j as int] == (match log.signature_after@[j as int] {
                    Some(sig) => Some(sig@),
                    None => None,
                }));
            }
            if populated {
                return Some(j);
            }
            j = j + 1;
        }
        None
    }

    /// Everything the peer lacks, as an ordered list of content pieces.
    ///
    /// The first piece carries the header exactly when the peer lacks it;
    /// within a bounded payload budget per piece, each session contributes
    /// gap-free slices that run from what the peer knows to the session
    /// head, each slice ending at a signature checkpoint or at the head
    /// with the matching signature.  Nothing comes back exactly when the
    /// peer has the header and the state holds no sessions.  The answer
    /// for a peer that knows nothing is memoised until the next append.
    #[verifier::rlimit(100)]
    pub fn new_content_since(&mut self, known_state: &Option<CoValueKnownState>) -> (r: Option<
        Vec<SyncMessage>,
    >)
        requires
            old(self).wf(),
        ensures
            final(self)@ == old(self)@,
            final(self).wf(),
            r matches Some(msgs) ==> crate::diff::content_post(
                old(self)@,
                peer_view(*known_state),
                crate::sync::msgs_view(msgs@),
            ) && msgs@.len() >= 1,
            r is None <==> (crate::diff::peer_has_header(peer_view(*known_state))
                && old(self)@.sessions.len() == 0),
    {
        let peer_is_empty: bool = match known_state {
            Some(ks) => ks.is_empty(),
            None => true,
        };
        if peer_is_empty {
            match &self.cached_new_content_since_empty {
                Some(cached) => {
                    let out = crate::sync::duplicate_messages(cached);
                    proof {
                        let pv = peer_view(*known_state);
                        if pv is Some {
                            crate::diff::lemma_content_post_empty_peer(
                                self@,
                                pv->0,
                                crate::sync::msgs_view(out@),
                            );
                        }
                    }
                    return Some(out);
                },
                None => {},
            }
        }
        let has_header: bool = match known_state {
            Some(ks) => ks.header,
            None => false,
        };
        let ghost sv = self@.sessions;
        let ghost peerv = peer_view(*known_state);
        proof {
            assert(has_header == crate::diff::peer_has_header(peerv));
        }
        let n = self.sessions.len();
        let mut sent: Vec<usize> = Vec::new();
        let mut i0: usize = 0;
        while i0 < n
            invariant
                i0 <= n,
                n == sv.len(),
                sv == self@.sessions,
                peerv == peer_view(*known_state),
                sent@.len() == i0,
                forall|j: int|
                    0 <= j < i0 ==> (#[trigger] sent@[j]) as nat == crate::diff::peer_base(
                        peerv,
                        sv[j].0,
                    ),
            decreases n - i0,
        {
            let pair = self.sessions.entry_at(i0);
            let b: usize = match known_state {
                Some(ks) => match ks.sessions.get(pair.0) {
                    Some(c) => c,
                    None => 0,
                },
                None => 0,
            };
            sent.push(b);
            i0 = i0 + 1;
        }
        let mut pieces: Vec<ContentMap> = Vec::new();
        pieces.push(ContentMap::new());
        let mut piece_size: usize = 0;
        let mut first_pass: bool = true;
        let mut todo: Vec<usize> = Vec::new();
        let mut i1: usize = 0;
        while i1 < n
            invariant
                i1 <= n,
                todo@.len() == i1,
                forall|j: int| 0 <= j < i1 ==> (#[trigger] todo@[j]) == j,
            decreases n - i1,
        {
            todo.push(i1);
            i1 = i1 + 1;
        }
        proof {
            assert(crate::diff::cmaps_view(pieces@) =~= seq![
                Seq::<(SidV, crate::sync::SessionNewContentV)>::empty(),
            ]);
            assert forall|ii: int| 0 <= ii < sv.len() implies crate::diff::diff_sess_inv(
                self@,
                peerv,
                crate::diff::cmaps_view(pieces@),
                sent@,
                ii,
            ) by {
                let k = sv[ii].0;
                let maps = crate::diff::cmaps_view(pieces@);
                assert(maps.len() == 1);
                assert(maps.last() =~= Seq::<(SidV, crate::sync::SessionNewContentV)>::empty());
                assert(crate::smap::am_find(maps.last(), k) is None);
                assert(maps.drop_last() =~= Seq::<
                    Seq<(SidV, crate::sync::SessionNewContentV)>,
                >::empty());
                assert(crate::diff::entries_for_maps(maps.drop_last(), k) =~= Seq::<
                    crate::sync::SessionNewContentV,
                >::empty());
                assert(crate::diff::entries_for_maps(maps, k) =~= Seq::<
                    crate::sync::SessionNewContentV,
                >::empty());
            }
            assert(crate::diff::diff_inv(self@, peerv, crate::diff::cmaps_view(pieces@), sent@));
            assert forall|ii: int| 0 <= ii < n implies #[trigger] crate::diff::contains_idx(
                todo@,
                ii,
            ) by {
                assert(0 <= ii < todo@.len() && todo@[ii] == ii);
            }
            assert(crate::diff::cmaps_view(pieces@).last() =~= Seq::<
                (SidV, crate::sync::SessionNewContentV),
            >::empty());
            assert(crate::diff::map_payload(crate::diff::cmaps_view(pieces@).last()) == 0);
            assert forall|p: int| 0 <= p < crate::diff::cmaps_view(pieces@).len() implies
                crate::diff::piece_ok(self@, #[trigger] crate::diff::cmaps_view(pieces@)[p])
                && crate::diff::entries_empty_ok(
                self@,
                peerv,
                crate::diff::cmaps_view(pieces@)[p],
            ) by {
                assert(crate::diff::cmaps_view(pieces@)[p] =~= Seq::<
                    (SidV, crate::sync::SessionNewContentV),
                >::empty());
            }
        }
        while todo.len() > 0
            invariant
                n == sv.len(),
                sv == self@.sessions,
                sm_wf(sv),
                peerv == peer_view(*known_state),
                sent@.len() == n,
                crate::diff::diff_inv(self@, peerv, crate::diff::cmaps_view(pieces@), sent@),
                forall|t: int| 0 <= t < todo@.len() ==> (#[trigger] todo@[t]) < n,
                forall|ii: int|
                    0 <= ii < n ==> #[trigger] crate::diff::contains_idx(todo@, ii)
                        || sent@[ii] as nat == crate::diff::diff_target(
                        sv[ii].1,
                        crate::diff::peer_base(peerv, sv[ii].0),
                    ),
                forall|ii: int|
                    0 <= ii < n ==> #[trigger] crate::diff::contains_idx(todo@, ii)
                        || crate::diff::entries_for_maps(
                        crate::diff::cmaps_view(pieces@),
                        sv[ii].0,
                    ).len() >= 1,
                n == 0 ==> pieces@.len() == 1 && pieces@[0]@.len() == 0,
                piece_size as nat == crate::diff::map_payload(
                    crate::diff::cmaps_view(pieces@).last(),
                ),
                forall|p: int|
                    0 <= p < crate::diff::cmaps_view(pieces@).len() ==> crate::diff::piece_ok(
                        self@,
                        #[trigger] crate::diff::cmaps_view(pieces@)[p],
                    ),
                forall|p: int|
                    0 <= p < crate::diff::cmaps_view(pieces@).len()
                        ==> crate::diff::entries_empty_ok(
                        self@,
                        peerv,
                        #[trigger] crate::diff::cmaps_view(pieces@)[p],
                    ),
                first_pass ==> todo@.len() == n && (forall|j: int|
                    0 <= j < n ==> (#[trigger] todo@[j]) == j) && (forall|ii: int|
                    0 <= ii < n ==> (#[trigger] sent@[ii]) as nat == crate::diff::peer_base(
                        peerv,
                        sv[ii].0,
                    )),
                !first_pass ==> forall|ii: int|
                    0 <= ii < n ==> crate::diff::entries_for_maps(
                        crate::diff::cmaps_view(pieces@),
                        (#[trigger] sv[ii]).0,
                    ).len() >= 1,
            decreases crate::diff::rem_from(sv, sent@, 0), todo@.len(),
        {
            let ghost sent_pass0 = sent@;
            proof {
                assert(todo@[0] < n);
                assert(todo@.skip(0) =~= todo@);
            }
            let mut next_todo: Vec<usize> = Vec::new();
            let mut t: usize = 0;
            while t < todo.len()
                invariant
                    n == sv.len(),
                    sv == self@.sessions,
                    sm_wf(sv),
                    peerv == peer_view(*known_state),
                    sent@.len() == n,
                    crate::diff::diff_inv(self@, peerv, crate::diff::cmaps_view(pieces@), sent@),
                    t <= todo@.len(),
                    n > 0,
                    forall|tt: int| 0 <= tt < todo@.len() ==> (#[trigger] todo@[tt]) < n,
                    forall|tt: int| 0 <= tt < next_todo@.len() ==> (#[trigger] next_todo@[tt]) < n,
                    crate::diff::rem_from(sv, sent@, 0) <= crate::diff::rem_from(
                        sv,
                        sent_pass0,
                        0,
                    ),
                    next_todo@.len() > 0 ==> crate::diff::rem_from(sv, sent@, 0)
                        < crate::diff::rem_from(sv, sent_pass0, 0),
                    forall|ii: int|
                        0 <= ii < n ==> #[trigger] crate::diff::contains_idx(
                            todo@.skip(t as int),
                            ii,
                        ) || crate::diff::contains_idx(next_todo@, ii) || sent@[ii] as nat
                            == crate::diff::diff_target(
                            sv[ii].1,
                            crate::diff::peer_base(peerv, sv[ii].0),
                        ),
                    forall|ii: int|
                        0 <= ii < n ==> #[trigger] crate::diff::contains_idx(
                            todo@.skip(t as int),
                            ii,
                        ) || crate::diff::entries_for_maps(
                            crate::diff::cmaps_view(pieces@),
                            sv[ii].0,
                        ).len() >= 1,
                    piece_size as nat == crate::diff::map_payload(
                        crate::diff::cmaps_view(pieces@).last(),
                    ),
                    forall|p: int|
                        0 <= p < crate::diff::cmaps_view(pieces@).len() ==> crate::diff::piece_ok(
                            self@,
                            #[trigger] crate::diff::cmaps_view(pieces@)[p],
                        ),
                    forall|p: int|
                        0 <= p < crate::diff::cmaps_view(pieces@).len()
                            ==> crate::diff::entries_empty_ok(
                            self@,
                            peerv,
                            #[trigger] crate::diff::cmaps_view(pieces@)[p],
                        ),
                    first_pass ==> todo@.len() == n && (forall|j: int|
                        0 <= j < n ==> (#[trigger] todo@[j]) == j),
                    first_pass ==> forall|ii: int|
                        0 <= ii < n && #[trigger] crate::diff::contains_idx(
                            todo@.skip(t as int),
                            ii,
                        ) ==> sent@[ii] as nat == crate::diff::peer_base(peerv, sv[ii].0),
                    first_pass ==> forall|ii: int|
                        0 <= ii < n ==> #[trigger] crate::diff::contains_idx(
                            todo@.skip(t as int),
                            ii,
                        ) || crate::diff::entries_for_maps(
                            crate::diff::cmaps_view(pieces@),
                            sv[ii].0,
                        ).len() >= 1,
                    !first_pass ==> forall|ii: int|
                        0 <= ii < n ==> crate::diff::entries_for_maps(
                            crate::diff::cmaps_view(pieces@),
                            (#[trigger] sv[ii]).0,
                        ).len() >= 1,
                decreases todo@.len() - t,
            {
                let i = todo[t];
                let pair = self.sessions.entry_at(i);
                let sid = pair.0;
                let log = pair.1;
                let ghost k = sv[i as int].0;
                let ghost logv = sv[i as int].1;
                let ghost base = crate::diff::peer_base(peerv, k);
                proof {
                    assert(log_wf(logv));
                    assert(crate::diff::diff_sess_inv(
                        self@,
                        peerv,
                        crate::diff::cmaps_view(pieces@),
                        sent@,
                        i as int,
                    ));
                    assert(logv.signature_after.len() == logv.transactions.len());
                }
                let s = sent[i];
                let len = log.transaction_count();
                let cp = Self::get_known_signature_idx(log, None, Some(&s));
                let after_last: usize;
                let n_new: usize;
                match cp {
                    Some(j) => {
                        after_last = j + 1;
                        n_new = j + 1 - s;
                    },
                    None => {
                        after_last = len;
                        n_new = if len > s {
                            len - s
                        } else {
                            0
                        };
                    },
                }
                let txs_src = log.transactions();
                let mut slice_size: usize = 0;
                let hi = s + n_new;
                if n_new > 0 {
                    proof {
                        assert(txs_payload(logv.transactions) <= usize::MAX);
                        assert(logv.transactions.subrange(s as int, s as int) =~= Seq::<
                            TransactionV,
                        >::empty());
                    }
                    let mut m = s;
                    while m < hi
                        invariant
                            s <= m <= hi,
                            hi <= logv.transactions.len(),
                            txs_view(txs_src@) == logv.transactions,
                            txs_payload(logv.transactions) <= usize::MAX,
                            slice_size == txs_payload(
                                logv.transactions.subrange(s as int, m as int),
                            ),
                        decreases hi - m,
                    {
                        proof {
                            let sub = logv.transactions.subrange(s as int, m + 1);
                            assert(sub.drop_last() =~= logv.transactions.subrange(
                                s as int,
                                m as int,
                            ));
                            assert(sub.last() == logv.transactions[m as int]);
                            crate::session::lemma_txs_payload_skip(logv.transactions, s as int);
                            crate::session::lemma_txs_payload_concat(
                                logv.transactions.subrange(s as int, m + 1),
                                logv.transactions.skip(m + 1),
                            );
                            assert(logv.transactions.subrange(s as int, m + 1)
                                + logv.transactions.skip(m + 1) =~= logv.transactions.skip(
                                s as int,
                            ));
                            assert(txs_view(txs_src@)[m as int] == txs_src@[m as int]@);
                        }
                        slice_size = slice_size + txs_src[m].payload_len();
                        m = m + 1;
                    }
                }
                let new_sent = if n_new > 0 {
                    after_last
                } else {
                    s
                };
                let scheduled = after_last < len;
                let write_entry = n_new > 0 || first_pass;
                let ghost sent_before = sent@;
                let ghost nt_before = next_todo@;
                if write_entry {
                    let ghost maps_before_roll = crate::diff::cmaps_view(pieces@);
                    let ghost ps_before = piece_size as nat;
                    let new_size = if piece_size <= usize::MAX - slice_size {
                        piece_size + slice_size
                    } else {
                        usize::MAX
                    };
                    let ghost rolled = new_size >= MAX_RECOMMENDED_TX_SIZE;
                    if new_size >= MAX_RECOMMENDED_TX_SIZE {
                        pieces.push(ContentMap::new());
                        piece_size = slice_size;
                        proof {
                            assert(crate::diff::cmaps_view(pieces@) =~= maps_before_roll.push(Seq::<
                                (SidV, crate::sync::SessionNewContentV),
                            >::empty()));
                            assert forall|kk: SidV| #[trigger] crate::diff::entries_for_maps(
                                crate::diff::cmaps_view(pieces@),
                                kk,
                            ) == crate::diff::entries_for_maps(maps_before_roll, kk) by {
                                crate::diff::lemma_efm_snoc(maps_before_roll, Seq::empty(), kk);
                                assert(crate::diff::entries_for_maps(maps_before_roll, kk) + Seq::<
                                    crate::sync::SessionNewContentV,
                                >::empty() =~= crate::diff::entries_for_maps(maps_before_roll, kk));
                            }
                        }
                    } else {
                        piece_size = new_size;
                    }
                    let ghost maps_cur = crate::diff::cmaps_view(pieces@);
                    proof {
                        assert forall|ii: int| 0 <= ii < n implies crate::diff::diff_sess_inv(
                            self@,
                            peerv,
                            maps_cur,
                            sent@,
                            ii,
                        ) by {
                            assert(crate::diff::diff_sess_inv(
                                self@,
                                peerv,
                                maps_before_roll,
                                sent@,
                                ii,
                            ));
                        }
                        assert forall|p: int| 0 <= p < maps_cur.len() implies crate::diff::map_ok(
                            self@,
                            #[trigger] maps_cur[p],
                        ) by {
                            if p < maps_before_roll.len() {
                                assert(maps_cur[p] == maps_before_roll[p]);
                            } else {
                                assert(maps_cur[p] =~= Seq::<
                                    (SidV, crate::sync::SessionNewContentV),
                                >::empty());
                            }
                        }
                        assert forall|p: int|
                            1 <= p < maps_cur.len() && p != maps_cur.len() - 1 implies (
                        #[trigger] maps_cur[p]).len() > 0 by {
                            assert(maps_cur[p] == maps_before_roll[p]);
                        }
                        assert forall|p: int| 0 <= p < maps_cur.len() implies crate::diff::piece_ok(
                            self@,
                            #[trigger] maps_cur[p],
                        ) && crate::diff::entries_empty_ok(self@, peerv, maps_cur[p]) by {
                            if p < maps_before_roll.len() {
                                assert(maps_cur[p] == maps_before_roll[p]);
                            } else {
                                assert(maps_cur[p] =~= Seq::<
                                    (SidV, crate::sync::SessionNewContentV),
                                >::empty());
                                assert(crate::diff::map_payload(maps_cur[p]) == 0);
                            }
                        }
                        if rolled {
                            assert(maps_cur.last() =~= Seq::<
                                (SidV, crate::sync::SessionNewContentV),
                            >::empty());
                            assert(crate::diff::map_payload(maps_cur.last()) == 0);
                        } else {
                            assert(maps_cur == maps_before_roll);
                        }
                    }
                    let last_idx = pieces.len() - 1;
                    let existing = pieces[last_idx].get_entry(sid);
                    let ghost had_existing = existing is Some;
                    let ghost old_entry = if existing is Some {
                        existing->0@
                    } else {
                        crate::sync::SessionNewContentV {
                            after: s,
                            new_transactions: Seq::empty(),
                            last_signature: Seq::empty(),
                        }
                    };
                    let mut entry: crate::sync::SessionNewContent = match existing {
                        Some(e) => e,
                        None => crate::sync::SessionNewContent {
                            after: s,
                            new_transactions: Vec::new(),
                            last_signature: Signature::zero(),
                        },
                    };
                    let ghost entry_txs0 = txs_view(entry.new_transactions@);
                    proof {
                        if !had_existing {
                            assert(entry_txs0 =~= Seq::<TransactionV>::empty());
                        }
                    }
                    if n_new > 0 {
                        let mut m2 = s;
                        while m2 < hi
                            invariant
                                s <= m2 <= hi,
                                hi == s + n_new,
                                hi <= logv.transactions.len(),
                                txs_view(txs_src@) == logv.transactions,
                                entry.after == (if had_existing {
                                    old_entry.after
                                } else {
                                    s
                                }),
                                txs_view(entry.new_transactions@) == entry_txs0
                                    + logv.transactions.subrange(s as int, m2 as int),
                            decreases hi - m2,
                        {
                            let ghost txs_before = entry.new_transactions@;
                            entry.new_transactions.push(txs_src[m2].duplicate());
                            proof {
                                assert(txs_view(entry.new_transactions@) =~= txs_view(
                                    txs_before,
                                ).push(entry.new_transactions@.last()@));
                                assert(entry.new_transactions@.last()@ == logv.transactions[m2 as int]);
                                assert(entry_txs0 + logv.transactions.subrange(s as int, m2 + 1) =~= (
                                entry_txs0 + logv.transactions.subrange(s as int, m2 as int)).push(
                                    logv.transactions[m2 as int],
                                ));
                            }
                            m2 = m2 + 1;
                        }
                    } else {
                        proof {
                            assert(txs_view(entry.new_transactions@) == entry_txs0);
                        }
                    }
                    match cp {
                        Some(j) => {
                            proof {
                                assert((j as int) < log.signature_after@.len());
                            }
                            match &log.signature_after[j] {
                                Some(sig) => {
                                    entry.last_signature = sig.duplicate();
                                    proof {
                                        assert(logv.signature_after[j as int] == (
                                        match log.signature_after@[j as int] {
                                            Some(x) => Some(x@),
                                            None => None,
                                        }));
                                    }
                                },
                                None => {
                                    proof {
                                        assert(logv.signature_after[j as int] == (
                                        match log.signature_after@[j as int] {
                                            Some(x) => Some(x@),
                                            None => None,
                                        }));
                                        assert(false);
                                    }
                                    entry.last_signature = Signature::zero();
                                },
                            }
                        },
                        None => {
                            entry.last_signature = log.last_signature.duplicate();
                        },
                    }
                    let ghost entry_v = entry@;
                    let ghost cp_used: Option<int> = match cp {
                        Some(j) => Some(j as int),
                        None => None,
                    };
                    proof {
                        if n_new > 0 {
                            assert(txs_view(entry.new_transactions@) == entry_txs0
                                + logv.transactions.subrange(s as int, s + n_new));
                        }
                        crate::diff::lemma_diff_step(
                            self@,
                            peerv,
                            maps_cur,
                            sent@,
                            i as int,
                            entry_v,
                            had_existing,
                            old_entry,
                            s,
                            n_new,
                            cp_used,
                            new_sent,
                        );
                    }
                    let cur = &mut pieces[last_idx];
                    proof {
                        assert(cur@ == maps_cur.last());
                        assert(am_keys_unique(cur@));
                    }
                    cur.set(sid, entry);
                    sent.set(i, new_sent);
                    if scheduled {
                        next_todo.push(i);
                    }
                    proof {
                        let maps_new = maps_cur.update(
                            maps_cur.len() - 1,
                            crate::smap::am_set(maps_cur.last(), k, entry_v),
                        );
                        assert(crate::diff::cmaps_view(pieces@) =~= maps_new);
                        assert(sent@ =~= sent_before.update(i as int, new_sent));
                        assert(crate::diff::diff_inv(
                            self@,
                            peerv,
                            crate::diff::cmaps_view(pieces@),
                            sent@,
                        ));
                        assert(crate::diff::diff_sess_inv(
                            self@,
                            peerv,
                            crate::diff::cmaps_view(pieces@),
                            sent@,
                            i as int,
                        ));
                        if scheduled {
                            assert(next_todo@.last() == i);
                            assert(n_new > 0);
                        } else {
                            if n_new > 0 {
                                assert(after_last >= len);
                                assert(new_sent as nat == logv.transactions.len());
                                assert(base <= s < logv.transactions.len());
                            } else {
                                assert(new_sent == s);
                                if base > logv.transactions.len() {
                                    assert(crate::diff::diff_target(logv, base) == base);
                                    assert(base <= s);
                                    assert(s as nat <= crate::diff::diff_target(logv, base));
                                    assert(s == base);
                                } else {
                                    assert(s as nat >= logv.transactions.len());
                                    assert(s as nat <= crate::diff::diff_target(logv, base));
                                }
                            }
                            assert(sent@[i as int] as nat == crate::diff::diff_target(logv, base));
                        }
                        assert forall|ii: int| 0 <= ii < n implies #[trigger] crate::diff::contains_idx(
                            todo@.skip(t + 1),
                            ii,
                        ) || crate::diff::contains_idx(next_todo@, ii) || sent@[ii] as nat
                            == crate::diff::diff_target(
                            sv[ii].1,
                            crate::diff::peer_base(peerv, sv[ii].0),
                        ) by {
                            if ii == i {
                                if scheduled {
                                    assert(crate::diff::contains_idx(next_todo@, ii)) by {
                                        assert(next_todo@[next_todo@.len() - 1] == ii);
                                    }
                                }
                            } else {
                                assert(sent@[ii] == sent_before[ii]);
                                if crate::diff::contains_idx(todo@.skip(t as int), ii) {
                                    let tt = choose|tt: int|
                                        0 <= tt < todo@.skip(t as int).len() && (
                                        #[trigger] todo@.skip(t as int)[tt]) == ii;
                                    assert(todo@.skip(t as int)[tt] == todo@[t + tt]);
                                    assert(tt != 0);
                                    assert(crate::diff::contains_idx(todo@.skip(t + 1), ii)) by {
                                        assert(todo@.skip(t + 1)[tt - 1] == todo@[t + tt]);
                                    }
                                } else if crate::diff::contains_idx(nt_before, ii) {
                                    let tt = choose|tt: int|
                                        0 <= tt < nt_before.len() && (#[trigger] nt_before[tt])
                                            == ii;
                                    assert(crate::diff::contains_idx(next_todo@, ii)) by {
                                        assert(next_todo@[tt] == nt_before[tt]);
                                    }
                                }
                            }
                        }
                        assert forall|ii: int| 0 <= ii < n implies #[trigger] crate::diff::contains_idx(
                            todo@.skip(t + 1),
                            ii,
                        ) || (crate::diff::entries_for_maps(
                            crate::diff::cmaps_view(pieces@),
                            sv[ii].0,
                        ).len() >= 1) by {
                            if ii == i {
                                assert(crate::diff::entries_for_maps(maps_new, sv[ii].0).len() >= 1);
                            } else {
                                if crate::diff::contains_idx(todo@.skip(t as int), ii) {
                                    let tt = choose|tt: int|
                                        0 <= tt < todo@.skip(t as int).len() && (
                                        #[trigger] todo@.skip(t as int)[tt]) == ii;
                                    assert(todo@.skip(t as int)[tt] == todo@[t + tt]);
                                    assert(tt != 0);
                                    assert(crate::diff::contains_idx(todo@.skip(t + 1), ii)) by {
                                        assert(todo@.skip(t + 1)[tt - 1] == todo@[t + tt]);
                                    }
                                } else {
                                    if sv[ii].0 != k {
                                        assert(crate::diff::entries_for_maps(maps_new, sv[ii].0)
                                            == crate::diff::entries_for_maps(maps_cur, sv[ii].0));
                                    } else {
                                        assert(crate::diff::entries_for_maps(maps_new, sv[ii].0).len()
                                            >= 1);
                                    }
                                }
                            }
                        }
                        // payload bookkeeping for the current piece
                        let newlast = crate::smap::am_set(maps_cur.last(), k, entry_v);
                        assert(maps_new.last() == newlast);
                        crate::diff::lemma_map_payload_set(maps_cur.last(), k, entry_v);
                        let ghost slice_pay: nat = if n_new > 0 {
                            txs_payload(logv.transactions.subrange(s as int, s + n_new))
                        } else {
                            0
                        };
                        assert(slice_pay == slice_size as nat);
                        if n_new > 0 {
                            crate::session::lemma_txs_payload_concat(
                                entry_txs0,
                                logv.transactions.subrange(s as int, s + n_new),
                            );
                            assert(txs_payload(entry_v.new_transactions) == txs_payload(entry_txs0)
                                + slice_pay);
                        } else {
                            assert(txs_payload(entry_v.new_transactions) == txs_payload(entry_txs0));
                        }
                        if had_existing {
                            assert(crate::smap::am_find(maps_cur.last(), k) == Some(old_entry));
                            assert(old_entry.new_transactions == entry_txs0);
                        } else {
                            assert(txs_payload(entry_txs0) == 0);
                        }
                        assert(crate::diff::map_payload(newlast) == crate::diff::map_payload(
                            maps_cur.last(),
                        ) + slice_pay);
                        if rolled {
                            assert(crate::diff::map_payload(maps_cur.last()) == 0);
                            assert(piece_size as nat == slice_pay);
                        } else {
                            assert(crate::diff::map_payload(maps_cur.last()) == ps_before);
                            assert(piece_size <= usize::MAX - slice_size || new_size == usize::MAX);
                            assert(piece_size as nat == ps_before + slice_pay);
                        }
                        assert(piece_size as nat == crate::diff::map_payload(maps_new.last()));
                        // the size discipline for every piece
                        assert forall|p: int| 0 <= p < maps_new.len() implies crate::diff::piece_ok(
                            self@,
                            #[trigger] maps_new[p],
                        ) by {
                            if p < maps_new.len() - 1 {
                                assert(maps_new[p] == maps_cur[p]);
                            } else {
                                assert(maps_new[p] == newlast);
                                if rolled {
                                    if slice_pay >= MAX_RECOMMENDED_TX_SIZE {
                                        assert(!had_existing);
                                        assert(newlast =~= seq![(k, entry_v)]);
                                        crate::smap::lemma_am_find_at(sv, i as int);
                                        assert(crate::smap::am_find(self@.sessions, k) == Some(
                                            logv,
                                        ));
                                        assert(entry_v.new_transactions.len() > 0) by {
                                            if entry_v.new_transactions.len() == 0 {
                                                assert(txs_payload(entry_v.new_transactions) == 0);
                                            }
                                        }
                                        assert(entry_v.after == s);
                                        assert(n_new > 0);
                                        assert(entry_v.new_transactions.len() == n_new);
                                        assert forall|x: int|
                                            entry_v.after <= x < entry_v.after
                                                + entry_v.new_transactions.len() - 1 implies (0 <= x
                                            < logv.signature_after.len() ==> (
                                        #[trigger] logv.signature_after[x]) is None) by {
                                            match cp_used {
                                                Some(j) => {
                                                    assert(s <= x < j);
                                                },
                                                None => {},
                                            }
                                        }
                                        assert(crate::diff::single_slice_piece(self@, newlast));
                                    }
                                } else {
                                    assert(crate::diff::map_payload(newlast)
                                        < MAX_RECOMMENDED_TX_SIZE);
                                }
                            }
                        }
                        // empty entries stand only for fully known sessions
                        assert forall|p: int| 0 <= p < maps_new.len() implies
                            crate::diff::entries_empty_ok(self@, peerv, #[trigger] maps_new[p]) by {
                            if p < maps_new.len() - 1 {
                                assert(maps_new[p] == maps_cur[p]);
                            } else {
                                assert forall|mm: int|
                                    0 <= mm < newlast.len() && (#[trigger] newlast[mm]).1.new_transactions.len()
                                        == 0 implies match crate::smap::am_find(
                                    self@.sessions,
                                    newlast[mm].0,
                                ) {
                                    Some(lg) => crate::diff::peer_base(peerv, newlast[mm].0)
                                        >= lg.transactions.len(),
                                    None => true,
                                } by {
                                    crate::smap::lemma_am_set_entry(maps_cur.last(), k, entry_v, mm);
                                    if newlast[mm] == (k, entry_v) {
                                        if entry_v.new_transactions.len() == 0 {
                                            assert(n_new == 0);
                                            assert(entry_txs0.len() == 0);
                                            crate::smap::lemma_am_find_at(sv, i as int);
                                            if had_existing {
                                                crate::smap::lemma_am_find_index(
                                                    maps_cur.last(),
                                                    k,
                                                );
                                                let w = choose|w: int|
                                                    0 <= w < maps_cur.last().len() && (
                                                    #[trigger] maps_cur.last()[w]) == (
                                                    k,
                                                    old_entry,
                                                );
                                                assert(crate::diff::entries_empty_ok(
                                                    self@,
                                                    peerv,
                                                    maps_cur.last(),
                                                ));
                                                assert(old_entry.new_transactions.len() == 0);
                                            } else {
                                                assert(first_pass);
                                                assert(crate::diff::contains_idx(
                                                    todo@.skip(t as int),
                                                    i as int,
                                                )) by {
                                                    assert(todo@.skip(t as int)[0] == todo@[t as int]);
                                                }
                                                assert(sent_before[i as int] as nat == base);
                                                assert(s as nat == base);
                                                assert(s >= len);
                                            }
                                        }
                                    } else {
                                        let w = choose|w: int|
                                            0 <= w < maps_cur.last().len() && (
                                            #[trigger] maps_cur.last()[w]) == newlast[mm];
                                        assert(crate::diff::entries_empty_ok(
                                            self@,
                                            peerv,
                                            maps_cur.last(),
                                        ));
                                    }
                                }
                            }
                        }
                        // pass-one bookkeeping
                        if first_pass {
                            assert forall|ii: int|
                                0 <= ii < n && #[trigger] crate::diff::contains_idx(
                                    todo@.skip(t + 1),
                                    ii,
                                ) implies sent@[ii] as nat == crate::diff::peer_base(
                                peerv,
                                sv[ii].0,
                            ) by {
                                let tt = choose|tt: int|
                                    0 <= tt < todo@.skip(t + 1).len() && (
                                    #[trigger] todo@.skip(t + 1)[tt]) == ii;
                                assert(todo@.skip(t + 1)[tt] == todo@[t + 1 + tt]);
                                assert(todo@[t + 1 + tt] == t + 1 + tt);
                                assert(ii != i);
                                assert(crate::diff::contains_idx(todo@.skip(t as int), ii)) by {
                                    assert(todo@.skip(t as int)[tt + 1] == todo@[t + 1 + tt]);
                                }
                                assert(sent@[ii] == sent_before[ii]);
                            }
                            assert forall|ii: int| 0 <= ii < n implies #[trigger] crate::diff::contains_idx(
                                todo@.skip(t + 1),
                                ii,
                            ) || crate::diff::entries_for_maps(
                                crate::diff::cmaps_view(pieces@),
                                sv[ii].0,
                            ).len() >= 1 by {
                                if ii == i {
                                    assert(crate::diff::entries_for_maps(maps_new, sv[ii].0).len()
                                        >= 1);
                                } else if crate::diff::contains_idx(todo@.skip(t as int), ii) {
                                    let tt = choose|tt: int|
                                        0 <= tt < todo@.skip(t as int).len() && (
                                        #[trigger] todo@.skip(t as int)[tt]) == ii;
                                    assert(todo@.skip(t as int)[tt] == todo@[t + tt]);
                                    assert(tt != 0);
                                    assert(crate::diff::contains_idx(todo@.skip(t + 1), ii)) by {
                                        assert(todo@.skip(t + 1)[tt - 1] == todo@[t + tt]);
                                    }
                                } else {
                                    if sv[ii].0 != k {
                                        assert(crate::diff::entries_for_maps(maps_new, sv[ii].0)
                                            == crate::diff::entries_for_maps(maps_cur, sv[ii].0));
                                    } else {
                                        assert(crate::diff::entries_for_maps(
                                            maps_new,
                                            sv[ii].0,
                                        ).len() >= 1);
                                    }
                                }
                            }
                        } else {
                            assert forall|ii: int| 0 <= ii < n implies crate::diff::entries_for_maps(
                                crate::diff::cmaps_view(pieces@),
                                (#[trigger] sv[ii]).0,
                            ).len() >= 1 by {
                                if sv[ii].0 != k {
                                    assert(crate::diff::entries_for_maps(maps_new, sv[ii].0)
                                        == crate::diff::entries_for_maps(maps_cur, sv[ii].0));
                                } else {
                                    assert(crate::diff::entries_for_maps(maps_new, sv[ii].0).len()
                                        >= 1);
                                }
                            }
                        }
                    }
                } else {
                    proof {
                        assert(!first_pass);
                        assert(n_new == 0);
                        assert(after_last == len);
                        assert(len <= s);
                        assert(!scheduled);
                    }
                    sent.set(i, new_sent);
                    proof {
                        assert(sent_before[i as int] == s);
                        assert(sent@ =~= sent_before);
                        assert(crate::diff::diff_inv(
                            self@,
                            peerv,
                            crate::diff::cmaps_view(pieces@),
                            sent@,
                        ));
                        assert(crate::diff::diff_sess_inv(
                            self@,
                            peerv,
                            crate::diff::cmaps_view(pieces@),
                            sent@,
                            i as int,
                        ));
                        if base > logv.transactions.len() {
                            assert(crate::diff::diff_target(logv, base) == base);
                            assert(base <= s);
                            assert(s as nat <= crate::diff::diff_target(logv, base));
                            assert(s == base);
                        } else {
                            assert(s as nat >= logv.transactions.len());
                            assert(s as nat <= crate::diff::diff_target(logv, base));
                        }
                        assert(sent@[i as int] as nat == crate::diff::diff_target(logv, base));
                        assert forall|ii: int| 0 <= ii < n implies #[trigger] crate::diff::contains_idx(
                            todo@.skip(t + 1),
                            ii,
                        ) || crate::diff::contains_idx(next_todo@, ii) || sent@[ii] as nat
                            == crate::diff::diff_target(
                            sv[ii].1,
                            crate::diff::peer_base(peerv, sv[ii].0),
                        ) by {
                            if ii != i {
                                assert(sent@[ii] == sent_before[ii]);
                                if crate::diff::contains_idx(todo@.skip(t as int), ii) {
                                    let tt = choose|tt: int|
                                        0 <= tt < todo@.skip(t as int).len() && (
                                        #[trigger] todo@.skip(t as int)[tt]) == ii;
                                    assert(todo@.skip(t as int)[tt] == todo@[t + tt]);
                                    assert(tt != 0);
                                    assert(crate::diff::contains_idx(todo@.skip(t + 1), ii)) by {
                                        assert(todo@.skip(t + 1)[tt - 1] == todo@[t + tt]);
                                    }
                                }
                            }
                        }
                        assert forall|ii: int| 0 <= ii < n implies #[trigger] crate::diff::contains_idx(
                            todo@.skip(t + 1),
                            ii,
                        ) || (crate::diff::entries_for_maps(
                            crate::diff::cmaps_view(pieces@),
                            sv[ii].0,
                        ).len() >= 1) by {
                        }
                    }
                }
                t = t + 1;
            }
            let ghost todo_old = todo@;
            let ghost t_final = t as int;
            todo = next_todo;
            proof {
                assert(t_final == todo_old.len());
                assert(todo_old.skip(t_final) =~= Seq::<usize>::empty());
                assert forall|ii: int| 0 <= ii < n implies #[trigger] crate::diff::contains_idx(
                    todo@,
                    ii,
                ) || sent@[ii] as nat == crate::diff::diff_target(
                    sv[ii].1,
                    crate::diff::peer_base(peerv, sv[ii].0),
                ) by {
                    assert(!crate::diff::contains_idx(todo_old.skip(t_final), ii));
                }
                assert forall|ii: int| 0 <= ii < n implies #[trigger] crate::diff::contains_idx(
                    todo@,
                    ii,
                ) || crate::diff::entries_for_maps(
                    crate::diff::cmaps_view(pieces@),
                    sv[ii].0,
                ).len() >= 1 by {
                    assert(!crate::diff::contains_idx(todo_old.skip(t_final), ii));
                }
                if first_pass {
                    assert forall|ii: int| 0 <= ii < n implies crate::diff::entries_for_maps(
                        crate::diff::cmaps_view(pieces@),
                        (#[trigger] sv[ii]).0,
                    ).len() >= 1 by {
                        assert(!crate::diff::contains_idx(todo_old.skip(t_final), ii));
                    }
                }
            }
            first_pass = false;
        }
        proof {
            assert forall|ii: int| 0 <= ii < n implies (#[trigger] sent@[ii]) as nat
                == crate::diff::diff_target(
                sv[ii].1,
                crate::diff::peer_base(peerv, sv[ii].0),
            ) by {
                assert(!crate::diff::contains_idx(todo@, ii));
            }
            assert forall|ii: int| 0 <= ii < n implies crate::diff::entries_for_maps(
                crate::diff::cmaps_view(pieces@),
                (#[trigger] sv[ii]).0,
            ).len() >= 1 by {
                assert(!crate::diff::contains_idx(todo@, ii));
            }
        }
        let priority = self.header.priority();
        let mut msgs: Vec<SyncMessage> = Vec::new();
        let mut p: usize = 0;
        let total_pieces = pieces.len();
        proof {
            assert(crate::diff::cmaps_view(pieces@.take(0)) =~= Seq::<
                Seq<(SidV, crate::sync::SessionNewContentV)>,
            >::empty());
            assert forall|kk: SidV| #[trigger] crate::diff::entries_for(
                crate::sync::msgs_view(msgs@),
                kk,
            ) == crate::diff::entries_for_maps(
                crate::diff::cmaps_view(pieces@.take(0)),
                kk,
            ) by {
                assert(crate::sync::msgs_view(msgs@) =~= Seq::<
                    crate::sync::SyncMessageV,
                >::empty());
                assert(crate::diff::entries_for(
                    crate::sync::msgs_view(msgs@),
                    kk,
                ) =~= Seq::<crate::sync::SessionNewContentV>::empty());
                assert(crate::diff::entries_for_maps(
                    crate::diff::cmaps_view(pieces@.take(0)),
                    kk,
                ) =~= Seq::<crate::sync::SessionNewContentV>::empty());
            }
        }
        while p < total_pieces
            invariant
                p <= total_pieces,
                total_pieces == pieces@.len(),
                pieces@.len() >= 1,
                n == sv.len(),
                sv == self@.sessions,
                sent@.len() == n,
                peerv == peer_view(*known_state),
                priority == crate::covalue::spec_priority(self@.header),
                crate::diff::diff_inv(self@, peerv, crate::diff::cmaps_view(pieces@), sent@),
                forall|ii: int|
                    0 <= ii < n ==> (#[trigger] sent@[ii]) as nat == crate::diff::diff_target(
                        sv[ii].1,
                        crate::diff::peer_base(peerv, sv[ii].0),
                    ),
                forall|ii: int|
                    0 <= ii < n ==> crate::diff::entries_for_maps(
                        crate::diff::cmaps_view(pieces@),
                        (#[trigger] sv[ii]).0,
                    ).len() >= 1,
                n == 0 ==> pieces@.len() == 1 && pieces@[0]@.len() == 0,
                has_header == crate::diff::peer_has_header(peerv),
                forall|kk: SidV| #[trigger] crate::diff::entries_for(
                    crate::sync::msgs_view(msgs@),
                    kk,
                ) == crate::diff::entries_for_maps(
                    crate::diff::cmaps_view(pieces@.take(p as int)),
                    kk,
                ),
                forall|j: int|
                    0 <= j < msgs@.len() ==> match #[trigger] crate::sync::msgs_view(msgs@)[j] {
                        crate::sync::SyncMessageV::NewContent { id, header, priority: pr, new } => {
                            &&& id == self@.id
                            &&& pr == crate::covalue::spec_priority(self@.header)
                            &&& header == (if j == 0 && !has_header {
                                Some(self@.header)
                            } else {
                                None::<HeaderV>
                            })
                            &&& crate::diff::map_ok(self@, new)
                            &&& (j == 0 || new.len() >= 1)
                            &&& crate::diff::piece_ok(self@, new)
                            &&& crate::diff::entries_empty_ok(self@, peerv, new)
                        },
                        _ => false,
                    },
                forall|q: int|
                    0 <= q < crate::diff::cmaps_view(pieces@).len() ==> crate::diff::piece_ok(
                        self@,
                        #[trigger] crate::diff::cmaps_view(pieces@)[q],
                    ),
                forall|q: int|
                    0 <= q < crate::diff::cmaps_view(pieces@).len()
                        ==> crate::diff::entries_empty_ok(
                        self@,
                        peerv,
                        #[trigger] crate::diff::cmaps_view(pieces@)[q],
                    ),
                p == 0 ==> msgs@.len() == 0,
                !has_header && p >= 1 ==> msgs@.len() >= 1,
                has_header ==> ((msgs@.len() == 0) <==> (forall|q: int|
                    0 <= q < p ==> (#[trigger] pieces@[q]@).len() == 0)),
            decreases total_pieces - p,
        {
            let has_hdr_field = p == 0 && !has_header;
            let keep = has_hdr_field || pieces[p].len() > 0;
            let ghost msgs_before = crate::sync::msgs_view(msgs@);
            if keep {
                let piece_map = pieces[p].duplicate();
                let msg = SyncMessage::NewContentMessage {
                    id: self.id.duplicate(),
                    header: if has_hdr_field {
                        Some(self.header.duplicate())
                    } else {
                        None
                    },
                    priority,
                    new: piece_map,
                };
                msgs.push(msg);
            }
            proof {
                assert(crate::diff::cmaps_view(pieces@.take(p + 1)) =~= crate::diff::cmaps_view(
                    pieces@.take(p as int),
                ).push(pieces@[p as int]@));
                if keep {
                    let pushed = crate::sync::msgs_view(msgs@).last();
                    assert(pushed matches crate::sync::SyncMessageV::NewContent { new, .. }
                        && new == pieces@[p as int]@);
                    assert(crate::sync::msgs_view(msgs@) =~= msgs_before.push(pushed));
                    assert(crate::diff::map_ok(self@, pieces@[p as int]@)) by {
                        assert(crate::diff::cmaps_view(pieces@)[p as int] == pieces@[p as int]@);
                    }
                    assert forall|j: int| 0 <= j < msgs@.len() implies match
                        #[trigger] crate::sync::msgs_view(msgs@)[j] {
                        crate::sync::SyncMessageV::NewContent { id, header, priority: pr, new } => {
                            &&& id == self@.id
                            &&& pr == crate::covalue::spec_priority(self@.header)
                            &&& header == (if j == 0 && !has_header {
                                Some(self@.header)
                            } else {
                                None::<HeaderV>
                            })
                            &&& crate::diff::map_ok(self@, new)
                            &&& (j == 0 || new.len() >= 1)
                            &&& crate::diff::piece_ok(self@, new)
                            &&& crate::diff::entries_empty_ok(self@, peerv, new)
                        },
                        _ => false,
                    } by {
                        if j < msgs_before.len() {
                            assert(crate::sync::msgs_view(msgs@)[j] == msgs_before[j]);
                        } else {
                            assert(crate::sync::msgs_view(msgs@)[j] == pushed);
                            assert(crate::diff::cmaps_view(pieces@)[p as int]
                                == pieces@[p as int]@);
                            assert(crate::diff::piece_ok(self@, pieces@[p as int]@));
                            assert(crate::diff::entries_empty_ok(
                                self@,
                                peerv,
                                pieces@[p as int]@,
                            ));
                            if j >= 1 {
                                assert(!(p == 0 && !has_header));
                                assert(pieces@[p as int]@.len() > 0);
                            }
                        }
                    }
                    assert forall|kk: SidV| #[trigger] crate::diff::entries_for(
                        crate::sync::msgs_view(msgs@),
                        kk,
                    ) == crate::diff::entries_for_maps(
                        crate::diff::cmaps_view(pieces@.take(p + 1)),
                        kk,
                    ) by {
                        crate::diff::lemma_ef_snoc(msgs_before, pushed, kk);
                        crate::diff::lemma_efm_snoc(
                            crate::diff::cmaps_view(pieces@.take(p as int)),
                            pieces@[p as int]@,
                            kk,
                        );
                    }
                } else {
                    assert(pieces@[p as int]@.len() == 0);
                    assert forall|kk: SidV| #[trigger] crate::diff::entries_for(
                        crate::sync::msgs_view(msgs@),
                        kk,
                    ) == crate::diff::entries_for_maps(
                        crate::diff::cmaps_view(pieces@.take(p + 1)),
                        kk,
                    ) by {
                        crate::diff::lemma_efm_snoc(
                            crate::diff::cmaps_view(pieces@.take(p as int)),
                            pieces@[p as int]@,
                            kk,
                        );
                        assert(crate::smap::am_find(pieces@[p as int]@, kk) is None);
                        assert(crate::diff::entries_for_maps(
                            crate::diff::cmaps_view(pieces@.take(p as int)),
                            kk,
                        ) + Seq::<crate::sync::SessionNewContentV>::empty()
                            =~= crate::diff::entries_for_maps(
                            crate::diff::cmaps_view(pieces@.take(p as int)),
                            kk,
                        ));
                    }
                }
            }
            p = p + 1;
        }
        proof {
            assert(pieces@.take(pieces@.len() as int) =~= pieces@);
        }
        if msgs.len() == 0 {
            proof {
                assert(crate::diff::peer_has_header(peerv));
                if sv.len() > 0 {
                    assert(crate::diff::entries_for_maps(
                        crate::diff::cmaps_view(pieces@),
                        sv[0].0,
                    ).len() >= 1);
                    assert(crate::diff::entries_for(
                        crate::sync::msgs_view(msgs@),
                        sv[0].0,
                    ) == crate::diff::entries_for_maps(
                        crate::diff::cmaps_view(pieces@),
                        sv[0].0,
                    ));
                    assert(crate::sync::msgs_view(msgs@) =~= Seq::<
                        crate::sync::SyncMessageV,
                    >::empty());
                    assert(crate::diff::entries_for(
                        crate::sync::msgs_view(msgs@),
                        sv[0].0,
                    ) =~= Seq::<crate::sync::SessionNewContentV>::empty());
                    assert(false);
                }
            }
            return None;
        }
        proof {
            if has_header && sv.len() == 0 {
                assert(pieces@.len() == 1 && pieces@[0]@.len() == 0);
                assert(forall|q: int| 0 <= q < pieces@.len() ==> (#[trigger] pieces@[q]@).len()
                    == 0);
                assert(msgs@.len() == 0);
                assert(false);
            }
            crate::diff::lemma_diff_assembled(
                self@,
                peerv,
                crate::diff::cmaps_view(pieces@),
                sent@,
                crate::sync::msgs_view(msgs@),
            );
        }
        if peer_is_empty {
            let copy = crate::sync::duplicate_messages(&msgs);
            proof {
                if peerv is Some {
                    crate::diff::lemma_content_post_empty_peer(
                        self@,
                        peerv->0,
                        crate::sync::msgs_view(copy@),
                    );
                }
                assert(crate::diff::content_post(self@, None, crate::sync::msgs_view(copy@)));
            }
            self.cached_new_content_since_empty = Some(copy);
        }
        Some(msgs)
    }

    /// The known-state summary, freshly computed: this CoValue, its header,
    /// and each session's transaction count.
    pub fn known_state_uncached(&self) -> (r: CoValueKnownState)
        requires
            self.wf(),
        ensures
            r@.id == self@.id,
            r@.header == true,
            r@.sessions == counts_of(self@.sessions),
    {
        let mut counts = CountMap::new();
        let total = self.sessions.len();
        let mut i: usize = 0;
        while i < total
            invariant
                i <= self@.sessions.len(),
                total == self@.sessions.len(),
                self.wf(),
                counts@ == counts_of(self@.sessions.take(i as int)),
                counts@.len() == i,
            decreases total - i,
        {
            let (sid, log) = self.sessions.entry_at(i);
            let n = log.transaction_count();
            proof {
                assert forall|j: int| 0 <= j < counts@.len() implies (#[trigger] counts@[j]).0
                    != sid@ by {
                    assert(counts@[j].0 == self@.sessions[j].0);
                    assert(self@.sessions[j].0 != self@.sessions[i as int].0);
                }
            }
            counts.push_new(sid, n);
            proof {
                assert(counts@ =~= counts_of(self@.sessions.take(i + 1)));
            }
            i = i + 1;
        }
        proof {
            assert(self@.sessions.take(self@.sessions.len() as int) =~= self@.sessions);
        }
        CoValueKnownState::new(self.id.duplicate(), true, counts)
    }

    /// The known-state summary, memoised until the next successful append.
    pub fn known_state(&mut self) -> (r: CoValueKnownState)
        requires
            old(self).wf(),
        ensures
            final(self)@ == old(self)@,
            final(self).wf(),
            r@.id == old(self)@.id,
            r@.header == true,
            r@.sessions == counts_of(old(self)@.sessions),
    {
        match &self.cached_known_state {
            Some(ks) => ks.duplicate(),
            None => {
                let ks = self.known_state_uncached();
                self.cached_known_state = Some(ks.duplicate());
                ks
            },
        }
    }
}

/// The index of the last populated checkpoint slot of a vector of slots.
fn last_populated_index(sa: &Vec<Option<Signature>>) -> (r: Option<usize>)
    ensures
        match r {
            Some(i) => last_populated(sigs_view(sa@)) == Some(i as int) && (i as int) < sa@.len(),
            None => last_populated(sigs_view(sa@)) is None,
        },
{
    let ghost v = sigs_view(sa@);
    let mut j: usize = sa.len();
    proof {
        assert(v.take(sa@.len() as int) =~= v);
    }
    while j > 0
        invariant
            j <= sa@.len(),
            v == sigs_view(sa@),
            v.len() == sa@.len(),
            last_populated(v) == last_populated(v.take(j as int)),
        decreases j,
    {
        let found = match &sa[j - 1] {
            Some(_) => true,
            None => false,
        };
        proof {
            assert(v.take(j as int).last() == v[j - 1]);
        }
        if found {
            proof {
                assert(v[j - 1] is Some);
                assert(last_populated(v.take(j as int)) == Some(j - 1));
            }
            return Some(j - 1);
        }
        proof {
            assert(v[j - 1] is None);
            assert(v.take(j as int).drop_last() =~= v.take(j - 1));
        }
        j = j - 1;
    }
    proof {
        assert(v.take(0) =~= Seq::<Option<Seq<u8>>>::empty());
    }
    None
}

/// The last populated checkpoint slot strictly before `j`, if any.
pub open spec fn prev_populated(sa: Seq<Option<Seq<u8>>>, j: int) -> Option<int>
    decreases j,
{
    if j <= 0 {
        None
    } else if sa[j - 1] is Some {
        Some(j - 1)
    } else {
        prev_populated(sa, j - 1)
    }
}

/// The first index whose payload counts towards the gap that ends at `j`:
/// one past the previous populated slot, defaulting past index zero.
pub open spec fn gap_start(sa: Seq<Option<Seq<u8>>>, j: int) -> int {
    match prev_populated(sa, j) {
        Some(i) => i + 1,
        None => 1,
    }
}

/// Two slot sequences that agree below `j` scan down identically.
proof fn lemma_prev_populated_agree(sa1: Seq<Option<Seq<u8>>>, sa2: Seq<Option<Seq<u8>>>, j: int)
    requires
        forall|m: int| 0 <= m < j ==> sa1[m] == sa2[m],
    ensures
        prev_populated(sa1, j) == prev_populated(sa2, j),
    decreases j,
{
    if j > 0 {
        lemma_prev_populated_agree(sa1, sa2, j - 1);
    }
}

/// Scanning down from the end finds the last populated slot.
proof fn lemma_prev_populated_last(sa: Seq<Option<Seq<u8>>>)
    ensures
        prev_populated(sa, sa.len() as int) == last_populated(sa),
    decreases sa,
{
    if sa.len() > 0 {
        if sa.last() is Some {
        } else {
            lemma_prev_populated_last(sa.drop_last());
            assert(forall|m: int|
                0 <= m < sa.len() - 1 ==> (#[trigger] sa.drop_last()[m]) == sa[m]);
            lemma_prev_populated_agree(sa, sa.drop_last(), sa.len() - 1);
        }
    }
}

/// Everything after the last populated slot is absent.
proof fn lemma_last_populated_after(sa: Seq<Option<Seq<u8>>>, i: int)
    requires
        last_populated(sa) == Some(i),
    ensures
        0 <= i < sa.len(),
        sa[i] is Some,
        forall|m: int| i < m < sa.len() ==> (#[trigger] sa[m]) is None,
    decreases sa,
{
    if sa.len() > 0 {
        if sa.last() is Some {
        } else {
            lemma_last_populated_after(sa.drop_last(), i);
            assert forall|m: int| i < m < sa.len() implies (#[trigger] sa[m]) is None by {
                if m < sa.len() - 1 {
                    assert(sa.drop_last()[m] == sa[m]);
                }
            }
        }
    }
}

/// The unsigned tail of a log stays within the recommended size.
pub open spec fn tail_bounded(l: SessionLogV) -> bool {
    tail_size(l.transactions, l.signature_after) <= MAX_RECOMMENDED_TX_SIZE
}

/// Checkpoint density: the payload of the gap ending at any populated
/// slot — from just past the previous populated slot (or from index one,
/// since the first transaction never counts) through the slot itself — is
/// at most the recommended size plus the single transaction at the slot.
pub open spec fn density_ok(l: SessionLogV) -> bool {
    forall|j: int|
        0 <= j < l.signature_after.len() && (#[trigger] l.signature_after[j]) is Some
            ==> txs_payload(
            l.transactions.subrange(gap_start(l.signature_after, j), j + 1),
        ) <= MAX_RECOMMENDED_TX_SIZE + tx_payload(l.transactions[j])
}

/// Checkpoint density is preserved by single-transaction appends: when a
/// log's unsigned tail is within the recommended size and its checkpoints
/// are dense, appending one transaction keeps both.  (A batch append can
/// break density: one call that appends several large transactions signs
/// only its last slot, so the gap up to that slot can exceed the bound by
/// more than one transaction; a batch of two oversized transactions after
/// a nearly full tail is such an input.)
#[verifier::rlimit(100)]
pub proof fn lemma_checkpoint_density(old_log: SessionLogV, tx: TransactionV, sig: Seq<u8>)
    requires
        log_wf(old_log),
        density_ok(old_log),
        tail_bounded(old_log),
    ensures
        density_ok(appended_log(old_log, seq![tx], sig)),
        tail_bounded(appended_log(old_log, seq![tx], sig)),
{
    let new_log = appended_log(old_log, seq![tx], sig);
    let old_len = old_log.transactions.len() as int;
    let ts = old_log.transactions;
    let sa = old_log.signature_after;
    let ts_n = ts + seq![tx];
    let sa0 = sa + none_slots(1);
    assert(ts_n =~= ts.push(tx));
    assert(sa0 =~= sa.push(None));
    assert(sa0.drop_last() =~= sa);
    assert(last_populated(sa0) == last_populated(sa));
    assert(new_log.transactions == ts_n);
    let st0 = tail_start(sa);
    assert(st0 >= 1) by {
        match last_populated(sa) {
            Some(lp) => {
                lemma_last_populated_after(sa, lp);
            },
            None => {},
        }
    }
    // the tail after the append is the old tail plus the new payload
    let ghost one = seq![tx];
    assert(one.len() == 1);
    assert(one.drop_last() =~= Seq::<TransactionV>::empty());
    assert(txs_payload(one.drop_last()) == 0);
    assert(one.last() == tx);
    assert(txs_payload(one) == txs_payload(one.drop_last()) + tx_payload(one.last()));
    assert(txs_payload(one) == tx_payload(tx));
    if st0 <= old_len {
        assert(ts_n.skip(st0) =~= ts.skip(st0) + one);
        crate::session::lemma_txs_payload_concat(ts.skip(st0), one);
        assert(tail_size(ts_n, sa0) == tail_size(ts, sa) + tx_payload(tx));
    } else {
        match last_populated(sa) {
            Some(lp) => {
                lemma_last_populated_after(sa, lp);
            },
            None => {},
        }
        assert(st0 == 1 && old_len == 0);
        assert(ts_n.skip(1) =~= Seq::<TransactionV>::empty());
        assert(tail_size(ts_n, sa0) == 0);
    }
    let cp = tail_size(ts_n, sa0) > MAX_RECOMMENDED_TX_SIZE;
    let sa_n = new_log.signature_after;
    if cp {
        assert(sa_n == sa0.update(old_len, Some(sig)));
        assert(sa_n.len() == old_len + 1);
        assert(forall|m: int| 0 <= m < old_len ==> (#[trigger] sa_n[m]) == sa[m]);
        assert(sa_n[old_len] is Some);
        assert(sa_n.last() is Some);
        assert(last_populated(sa_n) == Some(old_len));
        assert(tail_start(sa_n) == old_len + 1);
        assert(ts_n.skip(old_len + 1) =~= Seq::<TransactionV>::empty());
        assert(tail_bounded(new_log));
    } else {
        assert(sa_n == sa0);
        assert(forall|m: int| 0 <= m < old_len ==> (#[trigger] sa_n[m]) == sa[m]);
        assert(sa_n[old_len] is None);
        assert(tail_bounded(new_log));
    }
    assert forall|j: int|
        0 <= j < sa_n.len() && (#[trigger] sa_n[j]) is Some implies txs_payload(
        ts_n.subrange(gap_start(sa_n, j), j + 1),
    ) <= MAX_RECOMMENDED_TX_SIZE + tx_payload(ts_n[j]) by {
        if j < old_len {
            assert(sa[j] is Some);
            lemma_prev_populated_agree(sa_n, sa, j);
            assert(gap_start(sa_n, j) == gap_start(sa, j));
            let lo = gap_start(sa, j);
            assert(0 <= lo <= j + 1) by {
                match prev_populated(sa, j) {
                    Some(i) => {
                        lemma_prev_populated_some(sa, j, i);
                    },
                    None => {},
                }
            }
            assert(ts_n.subrange(lo, j + 1) =~= ts.subrange(lo, j + 1));
            assert(ts_n[j] == ts[j]);
        } else {
            assert(j == old_len);
            assert(cp);
            lemma_prev_populated_agree(sa_n, sa0, old_len);
            assert(forall|m: int| 0 <= m < old_len ==> sa0[m] == sa[m]);
            lemma_prev_populated_agree(sa0, sa, old_len);
            assert(old_len == sa.len());
            lemma_prev_populated_last(sa);
            assert(gap_start(sa_n, old_len) == tail_start(sa));
            if st0 <= old_len {
                assert(ts_n.subrange(st0, old_len + 1) =~= ts.skip(st0) + one);
                assert(txs_payload(ts_n.subrange(st0, old_len + 1)) == tail_size(ts, sa)
                    + tx_payload(tx));
                assert(ts_n[old_len] == tx);
            } else {
                assert(st0 == 1 && old_len == 0);
                assert(ts_n.subrange(1, 1) =~= Seq::<TransactionV>::empty());
                assert(ts_n[old_len] == tx);
            }
        }
    }
}

/// A populated slot's predecessor scan lands strictly below it.
proof fn lemma_prev_populated_some(sa: Seq<Option<Seq<u8>>>, j: int, i: int)
    requires
        prev_populated(sa, j) == Some(i),
    ensures
        0 <= i < j,
        sa[i] is Some,
    decreases j,
{
    if j > 0 {
        if sa[j - 1] is Some {
        } else {
            lemma_prev_populated_some(sa, j - 1, i);
        }
    }
}

/// A later subrange weighs no more than one that starts earlier.
proof fn lemma_payload_subrange_le(ts: Seq<TransactionV>, a: int, b: int, c: int)
    requires
        0 <= a <= b <= c <= ts.len(),
    ensures
        txs_payload(ts.subrange(b, c)) <= txs_payload(ts.subrange(a, c)),
{
    assert(ts.subrange(a, c) =~= ts.subrange(a, b) + ts.subrange(b, c));
    crate::session::lemma_txs_payload_concat(ts.subrange(a, b), ts.subrange(b, c));
}

/// What the piece-size discipline still allows a single-slice piece: the
/// transaction at the slice's last index, plus the log's first transaction
/// when the slice starts at the log's very beginning (the first
/// transaction never counts towards the first checkpoint, the preserved
/// edge of the append rule).
pub open spec fn piece_slack(st: StateV, m: Seq<(SidV, crate::sync::SessionNewContentV)>) -> nat {
    if crate::diff::single_slice_piece(st, m) {
        match am_find(st.sessions, m[0].0) {
            Some(log) => {
                let e = m[0].1;
                let end = e.after + e.new_transactions.len();
                tx_payload(log.transactions[end - 1]) + (if e.after == 0 {
                    tx_payload(log.transactions[0])
                } else {
                    0
                })
            },
            None => 0,
        }
    } else {
        0
    }
}

/// The piece size bound: under checkpoint density, every piece the diff
/// discipline admits carries at most the recommended size plus its slack
/// (one breaching transaction, and one more when the slice begins at the
/// log's never-counted first transaction).
#[verifier::rlimit(100)]
pub proof fn lemma_piece_size_bound(st: StateV, m: Seq<(SidV, crate::sync::SessionNewContentV)>)
    requires
        crate::diff::piece_ok(st, m),
        crate::diff::single_slice_piece(st, m) ==> match am_find(st.sessions, m[0].0) {
            Some(log) => log_wf(log) && density_ok(log) && tail_bounded(log),
            None => true,
        },
    ensures
        crate::diff::map_payload(m) <= MAX_RECOMMENDED_TX_SIZE + piece_slack(st, m),
{
    if !crate::diff::single_slice_piece(st, m) {
    } else {
        let e = m[0].1;
        let log = am_find(st.sessions, m[0].0)->0;
        let ts = log.transactions;
        let sa = log.signature_after;
        let after = e.after as int;
        let n = e.new_transactions.len() as int;
        let end = after + n;
        assert(sa.len() == ts.len());
        assert(crate::diff::map_payload(m) == txs_payload(e.new_transactions)) by {
            assert(m.drop_first() =~= Seq::<(SidV, crate::sync::SessionNewContentV)>::empty());
            assert(crate::diff::map_payload(m.drop_first()) == 0);
            assert(m.first() == m[0]);
        }
        assert(txs_payload(e.new_transactions) == txs_payload(ts.subrange(after, end)));
        let slack = piece_slack(st, m);
        assert(slack >= tx_payload(ts[end - 1]));
        if end < ts.len() || (0 <= end - 1 < sa.len() && sa[end - 1] is Some) {
            // the slice ends at a populated slot; density bounds its gap
            assert(sa[end - 1] is Some);
            assert(txs_payload(ts.subrange(gap_start(sa, end - 1), end))
                <= MAX_RECOMMENDED_TX_SIZE + tx_payload(ts[end - 1]));
            let lo = gap_start(sa, end - 1);
            match prev_populated(sa, end - 1) {
                Some(i) => {
                    lemma_prev_populated_some(sa, end - 1, i);
                    assert(i < after) by {
                        if i >= after {
                            assert(sa[i] is None);
                        }
                    }
                    assert(lo == i + 1 <= after);
                    lemma_payload_subrange_le(ts, lo, after, end);
                },
                None => {
                    assert(lo == 1);
                    if after >= 1 {
                        lemma_payload_subrange_le(ts, 1, after, end);
                    } else {
                        assert(after == 0);
                        assert(ts.subrange(0, end) =~= ts.subrange(0, 1) + ts.subrange(1, end));
                        crate::session::lemma_txs_payload_concat(
                            ts.subrange(0, 1),
                            ts.subrange(1, end),
                        );
                        assert(ts.subrange(0, 1) =~= seq![ts[0]]);
                        assert(seq![ts[0]].drop_last() =~= Seq::<TransactionV>::empty());
                        assert(seq![ts[0]].last() == ts[0]);
                        assert(txs_payload(Seq::<TransactionV>::empty()) == 0);
                        assert(txs_payload(seq![ts[0]]) == txs_payload(seq![ts[0]].drop_last())
                            + tx_payload(seq![ts[0]].last()));
                        assert(txs_payload(ts.subrange(0, 1)) == tx_payload(ts[0]));
                        assert(slack == tx_payload(ts[end - 1]) + tx_payload(ts[0]));
                    }
                },
            }
        } else {
            // the slice ends at the head past every populated slot; the
            // bounded unsigned tail covers it
            assert(end == ts.len());
            assert(end - 1 < sa.len() && sa[end - 1] is None);
            let st0 = tail_start(sa);
            lemma_prev_populated_last(sa);
            assert(prev_populated(sa, sa.len() as int) == prev_populated(sa, end - 1)) by {
                assert(sa[end - 1] is None);
            }
            assert(tail_size(ts, sa) == txs_payload(ts.skip(st0))) by {
                match last_populated(sa) {
                    Some(lp) => {
                        lemma_last_populated_after(sa, lp);
                    },
                    None => {
                        if st0 > ts.len() {
                            assert(ts.len() == 0);
                        }
                    },
                }
                if st0 > ts.len() {
                    assert(ts.len() == 0);
                    assert(end <= 0);
                }
            }
            assert(ts.skip(st0) =~= ts.subrange(st0, end));
            match prev_populated(sa, end - 1) {
                Some(i) => {
                    lemma_prev_populated_some(sa, end - 1, i);
                    assert(i < after) by {
                        if i >= after {
                            assert(sa[i] is None);
                        }
                    }
                    assert(st0 == i + 1 <= after);
                    lemma_payload_subrange_le(ts, st0, after, end);
                },
                None => {
                    assert(st0 == 1);
                    if after >= 1 {
                        lemma_payload_subrange_le(ts, 1, after, end);
                    } else {
                        assert(after == 0);
                        assert(ts.subrange(0, end) =~= ts.subrange(0, 1) + ts.subrange(1, end));
                        crate::session::lemma_txs_payload_concat(
                            ts.subrange(0, 1),
                            ts.subrange(1, end),
                        );
                        assert(ts.subrange(0, 1) =~= seq![ts[0]]);
                        assert(seq![ts[0]].drop_last() =~= Seq::<TransactionV>::empty());
                        assert(seq![ts[0]].last() == ts[0]);
                        assert(txs_payload(Seq::<TransactionV>::empty()) == 0);
                        assert(txs_payload(seq![ts[0]]) == txs_payload(seq![ts[0]].drop_last())
                            + tx_payload(seq![ts[0]].last()));
                        assert(txs_payload(ts.subrange(0, 1)) == tx_payload(ts[0]));
                        assert(slack == tx_payload(ts[end - 1]) + tx_payload(ts[0]));
                    }
                },
            }
        }
    }
}

/// A fresh, empty log is dense and has an empty unsigned tail.
pub proof fn lemma_empty_log_density()
    ensures
        density_ok(empty_log_view()),
        tail_bounded(empty_log_view()),
{
}

/// The model of an optional peer summary.
pub open spec fn peer_view(p: Option<CoValueKnownState>) -> Option<crate::sync::KnownStateV> {
    match p {
        Some(ks) => Some(ks@),
        None => None,
    }
}

/// A log taken from a well-formed map, or the empty log, is well formed.
pub proof fn lemma_log_or_empty_wf(s: Seq<(SidV, SessionLogV)>, k: SidV)
    requires
        sm_wf(s),
    ensures
        log_wf(log_or_empty(s, k)),
{
    if am_find(s, k) is Some {
        crate::smap::lemma_am_find_index(s, k);
    } else {
        assert(txs_canon(empty_log_view().transactions) =~= Seq::<u8>::empty());
    }
}

} // verus!
