//! Transactions and per-session logs.
//!
//! A session log is an append-only list of transactions together with a
//! rolling BLAKE3 hash over their canonical JSON, sparse signature
//! checkpoints, and the signature over the current head.

use vstd::prelude::*;

use crate::crypto::{blake3_of, Signature, StreamingHash, SIGNATURE_LENGTH};
use crate::ids::SessionID;
use crate::smap::{am_find, am_keys_unique, am_set, lemma_am_set_absent, lemma_am_set_at, lemma_am_set_entry, lemma_am_set_props, SidV};
use crate::json::{
    bytes_json, json_bytes_array, json_canon, json_height, json_view_entries, JsonV, JsonValue,
};

verus! {

/// Whether a transaction's payload is encrypted.
pub enum TransactionPrivacy {
    /// Transaction is encrypted.
    Private,
    /// Transaction is not encrypted.
    Trusting,
}

/// A transaction's payload.
pub enum TransactionType {
    /// An encrypted payload and the ID of the key that encrypted it.
    Private { key_used: Vec<u8>, encrypted_changes: Vec<u8> },
    /// A plaintext payload.
    Trusting { changes: Vec<u8> },
}

/// The model of a transaction payload.
pub enum TxTypeV {
    Private { key_used: Seq<u8>, encrypted_changes: Seq<u8> },
    Trusting { changes: Seq<u8> },
}

impl View for TransactionType {
    type V = TxTypeV;

    open spec fn view(&self) -> TxTypeV {
        match self {
            TransactionType::Private { key_used, encrypted_changes } => TxTypeV::Private {
                key_used: key_used@,
                encrypted_changes: encrypted_changes@,
            },
            TransactionType::Trusting { changes } => TxTypeV::Trusting { changes: changes@ },
        }
    }
}

/// The privacy of a payload.
pub open spec fn privacy_of(t: TxTypeV) -> TransactionPrivacy {
    match t {
        TxTypeV::Private { .. } => TransactionPrivacy::Private,
        TxTypeV::Trusting { .. } => TransactionPrivacy::Trusting,
    }
}

impl From<TransactionType> for TransactionPrivacy {
    /// The privacy of this payload.
    fn from(tx_type: TransactionType) -> (r: Self) {
        match tx_type {
            TransactionType::Private { .. } => TransactionPrivacy::Private,
            TransactionType::Trusting { .. } => TransactionPrivacy::Trusting,
        }
    }
}

impl vstd::std_specs::convert::FromSpecImpl<TransactionType> for TransactionPrivacy {
    open spec fn obeys_from_spec() -> bool {
        true
    }

    open spec fn from_spec(tx_type: TransactionType) -> Self {
        privacy_of(tx_type@)
    }
}

/// One atomic contribution to a session.
pub struct Transaction {
    /// Milliseconds since the epoch at which the transaction was made.
    pub made_at: u64,
    /// The payload.
    pub tx_type: TransactionType,
}

/// The model of a transaction.
pub struct TransactionV {
    pub made_at: u64,
    pub tx_type: TxTypeV,
}

impl View for Transaction {
    type V = TransactionV;

    open spec fn view(&self) -> TransactionV {
        TransactionV { made_at: self.made_at, tx_type: self.tx_type@ }
    }
}

/// The models of a sequence of transactions.
pub open spec fn txs_view(ts: Seq<Transaction>) -> Seq<TransactionV> {
    ts.map_values(|t: Transaction| t@)
}

/// The payload size of a transaction: the encrypted bytes for a private
/// one, the plaintext bytes for a trusting one.  The key ID of a private
/// transaction does not count.
pub open spec fn tx_payload(t: TransactionV) -> nat {
    match t.tx_type {
        TxTypeV::Private { encrypted_changes, .. } => encrypted_changes.len(),
        TxTypeV::Trusting { changes } => changes.len(),
    }
}

/// The total payload size of a sequence of transactions.
pub open spec fn txs_payload(ts: Seq<TransactionV>) -> nat
    decreases ts,
{
    if ts.len() == 0 {
        0
    } else {
        txs_payload(ts.drop_last()) + tx_payload(ts.last())
    }
}

/// Payload size distributes over concatenation.
pub proof fn lemma_txs_payload_concat(a: Seq<TransactionV>, b: Seq<TransactionV>)
    ensures
        txs_payload(a + b) == txs_payload(a) + txs_payload(b),
    decreases b,
{
    if b.len() == 0 {
        assert(a + b =~= a);
    } else {
        assert((a + b).drop_last() =~= a + b.drop_last());
        assert((a + b).last() == b.last());
        lemma_txs_payload_concat(a, b.drop_last());
    }
}

/// A suffix weighs no more than the whole.
pub proof fn lemma_txs_payload_skip(ts: Seq<TransactionV>, i: int)
    requires
        0 <= i <= ts.len(),
    ensures
        txs_payload(ts.skip(i)) <= txs_payload(ts),
{
    assert(ts =~= ts.take(i) + ts.skip(i));
    lemma_txs_payload_concat(ts.take(i), ts.skip(i));
}

/// The key `changes`.
pub open spec fn key_changes() -> Seq<u8> {
    seq![99u8, 104u8, 97u8, 110u8, 103u8, 101u8, 115u8]
}

/// The key `encryptedChanges`.
pub open spec fn key_encrypted_changes() -> Seq<u8> {
    seq![101u8, 110u8, 99u8, 114u8, 121u8, 112u8, 116u8, 101u8, 100u8, 67u8, 104u8, 97u8, 110u8,
        103u8, 101u8, 115u8]
}

/// The key `keyUsed`.
pub open spec fn key_key_used() -> Seq<u8> {
    seq![107u8, 101u8, 121u8, 85u8, 115u8, 101u8, 100u8]
}

/// The key `madeAt`.
pub open spec fn key_made_at() -> Seq<u8> {
    seq![109u8, 97u8, 100u8, 101u8, 65u8, 116u8]
}

/// The key `privacy`.
pub open spec fn key_privacy() -> Seq<u8> {
    seq![112u8, 114u8, 105u8, 118u8, 97u8, 99u8, 121u8]
}

/// The tag `private`.
pub open spec fn tag_private() -> Seq<u8> {
    seq![112u8, 114u8, 105u8, 118u8, 97u8, 116u8, 101u8]
}

/// The tag `trusting`.
pub open spec fn tag_trusting() -> Seq<u8> {
    seq![116u8, 114u8, 117u8, 115u8, 116u8, 105u8, 110u8, 103u8]
}

/// The bytes of `changes`.
pub(crate) fn key_changes_vec() -> (r: Vec<u8>)
    ensures
        r@ == key_changes(),
{
    let mut v: Vec<u8> = Vec::new();
    v.push(99);
    v.push(104);
    v.push(97);
    v.push(110);
    v.push(103);
    v.push(101);
    v.push(115);
    proof {
        assert(v@ =~= key_changes());
    }
    v
}

/// The bytes of `encryptedChanges`.
pub(crate) fn key_encrypted_changes_vec() -> (r: Vec<u8>)
    ensures
        r@ == key_encrypted_changes(),
{
    let mut v: Vec<u8> = Vec::new();
    v.push(101);
    v.push(110);
    v.push(99);
    v.push(114);
    v.push(121);
    v.push(112);
    v.push(116);
    v.push(101);
    v.push(100);
    v.push(67);
    v.push(104);
    v.push(97);
    v.push(110);
    v.push(103);
    v.push(101);
    v.push(115);
    proof {
        assert(v@ =~= key_encrypted_changes());
    }
    v
}

/// The bytes of `keyUsed`.
pub(crate) fn key_key_used_vec() -> (r: Vec<u8>)
    ensures
        r@ == key_key_used(),
{
    let mut v: Vec<u8> = Vec::new();
    v.push(107);
    v.push(101);
    v.push(121);
    v.push(85);
    v.push(115);
    v.push(101);
    v.push(100);
    proof {
        assert(v@ =~= key_key_used());
    }
    v
}

/// The bytes of `madeAt`.
pub(crate) fn key_made_at_vec() -> (r: Vec<u8>)
    ensures
        r@ == key_made_at(),
{
    let mut v: Vec<u8> = Vec::new();
    v.push(109);
    v.push(97);
    v.push(100);
    v.push(101);
    v.push(65);
    v.push(116);
    proof {
        assert(v@ =~= key_made_at());
    }
    v
}

/// The bytes of `privacy`.
pub(crate) fn key_privacy_vec() -> (r: Vec<u8>)
    ensures
        r@ == key_privacy(),
{
    let mut v: Vec<u8> = Vec::new();
    v.push(112);
    v.push(114);
    v.push(105);
    v.push(118);
    v.push(97);
    v.push(99);
    v.push(121);
    proof {
        assert(v@ =~= key_privacy());
    }
    v
}

/// The bytes of `private`.
pub(crate) fn tag_private_vec() -> (r: Vec<u8>)
    ensures
        r@ == tag_private(),
{
    let mut v: Vec<u8> = Vec::new();
    v.push(112);
    v.push(114);
    v.push(105);
    v.push(118);
    v.push(97);
    v.push(116);
    v.push(101);
    proof {
        assert(v@ =~= tag_private());
    }
    v
}

/// The bytes of `trusting`.
pub(crate) fn tag_trusting_vec() -> (r: Vec<u8>)
    ensures
        r@ == tag_trusting(),
{
    let mut v: Vec<u8> = Vec::new();
    v.push(116);
    v.push(114);
    v.push(117);
    v.push(115);
    v.push(116);
    v.push(105);
    v.push(110);
    v.push(103);
    proof {
        assert(v@ =~= tag_trusting());
    }
    v
}

/// The canonical JSON object of a transaction: its payload fields, its
/// timestamp and its privacy tag, flattened, with sorted keys.
pub open spec fn tx_json(t: TransactionV) -> JsonV {
    match t.tx_type {
        TxTypeV::Private { key_used, encrypted_changes } => JsonV::Obj(
            seq![
                (key_encrypted_changes(), bytes_json(encrypted_changes)),
                (key_key_used(), bytes_json(key_used)),
                (key_made_at(), JsonV::UInt(t.made_at)),
                (key_privacy(), JsonV::Text(tag_private())),
            ],
        ),
        TxTypeV::Trusting { changes } => JsonV::Obj(
            seq![
                (key_changes(), bytes_json(changes)),
                (key_made_at(), JsonV::UInt(t.made_at)),
                (key_privacy(), JsonV::Text(tag_trusting())),
            ],
        ),
    }
}

/// The canonical text of a transaction.
pub open spec fn tx_canon(t: TransactionV) -> Seq<u8> {
    json_canon(tx_json(t), 0)
}

/// The concatenated canonical texts of a sequence of transactions: the
/// transcript a session's rolling hash consumes.
pub open spec fn txs_canon(ts: Seq<TransactionV>) -> Seq<u8>
    decreases ts,
{
    if ts.len() == 0 {
        Seq::empty()
    } else {
        txs_canon(ts.drop_last()) + tx_canon(ts.last())
    }
}

/// The hashed transcript distributes over concatenation.
pub proof fn lemma_txs_canon_concat(a: Seq<TransactionV>, b: Seq<TransactionV>)
    ensures
        txs_canon(a + b) == txs_canon(a) + txs_canon(b),
    decreases b,
{
    if b.len() == 0 {
        assert(a + b =~= a);
        assert(txs_canon(a) + txs_canon(b) =~= txs_canon(a));
    } else {
        assert((a + b).drop_last() =~= a + b.drop_last());
        assert((a + b).last() == b.last());
        lemma_txs_canon_concat(a, b.drop_last());
        assert(txs_canon(a) + txs_canon(b.drop_last()) + tx_canon(b.last()) =~= txs_canon(a)
            + txs_canon(b));
    }
}

/// The model of a concatenation of transaction vectors is the
/// concatenation of the models.
pub proof fn lemma_txs_view_concat(a: Seq<Transaction>, b: Seq<Transaction>)
    ensures
        txs_view(a + b) == txs_view(a) + txs_view(b),
{
    assert(txs_view(a + b) =~= txs_view(a) + txs_view(b));
}

/// The height of a transaction's JSON is at most 3.
pub proof fn lemma_tx_json_height(t: TransactionV)
    ensures
        json_height(tx_json(t)) <= 3,
{
    match t.tx_type {
        TxTypeV::Private { key_used, encrypted_changes } => {
            crate::json::lemma_bytes_json_height(key_used);
            crate::json::lemma_bytes_json_height(encrypted_changes);
            let es = tx_json(t)->Obj_0;
            assert(forall|i: int| 0 <= i < es.len() ==> json_height(#[trigger] es[i].1) <= 2);
            crate::json::lemma_entries_height_bound(es, 2);
        },
        TxTypeV::Trusting { changes } => {
            crate::json::lemma_bytes_json_height(changes);
            let es = tx_json(t)->Obj_0;
            assert(forall|i: int| 0 <= i < es.len() ==> json_height(#[trigger] es[i].1) <= 2);
            crate::json::lemma_entries_height_bound(es, 2);
        },
    }
}

impl Transaction {
    /// The payload size in bytes.
    pub fn payload_len(&self) -> (r: usize)
        ensures
            r == tx_payload(self@),
    {
        match &self.tx_type {
            TransactionType::Private { encrypted_changes, .. } => encrypted_changes.len(),
            TransactionType::Trusting { changes } => changes.len(),
        }
    }

    /// An owned copy with the same model.
    pub fn duplicate(&self) -> (r: Transaction)
        ensures
            r@ == self@,
    {
        let tx_type = match &self.tx_type {
            TransactionType::Private { key_used, encrypted_changes } => TransactionType::Private {
                key_used: crate::crypto::copy_bytes(key_used),
                encrypted_changes: crate::crypto::copy_bytes(encrypted_changes),
            },
            TransactionType::Trusting { changes } => TransactionType::Trusting {
                changes: crate::crypto::copy_bytes(changes),
            },
        };
        Transaction { made_at: self.made_at, tx_type }
    }

    /// The canonical JSON object of this transaction.
    pub fn to_json(&self) -> (r: JsonValue)
        ensures
            r@ == tx_json(self@),
    {
        match &self.tx_type {
            TransactionType::Private { key_used, encrypted_changes } => {
                let mut entries: Vec<(Vec<u8>, JsonValue)> = Vec::new();
                entries.push((key_encrypted_changes_vec(), json_bytes_array(encrypted_changes)));
                entries.push((key_key_used_vec(), json_bytes_array(key_used)));
                entries.push((key_made_at_vec(), JsonValue::UInt(self.made_at)));
                entries.push((key_privacy_vec(), JsonValue::Text(tag_private_vec())));
                let r = JsonValue::Obj(entries);
                proof {
                    crate::json::lemma_json_view_entries_index(entries@, 0);
                    crate::json::lemma_json_view_entries_index(entries@, 1);
                    crate::json::lemma_json_view_entries_index(entries@, 2);
                    crate::json::lemma_json_view_entries_index(entries@, 3);
                    assert(json_view_entries(entries@) =~= tx_json(self@)->Obj_0);
                }
                r
            },
            TransactionType::Trusting { changes } => {
                let mut entries: Vec<(Vec<u8>, JsonValue)> = Vec::new();
                entries.push((key_changes_vec(), json_bytes_array(changes)));
                entries.push((key_made_at_vec(), JsonValue::UInt(self.made_at)));
                entries.push((key_privacy_vec(), JsonValue::Text(tag_trusting_vec())));
                let r = JsonValue::Obj(entries);
                proof {
                    crate::json::lemma_json_view_entries_index(entries@, 0);
                    crate::json::lemma_json_view_entries_index(entries@, 1);
                    crate::json::lemma_json_view_entries_index(entries@, 2);
                    assert(json_view_entries(entries@) =~= tx_json(self@)->Obj_0);
                }
                r
            },
        }
    }

    /// The canonical text of this transaction.
    pub fn canonical_bytes(&self) -> (r: Vec<u8>)
        ensures
            r@ == tx_canon(self@),
    {
        let value = self.to_json();
        proof {
            lemma_tx_json_height(self@);
        }
        crate::json::json_to_bytes(&value)
    }
}

/// The model of a session log.
pub struct SessionLogV {
    pub transactions: Seq<TransactionV>,
    pub last_hash: Option<Seq<u8>>,
    pub consumed: Seq<u8>,
    pub signature_after: Seq<Option<Seq<u8>>>,
    pub last_signature: Seq<u8>,
}

/// The per-session log: ordered transactions, the rolling hash over their
/// canonical texts, sparse signature checkpoints, and the head signature.
pub struct SessionLog {
    pub transactions: Vec<Transaction>,
    pub last_hash: Option<crate::crypto::Hash>,
    pub streaming_hash: StreamingHash,
    pub signature_after: Vec<Option<Signature>>,
    pub last_signature: Signature,
}

/// The models of the checkpoint slots.
pub open spec fn sigs_view(s: Seq<Option<Signature>>) -> Seq<Option<Seq<u8>>> {
    s.map_values(
        |o: Option<Signature>|
            match o {
                Some(sig) => Some(sig@),
                None => None,
            },
    )
}

impl View for SessionLog {
    type V = SessionLogV;

    open spec fn view(&self) -> SessionLogV {
        SessionLogV {
            transactions: txs_view(self.transactions@),
            last_hash: match self.last_hash {
                Some(h) => Some(h@),
                None => None,
            },
            consumed: self.streaming_hash.consumed_bytes(),
            signature_after: sigs_view(self.signature_after@),
            last_signature: self.last_signature@,
        }
    }
}

/// The chain invariant of a session log: the rolling hash has consumed
/// exactly the canonical texts of the transactions in order, the last hash
/// is its digest (absent only on an empty log), each checkpoint slot lines
/// up with one transaction, and all signatures are 64 bytes.
pub open spec fn log_wf(l: SessionLogV) -> bool {
    &&& l.signature_after.len() == l.transactions.len()
    &&& l.consumed == txs_canon(l.transactions)
    &&& match l.last_hash {
        None => l.transactions.len() == 0,
        Some(h) => h == blake3_of(l.consumed),
    }
    &&& l.last_signature.len() == SIGNATURE_LENGTH
    &&& forall|i: int|
        0 <= i < l.signature_after.len() ==> match #[trigger] l.signature_after[i] {
            Some(s) => s.len() == SIGNATURE_LENGTH,
            None => true,
        }
    &&& txs_payload(l.transactions) <= usize::MAX
}

/// The model of an empty log.
pub open spec fn empty_log_view() -> SessionLogV {
    SessionLogV {
        transactions: Seq::empty(),
        last_hash: None,
        consumed: Seq::empty(),
        signature_after: Seq::empty(),
        last_signature: Seq::new(SIGNATURE_LENGTH as nat, |i: int| 0u8),
    }
}

impl SessionLog {
    /// A fresh, empty log.
    pub fn new_empty() -> (r: SessionLog)
        ensures
            r@ == empty_log_view(),
            log_wf(r@),
    {
        let r = SessionLog {
            transactions: Vec::new(),
            last_hash: None,
            streaming_hash: StreamingHash::new(),
            signature_after: Vec::new(),
            last_signature: Signature::zero(),
        };
        proof {
            assert(r@.transactions =~= empty_log_view().transactions);
            assert(r@.signature_after =~= empty_log_view().signature_after);
            assert(r@ == empty_log_view());
        }
        r
    }

    /// The number of transactions.
    pub fn transaction_count(&self) -> (r: usize)
        ensures
            r == self@.transactions.len(),
    {
        self.transactions.len()
    }

    /// The transactions.
    pub fn transactions(&self) -> (r: &Vec<Transaction>)
        ensures
            txs_view(r@) == self@.transactions,
    {
        &self.transactions
    }

    /// The current digest of the rolling hash, or nothing on an empty log.
    pub fn last_hash(&self) -> (r: &Option<crate::crypto::Hash>)
        ensures
            match r {
                Some(h) => self@.last_hash == Some(h@),
                None => self@.last_hash is None,
            },
    {
        &self.last_hash
    }

    /// The checkpoint slots, one per transaction.
    pub fn signature_after(&self) -> (r: &Vec<Option<Signature>>)
        ensures
            sigs_view(r@) == self@.signature_after,
    {
        &self.signature_after
    }

    /// The rolling hasher itself, for cloning ahead of a speculative
    /// append.
    pub fn streaming_hash_state(&self) -> (r: &StreamingHash)
        ensures
            r.consumed_bytes() == self@.consumed,
    {
        &self.streaming_hash
    }

    /// The signature over the current head.
    pub fn last_signature(&self) -> (r: &Signature)
        ensures
            r@ == self@.last_signature,
    {
        &self.last_signature
    }
}

impl Default for SessionLog {
    /// An empty log.
    fn default() -> (r: SessionLog)
        ensures
            r@ == empty_log_view(),
            log_wf(r@),
    {
        SessionLog::new_empty()
    }
}

/// A mapping from session IDs to their logs, keyed by the ID's model; keys
/// are unique, iteration order is the insertion order and carries no
/// meaning.
pub struct SessionMap {
    entries: Vec<(SessionID, SessionLog)>,
}

/// Unique keys and well-formed logs.
pub open spec fn sm_wf(s: Seq<(SidV, SessionLogV)>) -> bool {
    &&& am_keys_unique(s)
    &&& forall|i: int| 0 <= i < s.len() ==> log_wf((#[trigger] s[i]).1)
}

impl View for SessionMap {
    type V = Seq<(SidV, SessionLogV)>;

    closed spec fn view(&self) -> Seq<(SidV, SessionLogV)> {
        self.entries@.map_values(|e: (SessionID, SessionLog)| (e.0@, e.1@))
    }
}

impl SessionMap {
    /// An empty map.
    pub fn new() -> (r: SessionMap)
        ensures
            r@ == Seq::<(SidV, SessionLogV)>::empty(),
    {
        let r = SessionMap { entries: Vec::new() };
        proof {
            assert(r@ =~= Seq::<(SidV, SessionLogV)>::empty());
        }
        r
    }

    /// The number of sessions.
    pub fn len(&self) -> (r: usize)
        ensures
            r == self@.len(),
    {
        self.entries.len()
    }

    /// The entry at an index.
    pub fn entry_at(&self, i: usize) -> (r: (&SessionID, &SessionLog))
        requires
            i < self@.len(),
        ensures
            r.0@ == self@[i as int].0,
            r.1@ == self@[i as int].1,
    {
        let pair = &self.entries[i];
        (&pair.0, &pair.1)
    }

    /// The log of a session, if the session is known.
    pub fn get(&self, k: &SessionID) -> (r: Option<&SessionLog>)
        ensures
            match r {
                Some(log) => am_find(self@, k@) == Some(log@),
                None => am_find(self@, k@) is None,
            },
    {
        let mut i: usize = 0;
        proof {
            assert(self@.skip(0) =~= self@);
        }
        while i < self.entries.len()
            invariant
                i <= self@.len(),
                self@.len() == self.entries@.len(),
                am_find(self@, k@) == am_find(self@.skip(i as int), k@),
            decreases self@.len() - i,
        {
            if self.entries[i].0.same_as(k) {
                proof {
                    assert(self@.skip(i as int).first() == self@[i as int]);
                }
                return Some(&self.entries[i].1);
            }
            proof {
                assert(self@.skip(i as int).first() == self@[i as int]);
                assert(self@.skip(i as int).drop_first() =~= self@.skip(i + 1));
            }
            i = i + 1;
        }
        proof {
            assert(self@.skip(self@.len() as int) =~= Seq::<(SidV, SessionLogV)>::empty());
        }
        None
    }

    /// Installs the log of a session, replacing any previous one.
    pub fn set(&mut self, k: &SessionID, v: SessionLog)
        requires
            am_keys_unique(old(self)@),
        ensures
            final(self)@ == am_set(old(self)@, k@, v@),
            am_keys_unique(final(self)@),
            am_find(final(self)@, k@) == Some(v@),
            forall|other: SidV|
                other != k@ ==> am_find(final(self)@, other) == am_find(old(self)@, other),
            final(self)@.len() == if am_find(old(self)@, k@) is Some {
                old(self)@.len() as int
            } else {
                old(self)@.len() as int + 1
            },
            forall|j: int|
                0 <= j < final(self)@.len() ==> (#[trigger] final(self)@[j]) == (k@, v@)
                    || exists|i: int|
                    0 <= i < old(self)@.len() && (#[trigger] old(self)@[i]) == final(self)@[j],
    {
        let ghost before = self@;
        let mut i: usize = 0;
        while i < self.entries.len()
            invariant
                i <= self.entries@.len(),
                before == self.entries@.map_values(|e: (SessionID, SessionLog)| (e.0@, e.1@)),
                self@ == before,
                before == old(self)@,
                am_keys_unique(before),
                forall|j: int| 0 <= j < i ==> (#[trigger] before[j]).0 != k@,
            decreases self.entries@.len() - i,
        {
            if self.entries[i].0.same_as(k) {
                let ghost idx = i as int;
                let key_copy = self.entries[i].0.duplicate();
                self.entries.set(i, (key_copy, v));
                proof {
                    lemma_am_set_at(before, k@, self@[idx].1, idx);
                    assert(self@ =~= before.update(idx, (k@, self@[idx].1)));
                    assert(self@ =~= am_set(before, k@, self@[idx].1));
                    lemma_am_set_props(before, k@, self@[idx].1);
                    assert forall|j: int| 0 <= j < self@.len() implies (#[trigger] self@[j]) == (
                        k@,
                        self@[idx].1,
                    ) || exists|m: int|
                        0 <= m < before.len() && (#[trigger] before[m]) == self@[j] by {
                        lemma_am_set_entry(before, k@, self@[idx].1, j);
                    }
                }
                return ;
            }
            i = i + 1;
        }
        self.entries.push((k.duplicate(), v));
        proof {
            lemma_am_set_absent(before, k@, self@[before.len() as int].1);
            assert(self@ =~= before.push((k@, self@[before.len() as int].1)));
            assert(self@ =~= am_set(before, k@, self@[before.len() as int].1));
            lemma_am_set_props(before, k@, self@[before.len() as int].1);
            assert forall|j: int| 0 <= j < self@.len() implies (#[trigger] self@[j]) == (
                k@,
                self@[before.len() as int].1,
            ) || exists|m: int|
                0 <= m < before.len() && (#[trigger] before[m]) == self@[j] by {
                lemma_am_set_entry(before, k@, self@[before.len() as int].1, j);
            }
        }
    }
}

} // verus!


