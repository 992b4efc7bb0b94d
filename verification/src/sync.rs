//! Synchronisation messages: known states and the message taxonomy.

use vstd::prelude::*;

use crate::covalue::{CoValueHeader, HeaderV};
use crate::crypto::Signature;
use crate::ids::{RawCoID, SessionID};
use crate::priority::CoValuePriority;
use crate::session::{txs_view, Transaction, TransactionV};
use crate::smap::{
    am_find, am_keys_unique, am_set, lemma_am_set_absent, lemma_am_set_at, lemma_am_set_entry,
    lemma_am_set_props, SidV,
};

verus! {

/// A mapping from sessions to how many of their transactions are known.
pub struct CountMap {
    entries: Vec<(SessionID, usize)>,
}

impl View for CountMap {
    type V = Seq<(SidV, usize)>;

    closed spec fn view(&self) -> Seq<(SidV, usize)> {
        self.entries@.map_values(|e: (SessionID, usize)| (e.0@, e.1))
    }
}

/// The count under a key, with absent sessions counting zero.
pub open spec fn count_or_zero(s: Seq<(SidV, usize)>, k: SidV) -> nat {
    match am_find(s, k) {
        Some(c) => c as nat,
        None => 0,
    }
}

impl CountMap {
    /// An empty map.
    pub fn new() -> (r: CountMap)
        ensures
            r@ == Seq::<(SidV, usize)>::empty(),
    {
        let r = CountMap { entries: Vec::new() };
        proof {
            assert(r@ =~= Seq::<(SidV, usize)>::empty());
        }
        r
    }

    /// The number of sessions counted.
    pub fn len(&self) -> (r: usize)
        ensures
            r == self@.len(),
    {
        self.entries.len()
    }

    /// The entry at an index.
    pub fn entry_at(&self, i: usize) -> (r: (&SessionID, usize))
        requires
            i < self@.len(),
        ensures
            r.0@ == self@[i as int].0,
            r.1 == self@[i as int].1,
    {
        let pair = &self.entries[i];
        (&pair.0, pair.1)
    }

    /// The count of a session, if the session is listed.
    pub fn get(&self, k: &SessionID) -> (r: Option<usize>)
        ensures
            r == am_find(self@, k@),
    {
        let mut i: usize = 0;
        proof {
            assert(self@.skip(0) =~= self@);
        }
        while i < self.entries.len()
            invariant
                i <= self@.len(),
                self@.len() == self.entries@.len(),
                am_find(self@, k@) == am_find(self@.skip(i as int), k@),
            decreases self@.len() - i,
        {
            if self.entries[i].0.same_as(k) {
                proof {
                    assert(self@.skip(i as int).first() == self@[i as int]);
                }
                return Some(self.entries[i].1);
            }
            proof {
                assert(self@.skip(i as int).first() == self@[i as int]);
                assert(self@.skip(i as int).drop_first() =~= self@.skip(i + 1));
            }
            i = i + 1;
        }
        proof {
            assert(self@.skip(self@.len() as int) =~= Seq::<(SidV, usize)>::empty());
        }
        None
    }

    /// Installs the count of a session, replacing any previous one.
    pub fn set(&mut self, k: &SessionID, v: usize)
        requires
            am_keys_unique(old(self)@),
        ensures
            final(self)@ == am_set(old(self)@, k@, v),
            am_keys_unique(final(self)@),
            am_find(final(self)@, k@) == Some(v),
            forall|other: SidV|
                other != k@ ==> am_find(final(self)@, other) == am_find(old(self)@, other),
    {
        let ghost before = self@;
        let mut i: usize = 0;
        while i < self.entries.len()
            invariant
                i <= self.entries@.len(),
                before == self.entries@.map_values(|e: (SessionID, usize)| (e.0@, e.1)),
                self@ == before,
                before == old(self)@,
                am_keys_unique(before),
                forall|j: int| 0 <= j < i ==> (#[trigger] before[j]).0 != k@,
            decreases self.entries@.len() - i,
        {
            if self.entries[i].0.same_as(k) {
                let ghost idx = i as int;
                let key_copy = self.entries[i].0.duplicate();
                self.entries.set(i, (key_copy, v));
                proof {
                    lemma_am_set_at(before, k@, v, idx);
                    assert(self@ =~= before.update(idx, (k@, v)));
                    assert(self@ =~= am_set(before, k@, v));
                    lemma_am_set_props(before, k@, v);
                }
                return ;
            }
            i = i + 1;
        }
        self.entries.push((k.duplicate(), v));
        proof {
            lemma_am_set_absent(before, k@, v);
            assert(self@ =~= before.push((k@, v)));
            assert(self@ =~= am_set(before, k@, v));
            lemma_am_set_props(before, k@, v);
        }
    }

    /// Appends a session's count; the session must not be listed yet.
    pub fn push_new(&mut self, k: &SessionID, v: usize)
        requires
            forall|j: int| 0 <= j < old(self)@.len() ==> (#[trigger] old(self)@[j]).0 != k@,
        ensures
            final(self)@ == old(self)@.push((k@, v)),
    {
        let ghost before = self@;
        self.entries.push((k.duplicate(), v));
        proof {
            assert(self@ =~= before.push((k@, v)));
        }
    }

    /// An owned copy with the same model.
    pub fn duplicate(&self) -> (r: CountMap)
        ensures
            r@ == self@,
    {
        let mut entries: Vec<(SessionID, usize)> = Vec::new();
        let mut i: usize = 0;
        while i < self.entries.len()
            invariant
                i <= self.entries@.len(),
                entries@.len() == i,
                forall|j: int|
                    0 <= j < i ==> (#[trigger] entries@[j]).0@ == self.entries@[j].0@
                        && entries@[j].1 == self.entries@[j].1,
            decreases self.entries@.len() - i,
        {
            entries.push((self.entries[i].0.duplicate(), self.entries[i].1));
            i = i + 1;
        }
        let r = CountMap { entries };
        proof {
            assert(r@ =~= self@);
        }
        r
    }
}

/// The model of a known state.
pub struct KnownStateV {
    pub id: Seq<u8>,
    pub header: bool,
    pub sessions: Seq<(SidV, usize)>,
}

/// The compact summary peers exchange: which CoValue, whether its header is
/// known, and how many transactions of each session are known.
pub struct CoValueKnownState {
    pub id: RawCoID,
    pub header: bool,
    pub sessions: CountMap,
}

impl View for CoValueKnownState {
    type V = KnownStateV;

    open spec fn view(&self) -> KnownStateV {
        KnownStateV { id: self.id@, header: self.header, sessions: self.sessions@ }
    }
}

impl CoValueKnownState {
    /// A known state from its parts.
    pub fn new(id: RawCoID, header: bool, sessions: CountMap) -> (r: CoValueKnownState)
        ensures
            r@.id == id@,
            r@.header == header,
            r@.sessions == sessions@,
    {
        CoValueKnownState { id, header, sessions }
    }

    /// An owned copy with the same model.
    pub fn duplicate(&self) -> (r: CoValueKnownState)
        ensures
            r@ == self@,
    {
        CoValueKnownState {
            id: self.id.duplicate(),
            header: self.header,
            sessions: self.sessions.duplicate(),
        }
    }

    /// Whether this summary claims knowledge of nothing at all.
    pub fn is_empty(&self) -> (r: bool)
        ensures
            r == (!self@.header && self@.sessions.len() == 0),
    {
        !self.header && self.sessions.len() == 0
    }
}

/// The model of one session's new content.
pub struct SessionNewContentV {
    pub after: usize,
    pub new_transactions: Seq<TransactionV>,
    pub last_signature: Seq<u8>,
}

/// New content for one session: transactions starting after index `after`,
/// and a signature attesting the rolling hash through the last of them.
pub struct SessionNewContent {
    pub after: usize,
    pub new_transactions: Vec<Transaction>,
    pub last_signature: Signature,
}

impl View for SessionNewContent {
    type V = SessionNewContentV;

    open spec fn view(&self) -> SessionNewContentV {
        SessionNewContentV {
            after: self.after,
            new_transactions: txs_view(self.new_transactions@),
            last_signature: self.last_signature@,
        }
    }
}

impl SessionNewContent {
    /// An owned copy with the same model.
    pub fn duplicate(&self) -> (r: SessionNewContent)
        ensures
            r@ == self@,
    {
        let mut new_transactions: Vec<Transaction> = Vec::new();
        let mut i: usize = 0;
        while i < self.new_transactions.len()
            invariant
                i <= self.new_transactions@.len(),
                new_transactions@.len() == i,
                forall|j: int|
                    0 <= j < i ==> (#[trigger] new_transactions@[j])@
                        == self.new_transactions@[j]@,
            decreases self.new_transactions@.len() - i,
        {
            new_transactions.push(self.new_transactions[i].duplicate());
            i = i + 1;
        }
        let r = SessionNewContent {
            after: self.after,
            new_transactions,
            last_signature: self.last_signature.duplicate(),
        };
        proof {
            assert(txs_view(new_transactions@) =~= txs_view(self.new_transactions@));
        }
        r
    }
}

/// A mapping from sessions to their new content within one piece.
pub struct ContentMap {
    entries: Vec<(SessionID, SessionNewContent)>,
}

impl View for ContentMap {
    type V = Seq<(SidV, SessionNewContentV)>;

    closed spec fn view(&self) -> Seq<(SidV, SessionNewContentV)> {
        self.entries@.map_values(|e: (SessionID, SessionNewContent)| (e.0@, e.1@))
    }
}

impl ContentMap {
    /// An empty map.
    pub fn new() -> (r: ContentMap)
        ensures
            r@ == Seq::<(SidV, SessionNewContentV)>::empty(),
    {
        let r = ContentMap { entries: Vec::new() };
        proof {
            assert(r@ =~= Seq::<(SidV, SessionNewContentV)>::empty());
        }
        r
    }

    /// The number of sessions with content.
    pub fn len(&self) -> (r: usize)
        ensures
            r == self@.len(),
    {
        self.entries.len()
    }

    /// The entry at an index.
    pub fn entry_at(&self, i: usize) -> (r: (&SessionID, &SessionNewContent))
        requires
            i < self@.len(),
        ensures
            r.0@ == self@[i as int].0,
            r.1@ == self@[i as int].1,
    {
        let pair = &self.entries[i];
        (&pair.0, &pair.1)
    }

    /// An owned copy of a session's entry, if the session has one.
    pub fn get_entry(&self, k: &SessionID) -> (r: Option<SessionNewContent>)
        ensures
            match r {
                Some(e) => am_find(self@, k@) == Some(e@),
                None => am_find(self@, k@) is None,
            },
    {
        let mut i: usize = 0;
        proof {
            assert(self@.skip(0) =~= self@);
        }
        while i < self.entries.len()
            invariant
                i <= self@.len(),
                self@.len() == self.entries@.len(),
                am_find(self@, k@) == am_find(self@.skip(i as int), k@),
            decreases self@.len() - i,
        {
            if self.entries[i].0.same_as(k) {
                proof {
                    assert(self@.skip(i as int).first() == self@[i as int]);
                }
                return Some(self.entries[i].1.duplicate());
            }
            proof {
                assert(self@.skip(i as int).first() == self@[i as int]);
                assert(self@.skip(i as int).drop_first() =~= self@.skip(i + 1));
            }
            i = i + 1;
        }
        proof {
            assert(self@.skip(self@.len() as int) =~= Seq::<(SidV, SessionNewContentV)>::empty());
        }
        None
    }

    /// Installs a session's entry, replacing any previous one.
    pub fn set(&mut self, k: &SessionID, v: SessionNewContent)
        requires
            am_keys_unique(old(self)@),
        ensures
            final(self)@ == am_set(old(self)@, k@, v@),
            am_keys_unique(final(self)@),
            am_find(final(self)@, k@) == Some(v@),
            forall|other: SidV|
                other != k@ ==> am_find(final(self)@, other) == am_find(old(self)@, other),
            forall|j: int|
                0 <= j < final(self)@.len() ==> (#[trigger] final(self)@[j]) == (k@, v@)
                    || exists|i: int|
                    0 <= i < old(self)@.len() && (#[trigger] old(self)@[i]) == final(self)@[j],
    {
        let ghost before = self@;
        let ghost vv = v@;
        let mut i: usize = 0;
        while i < self.entries.len()
            invariant
                i <= self.entries@.len(),
                before == self.entries@.map_values(
                    |e: (SessionID, SessionNewContent)| (e.0@, e.1@),
                ),
                self@ == before,
                before == old(self)@,
                am_keys_unique(before),
                forall|j: int| 0 <= j < i ==> (#[trigger] before[j]).0 != k@,
            decreases self.entries@.len() - i,
        {
            if self.entries[i].0.same_as(k) {
                let ghost idx = i as int;
                let key_copy = self.entries[i].0.duplicate();
                self.entries.set(i, (key_copy, v));
                proof {
                    lemma_am_set_at(before, k@, self@[idx].1, idx);
                    assert(self@ =~= before.update(idx, (k@, self@[idx].1)));
                    assert(self@ =~= am_set(before, k@, self@[idx].1));
                    lemma_am_set_props(before, k@, self@[idx].1);
                    assert forall|j: int| 0 <= j < self@.len() implies (#[trigger] self@[j]) == (
                        k@,
                        self@[idx].1,
                    ) || exists|m: int|
                        0 <= m < before.len() && (#[trigger] before[m]) == self@[j] by {
                        lemma_am_set_entry(before, k@, self@[idx].1, j);
                    }
                }
                return ;
            }
            i = i + 1;
        }
        self.entries.push((k.duplicate(), v));
        proof {
            let ghost last = before.len() as int;
            lemma_am_set_absent(before, k@, self@[last].1);
            assert(self@ =~= before.push((k@, self@[last].1)));
            assert(self@ =~= am_set(before, k@, self@[last].1));
            lemma_am_set_props(before, k@, self@[last].1);
            assert forall|j: int| 0 <= j < self@.len() implies (#[trigger] self@[j]) == (
                k@,
                self@[last].1,
            ) || exists|m: int|
                0 <= m < before.len() && (#[trigger] before[m]) == self@[j] by {
                lemma_am_set_entry(before, k@, self@[last].1, j);
            }
        }
    }

    /// An owned copy with the same model.
    pub fn duplicate(&self) -> (r: ContentMap)
        ensures
            r@ == self@,
    {
        let mut entries: Vec<(SessionID, SessionNewContent)> = Vec::new();
        let mut i: usize = 0;
        while i < self.entries.len()
            invariant
                i <= self.entries@.len(),
                entries@.len() == i,
                forall|j: int|
                    0 <= j < i ==> (#[trigger] entries@[j]).0@ == self.entries@[j].0@
                        && entries@[j].1@ == self.entries@[j].1@,
            decreases self.entries@.len() - i,
        {
            entries.push((self.entries[i].0.duplicate(), self.entries[i].1.duplicate()));
            i = i + 1;
        }
        let r = ContentMap { entries };
        proof {
            assert(r@ =~= self@);
        }
        r
    }
}

/// The model of a sync message.
pub enum SyncMessageV {
    Load { known_state: KnownStateV },
    KnownState { as_dependency_of: Option<Seq<u8>>, is_correction: Option<bool>, known_state: KnownStateV },
    NewContent {
        id: Seq<u8>,
        header: Option<HeaderV>,
        priority: CoValuePriority,
        new: Seq<(SidV, SessionNewContentV)>,
    },
    Done { id: Seq<u8> },
}

/// The wire-level message taxonomy, discriminated by an `action` string.
pub enum SyncMessage {
    /// The intent to load a CoValue, with what the sender already has.
    LoadMessage { known_state: CoValueKnownState },
    /// A summary of the sender's state, sent in reply to a load.
    /// `as_dependency_of` names a CoValue for which this one is a
    /// dependency; `is_correction` asks the peer to re-evaluate its own
    /// sent state.
    KnownStateMessage {
        as_dependency_of: Option<RawCoID>,
        is_correction: Option<bool>,
        known_state: CoValueKnownState,
    },
    /// New content closing a gap: the header when the peer lacks it, and
    /// per-session slices of new transactions.
    NewContentMessage {
        id: RawCoID,
        header: Option<CoValueHeader>,
        priority: CoValuePriority,
        new: ContentMap,
    },
    /// The sender unsubscribes from this CoValue.
    DoneMessage { id: RawCoID },
}

impl View for SyncMessage {
    type V = SyncMessageV;

    open spec fn view(&self) -> SyncMessageV {
        match self {
            SyncMessage::LoadMessage { known_state } => SyncMessageV::Load {
                known_state: known_state@,
            },
            SyncMessage::KnownStateMessage { as_dependency_of, is_correction, known_state } => SyncMessageV::KnownState {
                as_dependency_of: match as_dependency_of {
                    Some(id) => Some(id@),
                    None => None,
                },
                is_correction: *is_correction,
                known_state: known_state@,
            },
            SyncMessage::NewContentMessage { id, header, priority, new } => SyncMessageV::NewContent {
                id: id@,
                header: match header {
                    Some(h) => Some(h@),
                    None => None,
                },
                priority: *priority,
                new: new@,
            },
            SyncMessage::DoneMessage { id } => SyncMessageV::Done { id: id@ },
        }
    }
}

impl SyncMessage {
    /// An owned copy with the same model.
    pub fn duplicate(&self) -> (r: SyncMessage)
        ensures
            r@ == self@,
    {
        match self {
            SyncMessage::LoadMessage { known_state } => SyncMessage::LoadMessage {
                known_state: known_state.duplicate(),
            },
            SyncMessage::KnownStateMessage { as_dependency_of, is_correction, known_state } => SyncMessage::KnownStateMessage {
                as_dependency_of: match as_dependency_of {
                    Some(id) => Some(id.duplicate()),
                    None => None,
                },
                is_correction: *is_correction,
                known_state: known_state.duplicate(),
            },
            SyncMessage::NewContentMessage { id, header, priority, new } => SyncMessage::NewContentMessage {
                id: id.duplicate(),
                header: match header {
                    Some(h) => Some(h.duplicate()),
                    None => None,
                },
                priority: *priority,
                new: new.duplicate(),
            },
            SyncMessage::DoneMessage { id } => SyncMessage::DoneMessage { id: id.duplicate() },
        }
    }
}

/// The models of a list of messages.
pub open spec fn msgs_view(ms: Seq<SyncMessage>) -> Seq<SyncMessageV> {
    ms.map_values(|m: SyncMessage| m@)
}

/// An owned copy of a list of messages, with the same models.
pub fn duplicate_messages(ms: &Vec<SyncMessage>) -> (r: Vec<SyncMessage>)
    ensures
        msgs_view(r@) == msgs_view(ms@),
        r@.len() == ms@.len(),
{
    let mut out: Vec<SyncMessage> = Vec::new();
    let mut i: usize = 0;
    while i < ms.len()
        invariant
            i <= ms@.len(),
            out@.len() == i,
            forall|j: int| 0 <= j < i ==> (#[trigger] out@[j])@ == ms@[j]@,
        decreases ms@.len() - i,
    {
        out.push(ms[i].duplicate());
        i = i + 1;
    }
    proof {
        assert(msgs_view(out@) =~= msgs_view(ms@));
    }
    out
}

} // verus!
