//! The slim per-CoValue aggregate used by readers: header, session logs
//! and a cached known state.

use vstd::prelude::*;

use crate::covalue::{co_id_of_header, CoValueHeader};
use crate::ids::RawCoID;
use crate::json::{duplicate_json, JsonV, JsonValue};
use crate::session::{SessionMap, sm_wf};
use crate::state::counts_of;
use crate::sync::{CoValueKnownState, CountMap};

verus! {

/// A read-mostly CoValue aggregate: identity, header and session logs,
/// with the known-state summary memoised.
pub struct CoValueCore {
    id: RawCoID,
    header: CoValueHeader,
    session_logs: SessionMap,
    cached_known_state: Option<CoValueKnownState>,
}

impl CoValueCore {
    /// Well-formedness: the ID is the header's, the logs keep their chain
    /// invariant, and the cache, when present, matches the current state.
    pub closed spec fn wf(&self) -> bool {
        &&& self.header.wf()
        &&& self.id@ == co_id_of_header(self.header@)
        &&& sm_wf(self.session_logs@)
        &&& match self.cached_known_state {
            Some(ks) => ks@.id == self.id@ && ks@.header == true && ks@.sessions == counts_of(
                self.session_logs@,
            ),
            None => true,
        }
    }

    /// The identity the header determines.
    pub closed spec fn spec_id(&self) -> Seq<u8> {
        self.id@
    }

    /// The session logs.
    pub closed spec fn spec_sessions(&self) -> Seq<
        (crate::smap::SidV, crate::session::SessionLogV),
    > {
        self.session_logs@
    }

    /// The header's metadata.
    pub closed spec fn spec_meta(&self) -> Option<JsonV> {
        self.header@.meta
    }

    /// A core from its parts.
    pub fn new(id: RawCoID, header: CoValueHeader, session_logs: SessionMap) -> (r: CoValueCore)
        requires
            header.wf(),
            id@ == co_id_of_header(header@),
            sm_wf(session_logs@),
        ensures
            r.wf(),
            r.spec_id() == id@,
            r.spec_sessions() == session_logs@,
    {
        CoValueCore { id, header, session_logs, cached_known_state: None }
    }

    /// The known-state summary, freshly computed.
    pub fn known_state_uncached(&self) -> (r: CoValueKnownState)
        requires
            self.wf(),
        ensures
            r@.id == self.spec_id(),
            r@.header == true,
            r@.sessions == counts_of(self.spec_sessions()),
    {
        let mut counts = CountMap::new();
        let total = self.session_logs.len();
        let mut i: usize = 0;
        while i < total
            invariant
                i <= self.session_logs@.len(),
                total == self.session_logs@.len(),
                sm_wf(self.session_logs@),
                counts@ == counts_of(self.session_logs@.take(i as int)),
                counts@.len() == i,
            decreases total - i,
        {
            let pair = self.session_logs.entry_at(i);
            let n = pair.1.transaction_count();
            proof {
                assert forall|j: int| 0 <= j < counts@.len() implies (#[trigger] counts@[j]).0
                    != pair.0@ by {
                    assert(counts@[j].0 == self.session_logs@[j].0);
                    assert(self.session_logs@[j].0 != self.session_logs@[i as int].0);
                }
            }
            counts.push_new(pair.0, n);
            proof {
                assert(counts@ =~= counts_of(self.session_logs@.take(i + 1)));
            }
            i = i + 1;
        }
        proof {
            assert(self.session_logs@.take(self.session_logs@.len() as int)
                =~= self.session_logs@);
        }
        CoValueKnownState::new(self.id.duplicate(), true, counts)
    }

    /// The known-state summary, memoised.
    pub fn known_state(&mut self) -> (r: CoValueKnownState)
        requires
            old(self).wf(),
        ensures
            final(self).wf(),
            final(self).spec_sessions() == old(self).spec_sessions(),
            final(self).spec_id() == old(self).spec_id(),
            r@.id == old(self).spec_id(),
            r@.header == true,
            r@.sessions == counts_of(old(self).spec_sessions()),
    {
        match &self.cached_known_state {
            Some(ks) => ks.duplicate(),
            None => {
                let ks = self.known_state_uncached();
                self.cached_known_state = Some(ks.duplicate());
                ks
            },
        }
    }

    /// The header's metadata, copied out.
    pub fn meta(&self) -> (r: Option<JsonValue>)
        ensures
            match r {
                Some(m) => self.spec_meta() == Some(m@),
                None => self.spec_meta() is None,
            },
    {
        match self.header.meta() {
            Some(m) => Some(duplicate_json(m)),
            None => None,
        }
    }
}

} // verus!
