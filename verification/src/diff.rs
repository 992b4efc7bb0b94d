//! The content-since diff: what a peer lacks, as a list of content pieces.
//!
//! The specification half of this module defines what a correct diff looks
//! like: every piece names the right CoValue and priority, the first piece
//! carries the header exactly when the peer lacks it, and, session by
//! session, the emitted slices chain gap-free from what the peer knew to
//! the session head, each slice ending at a signature checkpoint or at the
//! head with the matching signature.

use vstd::prelude::*;

use crate::covalue::spec_priority;
use crate::session::SessionLogV;
use crate::smap::{am_find, am_keys_unique, SidV};
use crate::state::StateV;
use crate::sync::{count_or_zero, KnownStateV, SessionNewContentV, SyncMessageV};

verus! {

/// Whether the peer already has the header; an absent summary means the
/// peer knows nothing.
pub open spec fn peer_has_header(peer: Option<KnownStateV>) -> bool {
    match peer {
        Some(p) => p.header,
        None => false,
    }
}

/// How many transactions of session `k` the peer already has.
pub open spec fn peer_base(peer: Option<KnownStateV>, k: SidV) -> nat {
    match peer {
        Some(p) => count_or_zero(p.sessions, k),
        None => 0,
    }
}

/// The entries for session `k` across a list of pieces, in piece order.
pub open spec fn entries_for(msgs: Seq<SyncMessageV>, k: SidV) -> Seq<SessionNewContentV>
    decreases msgs,
{
    if msgs.len() == 0 {
        Seq::empty()
    } else {
        let head = match msgs.first() {
            SyncMessageV::NewContent { new, .. } => match am_find(new, k) {
                Some(e) => seq![e],
                None => Seq::<SessionNewContentV>::empty(),
            },
            _ => Seq::<SessionNewContentV>::empty(),
        };
        head + entries_for(msgs.drop_first(), k)
    }
}

/// Where a chain of entries ends when it starts at `from`: each entry
/// advances the cursor by the transactions it carries.
pub open spec fn slices_end(entries: Seq<SessionNewContentV>, from: nat) -> nat
    decreases entries,
{
    if entries.len() == 0 {
        from
    } else {
        slices_end(entries.drop_first(), from + entries.first().new_transactions.len())
    }
}

/// A gap-free chain of slices of `log` starting at `from`: each entry
/// starts exactly where the previous one ended, and carries exactly the
/// log's transactions over its range (an empty entry carries nothing).
pub open spec fn slices_ok(entries: Seq<SessionNewContentV>, log: SessionLogV, from: nat) -> bool
    decreases entries,
{
    if entries.len() == 0 {
        true
    } else {
        let e = entries.first();
        let n = e.new_transactions.len();
        &&& e.after == from
        &&& (n == 0 || (from + n <= log.transactions.len() && e.new_transactions
            == log.transactions.subrange(from as int, (from + n) as int)))
        &&& slices_ok(entries.drop_first(), log, from + n)
    }
}

/// Each entry's signature attests its end: the checkpoint signature stored
/// after its last transaction, or the log's head signature when the entry
/// reaches (or lies at) the head.
pub open spec fn entry_signature_ok(e: SessionNewContentV, log: SessionLogV) -> bool {
    let end = e.after + e.new_transactions.len();
    if end > log.transactions.len() {
        e.last_signature == log.last_signature
    } else if end == log.transactions.len() {
        e.last_signature == log.last_signature || (0 < end <= log.signature_after.len()
            && log.signature_after[end - 1] == Some(e.last_signature))
    } else {
        0 < end <= log.signature_after.len() && log.signature_after[end - 1] == Some(
            e.last_signature,
        )
    }
}

/// The total payload bytes a piece map carries: the sum over its entries
/// of their transactions' payload sizes.
pub open spec fn map_payload(m: Seq<(SidV, SessionNewContentV)>) -> nat
    decreases m,
{
    if m.len() == 0 {
        0
    } else {
        crate::session::txs_payload(m.first().1.new_transactions) + map_payload(m.drop_first())
    }
}

/// Setting an entry exchanges the old payload under that key for the new
/// one and leaves the rest of the sum alone.
pub proof fn lemma_map_payload_set(
    m: Seq<(SidV, SessionNewContentV)>,
    k: SidV,
    v: SessionNewContentV,
)
    ensures
        map_payload(crate::smap::am_set(m, k, v)) + (match am_find(m, k) {
            Some(e) => crate::session::txs_payload(e.new_transactions),
            None => 0,
        }) == map_payload(m) + crate::session::txs_payload(v.new_transactions),
    decreases m,
{
    let t = crate::smap::am_set(m, k, v);
    if m.len() == 0 {
        assert(t == seq![(k, v)]);
        assert(t.first() == (k, v));
        assert(t.drop_first() =~= Seq::<(SidV, SessionNewContentV)>::empty());
        assert(map_payload(t.drop_first()) == 0);
        assert(map_payload(t) == crate::session::txs_payload(t.first().1.new_transactions)
            + map_payload(t.drop_first()));
    } else if m.first().0 == k {
        assert(t == seq![(k, v)] + m.drop_first());
        assert(t.first() == (k, v));
        assert(t.drop_first() =~= m.drop_first());
        assert(map_payload(t) == crate::session::txs_payload(t.first().1.new_transactions)
            + map_payload(t.drop_first()));
        assert(map_payload(m) == crate::session::txs_payload(m.first().1.new_transactions)
            + map_payload(m.drop_first()));
    } else {
        assert(t == seq![m.first()] + crate::smap::am_set(m.drop_first(), k, v));
        assert(t.first() == m.first());
        assert(t.drop_first() =~= crate::smap::am_set(m.drop_first(), k, v));
        lemma_map_payload_set(m.drop_first(), k, v);
        assert(map_payload(t) == crate::session::txs_payload(t.first().1.new_transactions)
            + map_payload(t.drop_first()));
        assert(map_payload(m) == crate::session::txs_payload(m.first().1.new_transactions)
            + map_payload(m.drop_first()));
        assert(am_find(m, k) == am_find(m.drop_first(), k));
    }
}

/// A piece holding exactly one checkpoint-bounded slice of one session:
/// one entry, carrying at least one transaction, with no populated
/// checkpoint slot strictly inside its range (so the slice could not have
/// been cut shorter at a checkpoint).
pub open spec fn single_slice_piece(st: StateV, m: Seq<(SidV, SessionNewContentV)>) -> bool {
    m.len() == 1 && match am_find(st.sessions, m[0].0) {
        Some(log) => {
            let e = m[0].1;
            let end = e.after + e.new_transactions.len();
            &&& e.new_transactions.len() > 0
            &&& end <= log.transactions.len()
            &&& e.new_transactions == log.transactions.subrange(e.after as int, end as int)
            &&& forall|x: int|
                e.after <= x < end - 1 ==> (0 <= x < log.signature_after.len() ==> (
                #[trigger] log.signature_after[x]) is None)
            &&& (end == log.transactions.len() || (0 <= end - 1 < log.signature_after.len()
                && log.signature_after[end - 1] is Some))
        },
        None => false,
    }
}

/// The per-piece size discipline: a piece's payload stays under the
/// recommended size unless the piece is a single indivisible
/// checkpoint-bounded slice (whose size the checkpoint spacing governs).
pub open spec fn piece_ok(st: StateV, m: Seq<(SidV, SessionNewContentV)>) -> bool {
    map_payload(m) < crate::MAX_RECOMMENDED_TX_SIZE || single_slice_piece(st, m)
}

/// An entry that carries no transactions stands only for a session the
/// peer already knows in full.
pub open spec fn entries_empty_ok(
    st: StateV,
    peer: Option<KnownStateV>,
    m: Seq<(SidV, SessionNewContentV)>,
) -> bool {
    forall|mm: int|
        0 <= mm < m.len() && (#[trigger] m[mm]).1.new_transactions.len() == 0 ==> match am_find(
            st.sessions,
            m[mm].0,
        ) {
            Some(log) => peer_base(peer, m[mm].0) >= log.transactions.len(),
            None => true,
        }
}

/// A well-formed piece map: unique keys, every key a session of the state,
/// and every entry's signature attesting its end.
pub open spec fn map_ok(st: StateV, m: Seq<(SidV, SessionNewContentV)>) -> bool {
    &&& am_keys_unique(m)
    &&& forall|j: int|
        0 <= j < m.len() ==> match am_find(st.sessions, (#[trigger] m[j]).0) {
            Some(log) => entry_signature_ok(m[j].1, log),
            None => false,
        }
}

/// The entries for session `k` across a list of piece maps.
pub open spec fn entries_for_maps(
    ms: Seq<Seq<(SidV, SessionNewContentV)>>,
    k: SidV,
) -> Seq<SessionNewContentV>
    decreases ms,
{
    if ms.len() == 0 {
        Seq::empty()
    } else {
        entries_for_maps(ms.drop_last(), k) + (match am_find(ms.last(), k) {
            Some(e) => seq![e],
            None => Seq::<SessionNewContentV>::empty(),
        })
    }
}

/// Appending a piece map appends its contribution.
pub proof fn lemma_efm_snoc(ms: Seq<Seq<(SidV, SessionNewContentV)>>, m: Seq<(SidV, SessionNewContentV)>, k: SidV)
    ensures
        entries_for_maps(ms.push(m), k) == entries_for_maps(ms, k) + (match am_find(m, k) {
            Some(e) => seq![e],
            None => Seq::<SessionNewContentV>::empty(),
        }),
{
    assert(ms.push(m).drop_last() =~= ms);
    assert(ms.push(m).last() == m);
}

/// Replacing the last piece map replaces only its contribution.
pub proof fn lemma_efm_update_last(
    ms: Seq<Seq<(SidV, SessionNewContentV)>>,
    m: Seq<(SidV, SessionNewContentV)>,
    k: SidV,
)
    requires
        ms.len() > 0,
    ensures
        entries_for_maps(ms.update(ms.len() - 1, m), k) == entries_for_maps(ms.drop_last(), k) + (
        match am_find(m, k) {
            Some(e) => seq![e],
            None => Seq::<SessionNewContentV>::empty(),
        }),
{
    let upd = ms.update(ms.len() - 1, m);
    assert(upd.drop_last() =~= ms.drop_last());
    assert(upd.last() == m);
}

/// A chain that ends at `from + n` after one more entry.
pub proof fn lemma_slices_snoc(
    es: Seq<SessionNewContentV>,
    e: SessionNewContentV,
    log: SessionLogV,
    from: nat,
)
    requires
        slices_ok(es, log, from),
        e.after == slices_end(es, from),
        e.new_transactions.len() == 0 || (e.after + e.new_transactions.len()
            <= log.transactions.len() && e.new_transactions == log.transactions.subrange(
            e.after as int,
            e.after + e.new_transactions.len(),
        )),
    ensures
        slices_ok(es.push(e), log, from),
        slices_end(es.push(e), from) == slices_end(es, from) + e.new_transactions.len(),
    decreases es,
{
    if es.len() == 0 {
        assert(es.push(e).drop_first() =~= Seq::<SessionNewContentV>::empty());
        assert(es.push(e).first() == e);
        assert(slices_end(es, from) == from);
        let after_one = (from + e.new_transactions.len()) as nat;
        assert(slices_ok(Seq::<SessionNewContentV>::empty(), log, after_one));
        assert(slices_end(Seq::<SessionNewContentV>::empty(), after_one) == after_one);
        assert(slices_ok(es.push(e), log, from));
        assert(slices_end(es.push(e), from) == after_one);
    } else {
        assert(es.push(e).first() == es.first());
        assert(es.push(e).drop_first() =~= es.drop_first().push(e));
        let n0 = es.first().new_transactions.len();
        assert(slices_end(es, from) == slices_end(es.drop_first(), (from + n0) as nat));
        lemma_slices_snoc(es.drop_first(), e, log, (from + n0) as nat);
        assert(slices_ok(es.push(e).drop_first(), log, (from + n0) as nat));
        assert(slices_ok(es.push(e), log, from));
        assert(slices_end(es.push(e), from) == slices_end(es.push(e).drop_first(), (from
            + n0) as nat));
    }
}

/// What a chain says of its trailing entry: it starts where the rest of
/// the chain ends, carries the log's transactions over its range, and the
/// chain ends where it ends.
pub proof fn lemma_slices_last(es: Seq<SessionNewContentV>, log: SessionLogV, from: nat)
    requires
        es.len() > 0,
        slices_ok(es, log, from),
    ensures
        es.last().after == slices_end(es.drop_last(), from),
        slices_end(es, from) == es.last().after + es.last().new_transactions.len(),
        es.last().new_transactions.len() == 0 || (es.last().after
            + es.last().new_transactions.len() <= log.transactions.len()
            && es.last().new_transactions == log.transactions.subrange(
            es.last().after as int,
            es.last().after + es.last().new_transactions.len(),
        )),
    decreases es,
{
    if es.len() == 1 {
        assert(es.last() == es.first());
        assert(es.drop_last() =~= Seq::<SessionNewContentV>::empty());
        assert(es.drop_first() =~= Seq::<SessionNewContentV>::empty());
        assert(slices_end(es, from) == slices_end(
            es.drop_first(),
            (from + es.first().new_transactions.len()) as nat,
        ));
    } else {
        let n0 = es.first().new_transactions.len();
        assert(es.drop_first().last() == es.last());
        lemma_slices_last(es.drop_first(), log, (from + n0) as nat);
        assert(slices_end(es, from) == slices_end(es.drop_first(), (from + n0) as nat));
        assert(es.drop_last().first() == es.first());
        assert(es.drop_last().drop_first() =~= es.drop_first().drop_last());
        assert(slices_end(es.drop_last(), from) == slices_end(
            es.drop_last().drop_first(),
            (from + n0) as nat,
        ));
    }
}

/// Extending the trailing entry of a chain by a further slice keeps the
/// chain and moves its end.
pub proof fn lemma_slices_extend_last(
    es: Seq<SessionNewContentV>,
    e2: SessionNewContentV,
    log: SessionLogV,
    from: nat,
)
    requires
        es.len() > 0,
        slices_ok(es, log, from),
        e2.after == es.last().after,
        es.last().new_transactions.len() <= e2.new_transactions.len(),
        e2.new_transactions.len() == 0 || (e2.after + e2.new_transactions.len()
            <= log.transactions.len() && e2.new_transactions == log.transactions.subrange(
            e2.after as int,
            e2.after + e2.new_transactions.len(),
        )),
        es.last().new_transactions.len() == 0 || es.last().new_transactions
            == log.transactions.subrange(
            es.last().after as int,
            es.last().after + es.last().new_transactions.len(),
        ),
    ensures
        slices_ok(es.drop_last().push(e2), log, from),
        slices_end(es.drop_last().push(e2), from) == slices_end(es.drop_last(), from)
            + e2.new_transactions.len(),
    decreases es,
{
    if es.len() == 1 {
        assert(es.drop_last() =~= Seq::<SessionNewContentV>::empty());
        assert(es.first() == es.last());
        assert(es.drop_last().push(e2).first() == e2);
        assert(es.drop_last().push(e2).drop_first() =~= Seq::<SessionNewContentV>::empty());
        assert(e2.after == from);
        let after_one = (from + e2.new_transactions.len()) as nat;
        assert(slices_ok(Seq::<SessionNewContentV>::empty(), log, after_one));
        assert(slices_end(Seq::<SessionNewContentV>::empty(), after_one) == after_one);
        assert(slices_ok(es.drop_last().push(e2), log, from));
        assert(slices_end(es.drop_last(), from) == from);
        assert(slices_end(es.drop_last().push(e2), from) == after_one);
    } else {
        assert(es.drop_first().len() > 0);
        assert(es.drop_first().last() == es.last());
        assert(es.drop_last().first() == es.first());
        assert(es.drop_last().drop_first() =~= es.drop_first().drop_last());
        let n0 = es.first().new_transactions.len();
        lemma_slices_extend_last(es.drop_first(), e2, log, (from + n0) as nat);
        assert(es.drop_last().push(e2).first() == es.first());
        assert(es.drop_last().push(e2).drop_first() =~= es.drop_first().drop_last().push(e2));
        assert(slices_ok(es.drop_last().push(e2), log, from));
        assert(slices_end(es.drop_last(), from) == slices_end(es.drop_last().drop_first(), (
        from + n0) as nat));
        assert(es.drop_last().drop_first() =~= es.drop_first().drop_last());
        assert(slices_end(es.drop_last().push(e2), from) == slices_end(
            es.drop_first().drop_last().push(e2),
            (from + n0) as nat,
        ));
    }
}

/// Two adjacent subranges of a log join into one.
pub proof fn lemma_subrange_join(ts: Seq<crate::session::TransactionV>, a: int, b: int, c: int)
    requires
        0 <= a <= b <= c <= ts.len(),
    ensures
        ts.subrange(a, b) + ts.subrange(b, c) == ts.subrange(a, c),
{
    assert(ts.subrange(a, b) + ts.subrange(b, c) =~= ts.subrange(a, c));
}

/// What a correct content-since answer looks like, piece by piece.
pub open spec fn content_post(
    st: StateV,
    peer: Option<KnownStateV>,
    msgs: Seq<SyncMessageV>,
) -> bool {
    &&& forall|j: int|
        0 <= j < msgs.len() ==> match #[trigger] msgs[j] {
            SyncMessageV::NewContent { id, header, priority, new } => {
                &&& id == st.id
                &&& priority == spec_priority(st.header)
                &&& header == (if j == 0 && !peer_has_header(peer) {
                    Some(st.header)
                } else {
                    None::<crate::covalue::HeaderV>
                })
                &&& map_ok(st, new)
                &&& (j == 0 || new.len() >= 1)
                &&& piece_ok(st, new)
                &&& entries_empty_ok(st, peer, new)
            },
            _ => false,
        }
    &&& forall|i: int|
        0 <= i < st.sessions.len() ==> {
            let k = (#[trigger] st.sessions[i]).0;
            let log = st.sessions[i].1;
            &&& slices_ok(entries_for(msgs, k), log, peer_base(peer, k))
            &&& slices_end(entries_for(msgs, k), peer_base(peer, k)) == if peer_base(peer, k)
                > log.transactions.len() {
                peer_base(peer, k)
            } else {
                log.transactions.len()
            }
        }
}

/// The target cursor of a session: the log head, or the peer's (larger)
/// claimed count when the peer claims more than the log holds.
pub open spec fn diff_target(log: SessionLogV, base: nat) -> nat {
    if base > log.transactions.len() {
        base
    } else {
        log.transactions.len()
    }
}

/// The per-session invariant of the diff engine: the entries emitted so
/// far chain gap-free from the peer's base to the sent cursor.
pub open spec fn diff_sess_inv(
    st: StateV,
    peer: Option<KnownStateV>,
    maps: Seq<Seq<(SidV, SessionNewContentV)>>,
    sent: Seq<usize>,
    ii: int,
) -> bool {
    let k = st.sessions[ii].0;
    let log = st.sessions[ii].1;
    let base = peer_base(peer, k);
    &&& slices_ok(entries_for_maps(maps, k), log, base)
    &&& slices_end(entries_for_maps(maps, k), base) == sent[ii]
    &&& base <= sent[ii] <= diff_target(log, base)
}

/// The whole invariant of the diff engine's piece construction.
pub open spec fn diff_inv(
    st: StateV,
    peer: Option<KnownStateV>,
    maps: Seq<Seq<(SidV, SessionNewContentV)>>,
    sent: Seq<usize>,
) -> bool {
    &&& maps.len() >= 1
    &&& sent.len() == st.sessions.len()
    &&& forall|ii: int| 0 <= ii < st.sessions.len() ==> diff_sess_inv(st, peer, maps, sent, ii)
    &&& forall|p: int| 0 <= p < maps.len() ==> map_ok(st, #[trigger] maps[p])
    &&& forall|p: int| 1 <= p < maps.len() ==> (#[trigger] maps[p]).len() > 0
}

/// An all-empty peer summary describes the same answers as an absent one.
pub proof fn lemma_content_post_empty_peer(
    st: StateV,
    ks: KnownStateV,
    msgs: Seq<SyncMessageV>,
)
    requires
        !ks.header,
        ks.sessions.len() == 0,
    ensures
        content_post(st, Some(ks), msgs) <==> content_post(st, None, msgs),
{
    assert(peer_has_header(Some(ks)) == peer_has_header(None::<KnownStateV>));
    assert forall|k: SidV| #[trigger] peer_base(Some(ks), k) == peer_base(
        None::<KnownStateV>,
        k,
    ) by {
        assert(am_find(ks.sessions, k) is None);
    }
    assert forall|i: int| 0 <= i < st.sessions.len() implies peer_base(
        Some(ks),
        (#[trigger] st.sessions[i]).0,
    ) == peer_base(None::<KnownStateV>, st.sessions[i].0) by {
    }
}

/// The models of a list of piece maps under construction.
pub open spec fn cmaps_view(ps: Seq<crate::sync::ContentMap>) -> Seq<
    Seq<(SidV, SessionNewContentV)>,
> {
    ps.map_values(|m: crate::sync::ContentMap| m@)
}

/// Appending a message appends its contribution to every session's
/// entries.
pub proof fn lemma_ef_snoc(msgs: Seq<SyncMessageV>, msg: SyncMessageV, k: SidV)
    ensures
        entries_for(msgs.push(msg), k) == entries_for(msgs, k) + (match msg {
            SyncMessageV::NewContent { new, .. } => match am_find(new, k) {
                Some(e) => seq![e],
                None => Seq::<SessionNewContentV>::empty(),
            },
            _ => Seq::<SessionNewContentV>::empty(),
        }),
    decreases msgs,
{
    let tail = (match msg {
        SyncMessageV::NewContent { new, .. } => match am_find(new, k) {
            Some(e) => seq![e],
            None => Seq::<SessionNewContentV>::empty(),
        },
        _ => Seq::<SessionNewContentV>::empty(),
    });
    if msgs.len() == 0 {
        assert(msgs.push(msg).first() == msg);
        assert(msgs.push(msg).drop_first() =~= Seq::<SyncMessageV>::empty());
        assert(entries_for(msgs, k) =~= Seq::<SessionNewContentV>::empty());
        assert(entries_for(msgs.push(msg).drop_first(), k) =~= Seq::<
            SessionNewContentV,
        >::empty());
        assert(tail + Seq::<SessionNewContentV>::empty() =~= tail);
        assert(entries_for(msgs.push(msg), k) =~= tail);
        assert(entries_for(msgs, k) + tail =~= tail);
    } else {
        assert(msgs.push(msg).first() == msgs.first());
        assert(msgs.push(msg).drop_first() =~= msgs.drop_first().push(msg));
        lemma_ef_snoc(msgs.drop_first(), msg, k);
        let head = (match msgs.first() {
            SyncMessageV::NewContent { new, .. } => match am_find(new, k) {
                Some(e) => seq![e],
                None => Seq::<SessionNewContentV>::empty(),
            },
            _ => Seq::<SessionNewContentV>::empty(),
        });
        assert(head + (entries_for(msgs.drop_first(), k) + tail) =~= (head + entries_for(
            msgs.drop_first(),
            k,
        )) + tail);
    }
}

/// One engine step: writing one session's next slice into the current
/// piece and advancing that session's cursor keeps the whole invariant,
/// leaves every other session's entries untouched, and shrinks the
/// remaining distance whenever the slice was non-empty.
pub proof fn lemma_diff_step(
    st: StateV,
    peer: Option<KnownStateV>,
    maps: Seq<Seq<(SidV, SessionNewContentV)>>,
    sent: Seq<usize>,
    i: int,
    entry_v: SessionNewContentV,
    had_existing: bool,
    old_entry: SessionNewContentV,
    s: usize,
    n_new: usize,
    cp_used: Option<int>,
    new_sent: usize,
)
    requires
        am_keys_unique(st.sessions),
        0 <= i < st.sessions.len(),
        maps.len() >= 1,
        sent.len() == st.sessions.len(),
        forall|ii: int| 0 <= ii < st.sessions.len() ==> diff_sess_inv(st, peer, maps, sent, ii),
        forall|p: int| 0 <= p < maps.len() ==> map_ok(st, #[trigger] maps[p]),
        forall|p: int|
            1 <= p < maps.len() && p != maps.len() - 1 ==> (#[trigger] maps[p]).len() > 0,
        s == sent[i],
        new_sent as int == s + n_new,
        n_new > 0 ==> s + n_new <= st.sessions[i].1.transactions.len(),
        had_existing ==> am_find(maps.last(), st.sessions[i].0) == Some(old_entry),
        !had_existing ==> am_find(maps.last(), st.sessions[i].0) is None,
        entry_v.after == (if had_existing {
            old_entry.after
        } else {
            s
        }),
        n_new > 0 ==> entry_v.new_transactions == (if had_existing {
            old_entry.new_transactions
        } else {
            Seq::<crate::session::TransactionV>::empty()
        }) + st.sessions[i].1.transactions.subrange(s as int, s + n_new),
        n_new == 0 ==> entry_v.new_transactions == (if had_existing {
            old_entry.new_transactions
        } else {
            Seq::<crate::session::TransactionV>::empty()
        }),
        match cp_used {
            Some(j) => n_new > 0 && j == s + n_new - 1 && 0 <= j
                < st.sessions[i].1.signature_after.len() && st.sessions[i].1.signature_after[j]
                == Some(entry_v.last_signature),
            None => s + n_new >= st.sessions[i].1.transactions.len() && entry_v.last_signature
                == st.sessions[i].1.last_signature,
        },
    ensures
        ({
            let k = st.sessions[i].0;
            let maps_new = maps.update(
                maps.len() - 1,
                crate::smap::am_set(maps.last(), k, entry_v),
            );
            let sent_new = sent.update(i, new_sent);
            &&& diff_inv(st, peer, maps_new, sent_new)
            &&& entries_for_maps(maps_new, k).len() >= 1
            &&& forall|kk: SidV|
                kk != k ==> entries_for_maps(maps_new, kk) == entries_for_maps(maps, kk)
            &&& rem_from(st.sessions, sent_new, 0) <= rem_from(st.sessions, sent, 0)
            &&& (n_new > 0 ==> rem_from(st.sessions, sent_new, 0) < rem_from(
                st.sessions,
                sent,
                0,
            ))
        }),
{
    let k = st.sessions[i].0;
    let log = st.sessions[i].1;
    let base = peer_base(peer, k);
    let last = maps.len() - 1;
    let newlast = crate::smap::am_set(maps.last(), k, entry_v);
    let maps_new = maps.update(last, newlast);
    let sent_new = sent.update(i, new_sent);
    assert(diff_sess_inv(st, peer, maps, sent, i));
    assert(map_ok(st, maps[last]));
    assert(maps[last] == maps.last());
    crate::smap::lemma_am_set_props(maps.last(), k, entry_v);
    // The session's own chain.
    let prefix = entries_for_maps(maps.drop_last(), k);
    let es = entries_for_maps(maps, k);
    let slice = log.transactions.subrange(s as int, s + n_new);
    lemma_efm_update_last(maps, newlast, k);
    assert(crate::smap::am_find(newlast, k) == Some(entry_v));
    assert(entries_for_maps(maps_new, k) == prefix + seq![entry_v]);
    assert(prefix + seq![entry_v] =~= prefix.push(entry_v));
    let end_new: nat = (s + n_new) as nat;
    if had_existing {
        assert(es == prefix + seq![old_entry]);
        assert(es =~= prefix.push(old_entry));
        assert(es.len() > 0);
        assert(es.last() == old_entry);
        assert(es.drop_last() =~= prefix);
        lemma_slices_last(es, log, base);
        assert(old_entry.after + old_entry.new_transactions.len() == s);
        if n_new > 0 {
            if old_entry.new_transactions.len() == 0 {
                assert(old_entry.new_transactions =~= Seq::<
                    crate::session::TransactionV,
                >::empty());
                assert(entry_v.new_transactions =~= slice);
                assert(entry_v.after == s);
            } else {
                lemma_subrange_join(
                    log.transactions,
                    old_entry.after as int,
                    s as int,
                    s + n_new,
                );
                assert(entry_v.new_transactions =~= log.transactions.subrange(
                    old_entry.after as int,
                    old_entry.after + entry_v.new_transactions.len(),
                ));
            }
        } else {
            assert(entry_v.new_transactions == old_entry.new_transactions);
            if old_entry.new_transactions.len() > 0 {
                assert(entry_v.new_transactions =~= log.transactions.subrange(
                    old_entry.after as int,
                    old_entry.after + entry_v.new_transactions.len(),
                ));
            }
        }
        lemma_slices_extend_last(es, entry_v, log, base);
        assert(slices_ok(prefix.push(entry_v), log, base));
        assert(slices_end(prefix.push(entry_v), base) == slices_end(prefix, base)
            + entry_v.new_transactions.len());
        assert(slices_end(prefix, base) == old_entry.after);
        assert(entry_v.new_transactions.len() == old_entry.new_transactions.len() + n_new);
    } else {
        assert(es == prefix + Seq::<SessionNewContentV>::empty());
        assert(es =~= prefix);
        if n_new > 0 {
            assert(entry_v.new_transactions =~= slice);
        } else {
            assert(entry_v.new_transactions =~= Seq::<crate::session::TransactionV>::empty());
        }
        lemma_slices_snoc(es, entry_v, log, base);
        assert(slices_ok(prefix.push(entry_v), log, base));
    }
    assert(slices_end(entries_for_maps(maps_new, k), base) == end_new);
    // Signature of the written entry.
    let end = entry_v.after + entry_v.new_transactions.len();
    assert(end == end_new);
    assert(entry_signature_ok(entry_v, log));
    // Other sessions and other keys are untouched.
    assert forall|kk: SidV| kk != k implies entries_for_maps(maps_new, kk) == entries_for_maps(
        maps,
        kk,
    ) by {
        lemma_efm_update_last(maps, newlast, kk);
        assert(crate::smap::am_find(newlast, kk) == crate::smap::am_find(maps.last(), kk));
        assert(entries_for_maps(maps, kk) == entries_for_maps(maps.drop_last(), kk) + (
        match crate::smap::am_find(maps.last(), kk) {
            Some(e) => seq![e],
            None => Seq::<SessionNewContentV>::empty(),
        }));
    }
    // The invariant, piece by piece.
    assert forall|ii: int| 0 <= ii < st.sessions.len() implies diff_sess_inv(
        st,
        peer,
        maps_new,
        sent_new,
        ii,
    ) by {
        if ii == i {
            assert(base <= s <= end_new);
            if n_new > 0 {
                assert(end_new <= log.transactions.len());
            }
        } else {
            assert(st.sessions[ii].0 != st.sessions[i].0);
            assert(diff_sess_inv(st, peer, maps, sent, ii));
            assert(sent_new[ii] == sent[ii]);
        }
    }
    assert forall|p: int| 0 <= p < maps_new.len() implies map_ok(st, #[trigger] maps_new[p]) by {
        if p == last {
            assert(am_keys_unique(newlast));
            assert forall|j: int| 0 <= j < newlast.len() implies match crate::smap::am_find(
                st.sessions,
                (#[trigger] newlast[j]).0,
            ) {
                Some(lg) => entry_signature_ok(newlast[j].1, lg),
                None => false,
            } by {
                crate::smap::lemma_am_set_entry(maps.last(), k, entry_v, j);
                if newlast[j] == (k, entry_v) {
                    crate::smap::lemma_am_find_at(st.sessions, i);
                } else {
                    let w = choose|w: int|
                        0 <= w < maps.last().len() && (#[trigger] maps.last()[w])
                            == newlast[j];
                    assert(map_ok(st, maps.last()));
                }
            }
        } else {
            assert(maps_new[p] == maps[p]);
        }
    }
    assert forall|p: int| 1 <= p < maps_new.len() implies (#[trigger] maps_new[p]).len() > 0 by {
        if p == last {
            assert(crate::smap::am_find(newlast, k) == Some(entry_v));
            if newlast.len() == 0 {
                assert(crate::smap::am_find(newlast, k) is None);
            }
        } else {
            assert(maps_new[p] == maps[p]);
        }
    }
    assert(entries_for_maps(maps_new, k).len() >= 1);
    lemma_rem_update(st.sessions, sent, i, new_sent, 0);
}

/// From the engine's final invariant and the assembled message list, the
/// full answer contract.
pub proof fn lemma_diff_assembled(
    st: StateV,
    peer: Option<KnownStateV>,
    maps: Seq<Seq<(SidV, SessionNewContentV)>>,
    sent: Seq<usize>,
    msgs: Seq<SyncMessageV>,
)
    requires
        diff_inv(st, peer, maps, sent),
        forall|kk: SidV| #[trigger] entries_for(msgs, kk) == entries_for_maps(maps, kk),
        forall|ii: int|
            0 <= ii < st.sessions.len() ==> (#[trigger] sent[ii]) as nat == diff_target(
                st.sessions[ii].1,
                peer_base(peer, st.sessions[ii].0),
            ),
        forall|j: int|
            0 <= j < msgs.len() ==> match #[trigger] msgs[j] {
                SyncMessageV::NewContent { id, header, priority, new } => {
                    &&& id == st.id
                    &&& priority == spec_priority(st.header)
                    &&& header == (if j == 0 && !peer_has_header(peer) {
                        Some(st.header)
                    } else {
                        None::<crate::covalue::HeaderV>
                    })
                    &&& map_ok(st, new)
                    &&& (j == 0 || new.len() >= 1)
                    &&& piece_ok(st, new)
                    &&& entries_empty_ok(st, peer, new)
                },
                _ => false,
            },
    ensures
        content_post(st, peer, msgs),
{
    assert forall|ii: int| 0 <= ii < st.sessions.len() implies {
        let k = (#[trigger] st.sessions[ii]).0;
        let log = st.sessions[ii].1;
        &&& slices_ok(entries_for(msgs, k), log, peer_base(peer, k))
        &&& slices_end(entries_for(msgs, k), peer_base(peer, k)) == if peer_base(peer, k)
            > log.transactions.len() {
            peer_base(peer, k)
        } else {
            log.transactions.len()
        }
    } by {
        let k = st.sessions[ii].0;
        assert(entries_for(msgs, k) == entries_for_maps(maps, k));
        assert(diff_sess_inv(st, peer, maps, sent, ii));
    }
}

/// What a peer's count for one session becomes after applying a list of
/// entries in order: an entry extends the count exactly when it starts
/// where the count stands.
pub open spec fn apply_entries(entries: Seq<SessionNewContentV>, c: nat) -> nat
    decreases entries,
{
    if entries.len() == 0 {
        c
    } else {
        let e = entries.first();
        let c2: nat = if e.after == c {
            c + e.new_transactions.len()
        } else {
            c
        };
        apply_entries(entries.drop_first(), c2)
    }
}

/// Applying a gap-free chain lands exactly at the chain's end.
pub proof fn lemma_apply_chain(entries: Seq<SessionNewContentV>, log: SessionLogV, from: nat)
    requires
        slices_ok(entries, log, from),
    ensures
        apply_entries(entries, from) == slices_end(entries, from),
    decreases entries,
{
    if entries.len() > 0 {
        lemma_apply_chain(
            entries.drop_first(),
            log,
            (from + entries.first().new_transactions.len()) as nat,
        );
    }
}

/// Every entry of a gap-free chain starts at or after the chain's start.
pub proof fn lemma_slices_after_ge(
    entries: Seq<SessionNewContentV>,
    log: SessionLogV,
    from: nat,
    j: int,
)
    requires
        slices_ok(entries, log, from),
        0 <= j < entries.len(),
    ensures
        entries[j].after >= from,
    decreases j,
{
    if j == 0 {
    } else {
        lemma_slices_after_ge(
            entries.drop_first(),
            log,
            (from + entries.first().new_transactions.len()) as nat,
            j - 1,
        );
        assert(entries.drop_first()[j - 1] == entries[j]);
    }
}

/// Diff completeness: for a session the peer does not out-claim, applying
/// the answer's entries in order to the peer's count yields the session's
/// full transaction count.
pub proof fn lemma_diff_completeness(
    st: StateV,
    peer: Option<KnownStateV>,
    msgs: Seq<SyncMessageV>,
    ii: int,
)
    requires
        content_post(st, peer, msgs),
        0 <= ii < st.sessions.len(),
        peer_base(peer, st.sessions[ii].0) <= st.sessions[ii].1.transactions.len(),
    ensures
        apply_entries(
            entries_for(msgs, st.sessions[ii].0),
            peer_base(peer, st.sessions[ii].0),
        ) == st.sessions[ii].1.transactions.len(),
{
    let k = st.sessions[ii].0;
    let log = st.sessions[ii].1;
    let base = peer_base(peer, k);
    assert(slices_ok(entries_for(msgs, k), log, base));
    lemma_apply_chain(entries_for(msgs, k), log, base);
}

/// Diff minimality: no entry of the answer carries a transaction at an
/// index the peer already has; every entry starts at or after the peer's
/// count for its session.
pub proof fn lemma_diff_minimality(
    st: StateV,
    peer: Option<KnownStateV>,
    msgs: Seq<SyncMessageV>,
    ii: int,
    j: int,
)
    requires
        content_post(st, peer, msgs),
        0 <= ii < st.sessions.len(),
        0 <= j < entries_for(msgs, st.sessions[ii].0).len(),
    ensures
        entries_for(msgs, st.sessions[ii].0)[j].after >= peer_base(peer, st.sessions[ii].0),
{
    let k = st.sessions[ii].0;
    let log = st.sessions[ii].1;
    let base = peer_base(peer, k);
    assert(slices_ok(entries_for(msgs, k), log, base));
    lemma_slices_after_ge(entries_for(msgs, k), log, base, j);
}

/// Whether a worklist holds an index.
pub open spec fn contains_idx(td: Seq<usize>, ii: int) -> bool {
    exists|t: int| 0 <= t < td.len() && (#[trigger] td[t]) == ii
}

/// How far session `idx` and those after it still are from their heads.
pub open spec fn rem_from(
    sv: Seq<(SidV, SessionLogV)>,
    sent: Seq<usize>,
    idx: int,
) -> nat
    decreases sv.len() - idx,
{
    if idx < 0 || idx >= sv.len() {
        0
    } else {
        let len = sv[idx].1.transactions.len();
        let done = sent[idx] as nat;
        (if done < len {
            (len - done) as nat
        } else {
            0
        }) + rem_from(sv, sent, idx + 1)
    }
}

/// Moving one cursor forward cannot increase the distance, and strictly
/// decreases it while the cursor is short of the head.
pub proof fn lemma_rem_update(
    sv: Seq<(SidV, SessionLogV)>,
    sent: Seq<usize>,
    i: int,
    v: usize,
    idx: int,
)
    requires
        0 <= i < sv.len(),
        sent.len() == sv.len(),
        sent[i] <= v,
    ensures
        rem_from(sv, sent.update(i, v), idx) <= rem_from(sv, sent, idx),
        (0 <= idx <= i && sent[i] < v && (v as nat) <= sv[i].1.transactions.len()) ==> rem_from(
            sv,
            sent.update(i, v),
            idx,
        ) < rem_from(sv, sent, idx),
    decreases sv.len() - idx,
{
    if idx < 0 || idx >= sv.len() {
    } else {
        lemma_rem_update(sv, sent, i, v, idx + 1);
        if idx != i {
            assert(sent.update(i, v)[idx] == sent[idx]);
        }
    }
}

} // verus!
