//! Association sequences keyed by session-ID models.
//!
//! The core keeps several small mappings from session IDs to values (logs,
//! counts, content entries).  Each is a vector of pairs with unique keys;
//! these are the spec-level lookup and update functions they share, with
//! the lemmas that characterise an update.

use vstd::prelude::*;

verus! {

/// The key type: the model of a session ID.
pub type SidV = (Seq<u8>, Seq<u8>);

/// The first value under a key, if any.
pub open spec fn am_find<V>(s: Seq<(SidV, V)>, k: SidV) -> Option<V>
    decreases s,
{
    if s.len() == 0 {
        None
    } else if s.first().0 == k {
        Some(s.first().1)
    } else {
        am_find(s.drop_first(), k)
    }
}

/// Replaces the value under an existing key, or appends a new entry.
pub open spec fn am_set<V>(s: Seq<(SidV, V)>, k: SidV, v: V) -> Seq<(SidV, V)>
    decreases s,
{
    if s.len() == 0 {
        seq![(k, v)]
    } else if s.first().0 == k {
        seq![(k, v)] + s.drop_first()
    } else {
        seq![s.first()] + am_set(s.drop_first(), k, v)
    }
}

/// No two entries share a key.
pub open spec fn am_keys_unique<V>(s: Seq<(SidV, V)>) -> bool {
    forall|i: int, j: int| 0 <= i < j < s.len() ==> (#[trigger] s[i]).0 != (#[trigger] s[j]).0
}

/// With unique keys, the entry at any index is what lookup finds.
pub proof fn lemma_am_find_at<V>(s: Seq<(SidV, V)>, i: int)
    requires
        am_keys_unique(s),
        0 <= i < s.len(),
    ensures
        am_find(s, s[i].0) == Some(s[i].1),
    decreases s,
{
    if i == 0 {
    } else {
        assert(s.first().0 != s[i].0);
        assert(forall|j: int|
            0 <= j < s.drop_first().len() ==> (#[trigger] s.drop_first()[j]) == s[j + 1]);
        lemma_am_find_at(s.drop_first(), i - 1);
    }
}

/// What lookup finds stands at some index.
pub proof fn lemma_am_find_index<V>(s: Seq<(SidV, V)>, k: SidV)
    requires
        am_find(s, k) is Some,
    ensures
        exists|i: int|
            0 <= i < s.len() && (#[trigger] s[i]) == (k, am_find(s, k)->0),
    decreases s,
{
    if s.len() > 0 {
        if s.first().0 == k {
            assert(s[0] == (k, am_find(s, k)->0));
        } else {
            lemma_am_find_index(s.drop_first(), k);
            let i = choose|i: int|
                0 <= i < s.drop_first().len() && (#[trigger] s.drop_first()[i]) == (
                    k,
                    am_find(s.drop_first(), k)->0,
                );
            assert(s[i + 1] == s.drop_first()[i]);
        }
    }
}

/// Every entry of `am_set(s, k, v)` is the new entry or an entry of `s`.
pub proof fn lemma_am_set_entry<V>(s: Seq<(SidV, V)>, k: SidV, v: V, j: int)
    requires
        0 <= j < am_set(s, k, v).len(),
    ensures
        am_set(s, k, v)[j] == (k, v) || exists|i: int|
            0 <= i < s.len() && (#[trigger] s[i]) == am_set(s, k, v)[j],
    decreases s,
{
    if s.len() == 0 {
    } else if s.first().0 == k {
        if j > 0 {
            assert(am_set(s, k, v)[j] == s.drop_first()[j - 1]);
            assert(s[j] == s.drop_first()[j - 1]);
        }
    } else {
        if j > 0 {
            lemma_am_set_entry(s.drop_first(), k, v, j - 1);
            assert(am_set(s, k, v)[j] == am_set(s.drop_first(), k, v)[j - 1]);
            if am_set(s.drop_first(), k, v)[j - 1] != (k, v) {
                let i = choose|i: int|
                    0 <= i < s.drop_first().len() && (#[trigger] s.drop_first()[i]) == am_set(
                        s.drop_first(),
                        k,
                        v,
                    )[j - 1];
                assert(s[i + 1] == s.drop_first()[i]);
            }
        } else {
            assert(am_set(s, k, v)[0] == s.first());
        }
    }
}

/// When the first match is at `i`, setting is an update at `i`.
pub proof fn lemma_am_set_at<V>(s: Seq<(SidV, V)>, k: SidV, v: V, i: int)
    requires
        0 <= i < s.len(),
        s[i].0 == k,
        forall|j: int| 0 <= j < i ==> (#[trigger] s[j]).0 != k,
    ensures
        am_set(s, k, v) == s.update(i, (k, v)),
    decreases s,
{
    if i == 0 {
        assert(s.first().0 == k);
        assert(am_set(s, k, v) == seq![(k, v)] + s.drop_first());
        assert(seq![(k, v)] + s.drop_first() =~= s.update(0, (k, v)));
    } else {
        assert(s.first().0 != k);
        assert(forall|j: int|
            0 <= j < s.drop_first().len() ==> (#[trigger] s.drop_first()[j]) == s[j + 1]);
        lemma_am_set_at(s.drop_first(), k, v, i - 1);
        assert(am_set(s, k, v) == seq![s.first()] + s.drop_first().update(i - 1, (k, v)));
        assert(seq![s.first()] + s.drop_first().update(i - 1, (k, v)) =~= s.update(i, (k, v)));
    }
}

/// When no key matches, setting appends.
pub proof fn lemma_am_set_absent<V>(s: Seq<(SidV, V)>, k: SidV, v: V)
    requires
        forall|j: int| 0 <= j < s.len() ==> (#[trigger] s[j]).0 != k,
    ensures
        am_set(s, k, v) == s.push((k, v)),
    decreases s,
{
    if s.len() == 0 {
        assert(am_set(s, k, v) =~= s.push((k, v)));
    } else {
        assert(forall|j: int|
            0 <= j < s.drop_first().len() ==> (#[trigger] s.drop_first()[j]) == s[j + 1]);
        lemma_am_set_absent(s.drop_first(), k, v);
        assert(seq![s.first()] + s.drop_first().push((k, v)) =~= s.push((k, v)));
    }
}

/// What holds of a map after a set: unique keys are kept, lookup under the
/// key finds the new value, other keys are untouched, and the length grows
/// exactly when the key was absent.
pub proof fn lemma_am_set_props<V>(s: Seq<(SidV, V)>, k: SidV, v: V)
    requires
        am_keys_unique(s),
    ensures
        am_keys_unique(am_set(s, k, v)),
        am_find(am_set(s, k, v), k) == Some(v),
        forall|other: SidV| other != k ==> am_find(am_set(s, k, v), other) == am_find(s, other),
        am_set(s, k, v).len() == if am_find(s, k) is Some {
            s.len() as int
        } else {
            s.len() as int + 1
        },
    decreases s,
{
    let t = am_set(s, k, v);
    if s.len() == 0 {
        assert(t =~= seq![(k, v)]);
        assert(t.first() == (k, v));
        assert(t.drop_first() =~= Seq::<(SidV, V)>::empty());
        assert(am_keys_unique(t));
        assert forall|other: SidV| other != k implies am_find(t, other) == am_find(
            s,
            other,
        ) by {
            assert(am_find(t, other) == am_find(t.drop_first(), other));
        }
    } else if s.first().0 == k {
        assert(t == seq![(k, v)] + s.drop_first());
        assert(t.first() == (k, v));
        assert(t.drop_first() =~= s.drop_first());
        assert(forall|j: int|
            0 <= j < s.drop_first().len() ==> (#[trigger] s.drop_first()[j]) == s[j + 1]);
        assert(forall|j: int| 1 <= j < t.len() ==> (#[trigger] t[j]) == s[j]);
        assert(t[0] == (k, v));
        assert(am_keys_unique(t));
        assert forall|other: SidV| other != k implies am_find(t, other) == am_find(
            s,
            other,
        ) by {
            assert(am_find(t, other) == am_find(t.drop_first(), other));
            assert(am_find(s, other) == am_find(s.drop_first(), other));
        }
    } else {
        assert(forall|j: int|
            0 <= j < s.drop_first().len() ==> (#[trigger] s.drop_first()[j]) == s[j + 1]);
        assert(am_keys_unique(s.drop_first()));
        lemma_am_set_props(s.drop_first(), k, v);
        let u = am_set(s.drop_first(), k, v);
        assert(t == seq![s.first()] + u);
        assert(t.first() == s.first());
        assert(t.drop_first() =~= u);
        assert(am_find(t, k) == am_find(u, k));
        assert forall|other: SidV| other != k implies am_find(t, other) == am_find(
            s,
            other,
        ) by {
            if other == s.first().0 {
                assert(am_find(t, other) == Some(t.first().1));
                assert(am_find(s, other) == Some(s.first().1));
            } else {
                assert(am_find(t, other) == am_find(u, other));
                assert(am_find(s, other) == am_find(s.drop_first(), other));
            }
        }
        assert(forall|j: int| 1 <= j < t.len() ==> (#[trigger] t[j]) == u[j - 1]);
        assert(t[0] == s.first());
        assert forall|a: int, b: int| 0 <= a < b < t.len() implies (#[trigger] t[a]).0 != (
        #[trigger] t[b]).0 by {
            if a == 0 {
                lemma_am_set_entry(s.drop_first(), k, v, b - 1);
                if t[b] != (k, v) {
                    let m = choose|m: int|
                        0 <= m < s.drop_first().len() && (#[trigger] s.drop_first()[m]) == am_set(
                            s.drop_first(),
                            k,
                            v,
                        )[b - 1];
                    assert(s[m + 1] == s.drop_first()[m]);
                    assert(s[0].0 != s[m + 1].0);
                } else {
                    assert(s.first().0 != k);
                }
            }
        }
        assert(am_keys_unique(t));
    }
}

} // verus!
