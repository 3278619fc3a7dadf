//! Properties of the memoizer, proved from the contracts of its operations.
//!
//! The first group speaks of a single lookup, the second of a whole history of
//! lookups on one memoizer.
use std::hash::Hash;
use vstd::prelude::*;

use crate::memo::Memo;

verus! {

/// A lookup leaves the invariant in place.
pub proof fn lemma_lookup_preserves_wf<T: Eq + Hash, U, F: Fn(&T) -> U>(
    before: Memo<T, U, F>,
    k: T,
    v: U,
    after: Memo<T, U, F>,
)
    requires
        before.wf(),
        before.looks_up(k, v, after),
    ensures
        after.wf(),
{
    if !before@.contains_key(k) {
        assert(!before.invoked().to_set().contains(k));
        before.invoked().lemma_push_to_set_commute(k);
    }
}

/// At most once: the computation has run exactly once on each stored key and never
/// on any other.
pub proof fn lemma_invoked_at_most_once<T: Eq + Hash, U, F: Fn(&T) -> U>(m: Memo<T, U, F>, k: T)
    requires
        m.wf(),
    ensures
        m.times_invoked(k) <= 1,
        m.times_invoked(k) == (if m@.contains_key(k) { 1nat } else { 0nat }),
{
    m.invoked().to_multiset_ensures();
    m.invoked().lemma_multiset_has_no_duplicates();
    assert(m.invoked().to_set().contains(k) <==> m@.contains_key(k));
}

/// Correctness against a mathematical function: if the computation returns `f(a)`
/// for every key `a`, then a lookup of `k` returns `f(k)`, whether it was served from
/// the table or freshly computed, and `f(k)` is what the table holds for `k` afterwards.
pub proof fn lemma_lookup_agrees_with_function<T: Eq + Hash, U, F: Fn(&T) -> U>(
    before: Memo<T, U, F>,
    k: T,
    v: U,
    after: Memo<T, U, F>,
    f: spec_fn(T) -> U,
)
    requires
        before.looks_up(k, v, after),
        forall|a: T, b: U| #[trigger] before.computes(a, b) ==> b == f(a),
    ensures
        v == f(k),
        after@.contains_key(k),
        after@[k] == f(k),
{
}

/// Idempotence: a second lookup of the same key returns the same value and changes
/// nothing.
pub proof fn lemma_repeated_lookup<T: Eq + Hash, U, F: Fn(&T) -> U>(
    first: Memo<T, U, F>,
    k: T,
    v1: U,
    second: Memo<T, U, F>,
    v2: U,
    third: Memo<T, U, F>,
)
    requires
        first.looks_up(k, v1, second),
        second.looks_up(k, v2, third),
    ensures
        v2 == v1,
        third@ == second@,
        third.invoked() == second.invoked(),
{
}

/// Independence: a lookup of `a` does not run the computation on any other key `b`,
/// and neither adds, removes nor changes what is stored for `b`.
pub proof fn lemma_lookup_leaves_other_keys<T: Eq + Hash, U, F: Fn(&T) -> U>(
    before: Memo<T, U, F>,
    a: T,
    v: U,
    after: Memo<T, U, F>,
    b: T,
)
    requires
        before.looks_up(a, v, after),
        b != a,
    ensures
        after.times_invoked(b) == before.times_invoked(b),
        after@.contains_key(b) == before@.contains_key(b),
        before@.contains_key(b) ==> after@[b] == before@[b],
{
    before.invoked().to_multiset_ensures();
}

/// `states`, `keys` and `vals` record a history of lookups on one memoizer: lookup
/// number `i` found it as `states[i]`, asked for `keys[i]`, received `vals[i]` and left
/// it as `states[i + 1]`.
pub open spec fn is_history<T: Eq + Hash, U, F: Fn(&T) -> U>(
    states: Seq<Memo<T, U, F>>,
    keys: Seq<T>,
    vals: Seq<U>,
) -> bool {
    &&& states.len() == keys.len() + 1
    &&& vals.len() == keys.len()
    &&& states[0].wf()
    &&& forall|i: int|
        0 <= i < keys.len() ==> states[i].looks_up(#[trigger] keys[i], vals[i], states[i + 1])
}

/// The invariant holds at every point of a history.
pub proof fn lemma_history_preserves_wf<T: Eq + Hash, U, F: Fn(&T) -> U>(
    states: Seq<Memo<T, U, F>>,
    keys: Seq<T>,
    vals: Seq<U>,
    i: int,
)
    requires
        is_history(states, keys, vals),
        0 <= i <= keys.len(),
    ensures
        states[i].wf(),
    decreases i,
{
    if i > 0 {
        lemma_history_preserves_wf(states, keys, vals, i - 1);
        lemma_lookup_preserves_wf(states[i - 1], keys[i - 1], vals[i - 1], states[i]);
    }
}

/// The wrapped function is the same at every point of a history.
pub proof fn lemma_history_keeps_computation<T: Eq + Hash, U, F: Fn(&T) -> U>(
    states: Seq<Memo<T, U, F>>,
    keys: Seq<T>,
    vals: Seq<U>,
    i: int,
)
    requires
        is_history(states, keys, vals),
        0 <= i <= keys.len(),
    ensures
        states[i].computation() == states[0].computation(),
    decreases i,
{
    if i > 0 {
        lemma_history_keeps_computation(states, keys, vals, i - 1);
        assert(states[i - 1].looks_up(keys[i - 1], vals[i - 1], states[i]));
    }
}

/// Correctness over a history: if the computation returns `f(a)` for every key `a`,
/// then every lookup of the history returned `f` of its key.
pub proof fn lemma_history_agrees_with_function<T: Eq + Hash, U, F: Fn(&T) -> U>(
    states: Seq<Memo<T, U, F>>,
    keys: Seq<T>,
    vals: Seq<U>,
    f: spec_fn(T) -> U,
    i: int,
)
    requires
        is_history(states, keys, vals),
        forall|a: T, b: U| #[trigger] states[0].computes(a, b) ==> b == f(a),
        0 <= i < keys.len(),
    ensures
        vals[i] == f(keys[i]),
{
    lemma_history_keeps_computation(states, keys, vals, i);
    assert(states[i].looks_up(keys[i], vals[i], states[i + 1]));
    assert(states[0].computes(keys[i], vals[i]));
}

/// What is stored stays stored, unchanged: a key found in the table at point `i` of a
/// history is found there with the same value at every later point `j`.
pub proof fn lemma_history_keeps_entries<T: Eq + Hash, U, F: Fn(&T) -> U>(
    states: Seq<Memo<T, U, F>>,
    keys: Seq<T>,
    vals: Seq<U>,
    i: int,
    j: int,
    k: T,
)
    requires
        is_history(states, keys, vals),
        0 <= i <= j <= keys.len(),
        states[i]@.contains_key(k),
    ensures
        states[j]@.contains_key(k),
        states[j]@[k] == states[i]@[k],
    decreases j - i,
{
    if i < j {
        lemma_history_keeps_entries(states, keys, vals, i, j - 1, k);
        assert(states[j - 1].looks_up(keys[j - 1], vals[j - 1], states[j]));
    }
}

/// Idempotence over a history: two lookups of the same key return the same value,
/// whatever was looked up in between.
pub proof fn lemma_history_repeats_values<T: Eq + Hash, U, F: Fn(&T) -> U>(
    states: Seq<Memo<T, U, F>>,
    keys: Seq<T>,
    vals: Seq<U>,
    i: int,
    j: int,
)
    requires
        is_history(states, keys, vals),
        0 <= i < j < keys.len(),
        keys[i] == keys[j],
    ensures
        vals[j] == vals[i],
{
    assert(states[i + 1]@.contains_key(keys[i]) && states[i + 1]@[keys[i]] == vals[i]);
    lemma_history_keeps_entries(states, keys, vals, i + 1, j, keys[i]);
}

/// The table at point `j` of a history holds the keys it held at the start and the
/// keys looked up before `j`, and no others.
pub proof fn lemma_history_stored_keys<T: Eq + Hash, U, F: Fn(&T) -> U>(
    states: Seq<Memo<T, U, F>>,
    keys: Seq<T>,
    vals: Seq<U>,
    j: int,
    k: T,
)
    requires
        is_history(states, keys, vals),
        0 <= j <= keys.len(),
    ensures
        states[j]@.contains_key(k) <==> states[0]@.contains_key(k) || keys.take(j).contains(k),
    decreases j,
{
    if j > 0 {
        lemma_history_stored_keys(states, keys, vals, j - 1, k);
        assert(states[j - 1].looks_up(keys[j - 1], vals[j - 1], states[j]));
        let earlier = keys.take(j - 1);
        assert(keys.take(j) =~= earlier.push(keys[j - 1]));
        if earlier.contains(k) {
            let n: int = earlier.index_of(k);
            assert(keys.take(j)[n] == k);
        }
        if keys[j - 1] == k {
            assert(keys.take(j)[j - 1] == k);
        }
    }
}

/// At most once, over a history: however often and in whatever order keys are looked
/// up, at the end the computation has run once on each key that was stored at the
/// start or looked up since, and not at all on any other key.
pub proof fn lemma_history_invokes_at_most_once<T: Eq + Hash, U, F: Fn(&T) -> U>(
    states: Seq<Memo<T, U, F>>,
    keys: Seq<T>,
    vals: Seq<U>,
    k: T,
)
    requires
        is_history(states, keys, vals),
    ensures
        states.last().times_invoked(k) <= 1,
        states.last().times_invoked(k) == (if states[0]@.contains_key(k) || keys.contains(k) {
            1nat
        } else {
            0nat
        }),
{
    let n: int = keys.len() as int;
    lemma_history_preserves_wf(states, keys, vals, n);
    lemma_history_stored_keys(states, keys, vals, n, k);
    assert(keys.take(n) =~= keys);
    lemma_invoked_at_most_once(states[n], k);
}

} // verus!
