//! The memoizer: its state, its invariant, and the lookup-or-compute operation.
use std::collections::hash_map::Entry;
use std::collections::HashMap;
use std::hash::Hash;
use vstd::prelude::*;
use vstd::std_specs::hash::obeys_key_model;

use crate::laws::lemma_lookup_preserves_wf;

verus! {

/// A computation of type `F`, from keys `T` to values `U`, together with every result
/// it has produced so far.
///
/// The abstract state has three parts:
/// - `self@`, the table of stored results, a `Map<T, U>`;
/// - [`Memo::invoked`], the keys the computation has been run on, oldest first;
/// - [`Memo::computation`], the wrapped function, fixed at construction.
#[verifier::reject_recursive_types(T)]
#[verifier::reject_recursive_types(U)]
#[verifier::reject_recursive_types(F)]
pub struct Memo<T: Eq + Hash, U, F: Fn(&T) -> U> {
    computation: F,
    cache: HashMap<T, U>,
    invoked: Ghost<Seq<T>>,
}

impl<T: Eq + Hash, U, F: Fn(&T) -> U> View for Memo<T, U, F> {
    type V = Map<T, U>;

    /// The stored results: one entry for each key that has been looked up.
    closed spec fn view(&self) -> Map<T, U> {
        self.cache@
    }
}

impl<T: Eq + Hash, U, F: Fn(&T) -> U> Memo<T, U, F> {
    /// The wrapped function.
    pub closed spec fn computation(&self) -> F {
        self.computation
    }

    /// The keys on which the computation has been invoked, in the order of the
    /// invocations. A key appears once for every time the computation ran on it.
    ///
    /// This is a ghost record, kept for the proofs and absent from the compiled code:
    /// `get` appends to it at the one place where it calls the computation.
    pub closed spec fn invoked(&self) -> Seq<T> {
        self.invoked@
    }

    /// `v` is a value that the computation may return for `k`.
    pub open spec fn computes(&self, k: T, v: U) -> bool {
        call_ensures(self.computation(), (&k,), v)
    }

    /// How many times the computation has been invoked on `k`.
    pub open spec fn times_invoked(&self, k: T) -> nat {
        self.invoked().to_multiset().count(k)
    }

    /// The invariant of a memoizer.
    ///
    /// Keys of type `T` hash and compare the way a hash table needs, the computation
    /// accepts every key, every stored value is one the computation returns for its
    /// key, no key was computed twice, and the stored keys are exactly the computed ones.
    pub open spec fn wf(&self) -> bool {
        &&& obeys_key_model::<T>()
        &&& forall|k: T| call_requires(self.computation(), (&k,))
        &&& forall|k: T| #[trigger] self@.contains_key(k) ==> self.computes(k, self@[k])
        &&& self.invoked().no_duplicates()
        &&& self.invoked().to_set() =~= self@.dom()
    }

    /// The effect of one lookup: `self` is the memoizer before `get(k)`, `v` the value
    /// handed back and `next` the memoizer afterwards.
    ///
    /// The wrapped function stays the same, and `v` is a value of it at `k`. A key that
    /// is stored is answered from the table, and neither the table nor the record of
    /// invocations changes. A key that is not stored is computed: `k` is recorded as
    /// invoked and `v` is stored under it.
    pub open spec fn looks_up(self, k: T, v: U, next: Self) -> bool {
        &&& next.computation() == self.computation()
        &&& self.computes(k, v)
        &&& if self@.contains_key(k) {
            &&& v == self@[k]
            &&& next@ =~= self@
            &&& next.invoked() =~= self.invoked()
        } else {
            &&& next@ =~= self@.insert(k, v)
            &&& next.invoked() =~= self.invoked().push(k)
        }
    }

    /// Wraps `computation` with an empty table. Nothing has been computed yet.
    ///
    /// The computation has to accept every key, and `T` has to be a type whose hashing
    /// and equality a hash table can rely on.
    pub fn new(computation: F) -> (memo: Self)
        requires
            obeys_key_model::<T>(),
            forall|k: T| call_requires(computation, (&k,)),
        ensures
            memo.wf(),
            memo.computation() == computation,
            memo@ == Map::<T, U>::empty(),
            memo.invoked() == Seq::<T>::empty(),
    {
        let memo = Memo { computation, cache: HashMap::new(), invoked: Ghost(Seq::empty()) };
        assert(memo.invoked().to_set() =~= memo@.dom());
        memo
    }

    /// Returns the value for `k`, computing and storing it if this is the first lookup
    /// of `k`. What a lookup does is spelled out in [`Memo::looks_up`].
    ///
    /// The table is searched once: the slot found for `k` either holds the answer or
    /// receives it. The reference handed back points into the table.
    pub fn get(&mut self, k: T) -> (v: &U)
        requires
            old(self).wf(),
        ensures
            old(self).looks_up(k, *v, *final(self)),
            final(self).wf(),
    {
        let ghost key = k;
        // Whatever this lookup returns and leaves behind, the invariant survives it.
        assert forall|value: U, next: Self| #[trigger]
            old(self).looks_up(key, value, next) implies next.wf() by {
            lemma_lookup_preserves_wf(*old(self), key, value, next);
        }
        match self.cache.entry(k) {
            Entry::Occupied(slot) => slot.into_mut(),
            Entry::Vacant(slot) => {
                assert(call_requires(old(self).computation(), (&key,)));
                let value = (self.computation)(slot.key());
                self.invoked = Ghost(self.invoked@.push(key));
                slot.insert(value)
            },
        }
    }
}

} // verus!
