//! A generic single-pass minimum reduction over a sequence.

use vstd::prelude::*;

use crate::optional::SomethingOrNothing;

verus! {

/// The comparison capability a type needs for the minimum reduction: a
/// total order, given as a spec-level relation `le` together with the
/// laws that make it one, and an executable `min` that picks the smaller
/// of two values with respect to that relation.
pub trait Minimum: Sized + Copy {
    /// The ordering relation the reduction is stated over.
    spec fn le(self, other: Self) -> bool;

    /// Any two values are comparable (which also gives reflexivity).
    proof fn lemma_total(a: Self, b: Self)
        ensures
            a.le(b) || b.le(a),
    ;

    /// Values below each other are equal.
    proof fn lemma_antisymmetric(a: Self, b: Self)
        requires
            a.le(b),
            b.le(a),
        ensures
            a == b,
    ;

    /// The order composes.
    proof fn lemma_transitive(a: Self, b: Self, c: Self)
        requires
            a.le(b),
            b.le(c),
        ensures
            a.le(c),
    ;

    /// Picks the smaller of the two operands; on a tie either may come back.
    fn min(self, other: Self) -> (r: Self)
        ensures
            r == self || r == other,
            r.le(self),
            r.le(other),
    ;
}

/// `m` occurs in `s` and is below every element of `s`.
pub open spec fn is_minimum_of<T: Minimum>(m: T, s: Seq<T>) -> bool {
    &&& s.contains(m)
    &&& forall|i: int| 0 <= i < s.len() ==> m.le(#[trigger] s[i])
}

/// The full relation between an input sequence and the reduction's result:
/// `Nothing` exactly on the empty sequence, otherwise a minimum of it.
pub open spec fn reduces_to<T: Minimum>(s: Seq<T>, r: SomethingOrNothing<T>) -> bool {
    match r {
        SomethingOrNothing::Nothing => s.len() == 0,
        SomethingOrNothing::Something(m) => is_minimum_of(m, s),
    }
}

/// Folds the vector into `Nothing` (empty input) or `Something(m)` where
/// `m` is an element below all elements, scanning strictly left to right.
pub fn vec_min<T: Minimum>(v: Vec<T>) -> (r: SomethingOrNothing<T>)
    ensures
        reduces_to(v@, r),
{
    let mut acc = SomethingOrNothing::<T>::Nothing;
    let mut i: usize = 0;
    while i < v.len()
        invariant
            i <= v@.len(),
            reduces_to(v@.take(i as int), acc),
        decreases v@.len() - i,
    {
        let e = v[i];
        acc = match acc {
            SomethingOrNothing::Nothing => {
                proof {
                    T::lemma_total(e, e);
                }
                SomethingOrNothing::Something(e)
            },
            SomethingOrNothing::Something(n) => {
                let m = e.min(n);
                proof {
                    let prefix = v@.take(i as int);
                    assert forall|j: int| 0 <= j < prefix.len() implies m.le(#[trigger] prefix[j]) by {
                        T::lemma_transitive(m, n, prefix[j]);
                    }
                }
                SomethingOrNothing::Something(m)
            },
        };
        proof {
            let prefix = v@.take(i as int);
            let next = v@.take(i + 1 as int);
            assert(next =~= prefix.push(v@[i as int]));
            let m = acc->0;
            if prefix.contains(m) {
                let k = choose|k: int| 0 <= k < prefix.len() && prefix[k] == m;
                assert(next[k] == m);
            } else {
                assert(next[i as int] == m);
            }
        }
        i += 1;
    }
    proof {
        assert(v@.take(v@.len() as int) =~= v@);
    }
    acc
}

/// Picks the smaller of two machine integers.
pub fn min_i32(a: i32, b: i32) -> (r: i32)
    ensures
        r == if a < b {
            a
        } else {
            b
        },
{
    if a < b {
        a
    } else {
        b
    }
}

impl Minimum for i32 {
    open spec fn le(self, other: Self) -> bool {
        self <= other
    }

    proof fn lemma_total(a: Self, b: Self) {
    }

    proof fn lemma_antisymmetric(a: Self, b: Self) {
    }

    proof fn lemma_transitive(a: Self, b: Self, c: Self) {
    }

    fn min(self, other: Self) -> (r: Self) {
        if self < other {
            self
        } else {
            other
        }
    }
}

/// The sample sequence a non-interactive caller can reduce.
pub fn read_vec() -> (v: Vec<i32>)
    ensures
        v@ == seq![18i32, 5i32, 7i32, 9i32, 27i32],
{
    let v = vec![18i32, 5, 7, 9, 27];
    proof {
        assert(v@ =~= seq![18i32, 5i32, 7i32, 9i32, 27i32]);
    }
    v
}

/// Law: the reduction is `Nothing` exactly on the empty sequence.
pub proof fn lemma_reduce_nothing_iff_empty<T: Minimum>(s: Seq<T>, r: SomethingOrNothing<T>)
    requires
        reduces_to(s, r),
    ensures
        r is Nothing <==> s.len() == 0,
{
}

/// Law: a non-empty sequence reduces to one of its elements, below them all.
pub proof fn lemma_reduce_some_minimum<T: Minimum>(s: Seq<T>, r: SomethingOrNothing<T>)
    requires
        reduces_to(s, r),
        s.len() > 0,
    ensures
        r matches SomethingOrNothing::Something(m) && is_minimum_of(m, s),
{
}

/// Law: any two results the reduction's contract admits for one and the
/// same sequence are equal, so reducing twice yields the same result.
pub proof fn lemma_reduce_deterministic<T: Minimum>(
    s: Seq<T>,
    r1: SomethingOrNothing<T>,
    r2: SomethingOrNothing<T>,
)
    requires
        reduces_to(s, r1),
        reduces_to(s, r2),
    ensures
        r1 == r2,
{
    if s.len() > 0 {
        let m1 = r1->0;
        let m2 = r2->0;
        let k1 = choose|k: int| 0 <= k < s.len() && s[k] == m1;
        let k2 = choose|k: int| 0 <= k < s.len() && s[k] == m2;
        assert(m1.le(s[k2]));
        assert(m2.le(s[k1]));
        T::lemma_antisymmetric(m1, m2);
    }
}

/// Law: permuting the input never changes the reduced minimum value.
pub proof fn lemma_reduce_permutation_independent<T: Minimum>(
    s1: Seq<T>,
    s2: Seq<T>,
    r1: SomethingOrNothing<T>,
    r2: SomethingOrNothing<T>,
)
    requires
        reduces_to(s1, r1),
        reduces_to(s2, r2),
        s1.to_multiset() == s2.to_multiset(),
    ensures
        r1 == r2,
{
    vstd::seq_lib::to_multiset_len(s1);
    vstd::seq_lib::to_multiset_len(s2);
    assert(s1.len() == s2.len());
    if s1.len() > 0 {
        let m1 = r1->0;
        let m2 = r2->0;
        vstd::seq_lib::to_multiset_contains(s1, m1);
        vstd::seq_lib::to_multiset_contains(s2, m1);
        vstd::seq_lib::to_multiset_contains(s1, m2);
        vstd::seq_lib::to_multiset_contains(s2, m2);
        assert(s2.contains(m1));
        assert(s1.contains(m2));
        let k1 = choose|k: int| 0 <= k < s1.len() && s1[k] == m2;
        let k2 = choose|k: int| 0 <= k < s2.len() && s2[k] == m1;
        assert(m1.le(s1[k1]));
        assert(m2.le(s2[k2]));
        T::lemma_antisymmetric(m1, m2);
    }
}

} // verus!
