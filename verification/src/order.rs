//! Facts about the comparison of an element type.
//!
//! Everything the tree proves about ordering rests on the element type's
//! `Ord` implementation being a lawful total preorder, which is what
//! `vstd::laws_cmp::obeys_cmp` states. The lemmas here restate those laws in
//! the form the tree proofs consume: in terms of `cmp_spec` alone.

use std::cmp::Ordering;
use vstd::laws_cmp::obeys_cmp;
use vstd::prelude::*;
use vstd::std_specs::cmp::{OrdSpec, PartialEqSpec, PartialOrdSpec};

verus! {

/// `a` does not sort after `b`.
pub open spec fn at_most<T: Ord>(a: T, b: T) -> bool {
    a.cmp_spec(&b) != Ordering::Greater
}

/// `a` sorts strictly after `b`.
pub open spec fn above<T: Ord>(a: T, b: T) -> bool {
    a.cmp_spec(&b) == Ordering::Greater
}

/// `a` and `b` compare as equal.
pub open spec fn same<T: Ord>(a: T, b: T) -> bool {
    a.cmp_spec(&b) == Ordering::Equal
}

/// A lawful element type's executable `cmp` returns what `cmp_spec` says.
pub proof fn lemma_cmp_is_specified<T: Ord>()
    requires
        obeys_cmp::<T>(),
    ensures
        T::obeys_cmp_spec(),
{
    reveal(vstd::laws_cmp::obeys_cmp_ord);
}

/// Every value compares as equal to itself.
pub proof fn lemma_cmp_reflexive<T: Ord>(a: T)
    requires
        obeys_cmp::<T>(),
    ensures
        same(a, a),
{
    reveal(vstd::laws_cmp::obeys_cmp_ord);
    reveal(vstd::laws_cmp::obeys_partial_cmp_spec_properties);
    assert(a.partial_cmp_spec(&a) == Some(a.cmp_spec(&a)));
}

/// Swapping the operands mirrors the outcome.
pub proof fn lemma_cmp_mirror<T: Ord>(a: T, b: T)
    requires
        obeys_cmp::<T>(),
    ensures
        a.cmp_spec(&b) == Ordering::Less <==> b.cmp_spec(&a) == Ordering::Greater,
        a.cmp_spec(&b) == Ordering::Greater <==> b.cmp_spec(&a) == Ordering::Less,
        a.cmp_spec(&b) == Ordering::Equal <==> b.cmp_spec(&a) == Ordering::Equal,
{
    reveal(vstd::laws_cmp::obeys_cmp_ord);
    reveal(vstd::laws_cmp::obeys_partial_cmp_spec_properties);
    reveal(vstd::laws_eq::obeys_eq_spec_properties);
    assert(a.partial_cmp_spec(&b) == Some(a.cmp_spec(&b)));
    assert(b.partial_cmp_spec(&a) == Some(b.cmp_spec(&a)));
    assert(a.eq_spec(&b) <==> b.eq_spec(&a));
}

/// "Does not sort after" is transitive, and the conclusion is strict as soon
/// as one of the two steps is.
pub proof fn lemma_cmp_transitive<T: Ord>(a: T, b: T, c: T)
    requires
        obeys_cmp::<T>(),
        at_most(a, b),
        at_most(b, c),
    ensures
        at_most(a, c),
        !same(a, b) || !same(b, c) ==> a.cmp_spec(&c) == Ordering::Less,
{
    lemma_cmp_mirror(a, b);
    lemma_cmp_mirror(b, c);
    lemma_cmp_mirror(a, c);
    reveal(vstd::laws_cmp::obeys_cmp_ord);
    reveal(vstd::laws_cmp::obeys_partial_cmp_spec_properties);
    reveal(vstd::laws_eq::obeys_eq_spec_properties);
    assert(a.partial_cmp_spec(&b) == Some(a.cmp_spec(&b)));
    assert(b.partial_cmp_spec(&c) == Some(b.cmp_spec(&c)));
    assert(c.partial_cmp_spec(&a) == Some(c.cmp_spec(&a)));
    assert(a.eq_spec(&b) <==> same(a, b));
    assert(b.eq_spec(&c) <==> same(b, c));
    assert(a.eq_spec(&c) <==> same(a, c));
}

/// Values that compare as equal compare alike against any third value.
pub proof fn lemma_cmp_congruent<T: Ord>(a: T, b: T, c: T)
    requires
        obeys_cmp::<T>(),
        same(a, b),
    ensures
        a.cmp_spec(&c) == b.cmp_spec(&c),
        c.cmp_spec(&a) == c.cmp_spec(&b),
{
    lemma_cmp_mirror(a, b);
    lemma_cmp_mirror(a, c);
    lemma_cmp_mirror(b, c);
    if at_most(b, c) {
        lemma_cmp_transitive(a, b, c);
    }
    if at_most(a, c) {
        lemma_cmp_transitive(b, a, c);
    }
    if at_most(c, a) {
        lemma_cmp_transitive(c, a, b);
    }
    if at_most(c, b) {
        lemma_cmp_transitive(c, b, a);
    }
}

} // verus!
