//! Sets of broadcast values.

use std::collections::HashSet;
use vstd::prelude::*;
use vstd::seq_lib::seq_to_set_is_finite;
use vstd::std_specs::iter::IteratorSpec;

verus! {

broadcast use vstd::std_specs::hash::group_hash_axioms;

/// Copies a set of values into a fresh, independently owned set.
pub fn copy_values(values: &HashSet<usize>) -> (copy: HashSet<usize>)
    ensures
        copy@ == values@,
{
    let mut copy: HashSet<usize> = HashSet::new();
    for v in it: values.iter()
        invariant
            forall|i: int| 0 <= i < it.index() ==> copy@.contains(*it.seq()[i]),
            forall|x: usize| copy@.contains(x) ==> values@.contains(x),
    {
        copy.insert(*v);
    }
    copy
}

/// A set held in memory has finitely many elements.
pub proof fn lemma_hash_set_finite(values: &HashSet<usize>)
    ensures
        values@.finite(),
{
    // The set holds what walking it yields, which is a finite list.
    let listed = values.iter().remaining().unref();
    assert(listed.to_set() == values@);
    seq_to_set_is_finite(listed);
}

} // verus!
