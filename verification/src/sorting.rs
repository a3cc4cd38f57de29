//! Sorting pairs of a key and a position.

use vstd::prelude::*;

verus! {

/// The pair `a` comes no later than the pair `b`: its key is smaller, or the
/// keys are equal and its position is not greater.
pub open spec fn pair_le(a: (i64, usize), b: (i64, usize)) -> bool {
    a.0 < b.0 || (a.0 == b.0 && a.1 <= b.1)
}

/// Every pair comes no later than the pairs behind it.
pub open spec fn pairs_sorted(pairs: Seq<(i64, usize)>) -> bool {
    forall|i: int, j: int| 0 <= i < j < pairs.len() ==> pair_le(pairs[i], pairs[j])
}

/// Sorts the pairs with the standard library's `sort` on slices.
///
/// Believed of the standard library: `sort` puts the elements in ascending
/// order without adding or dropping any, and tuples are ordered by their
/// first component and, where that is equal, by their second.
#[verifier::external_body]
pub(crate) fn sort_pairs(pairs: &mut Vec<(i64, usize)>)
    ensures
        pairs_sorted(final(pairs)@),
        final(pairs)@.to_multiset() == old(pairs)@.to_multiset(),
{
    pairs.sort();
}

/// A rearrangement of a sequence has the same length and the same elements.
pub proof fn lemma_same_elements(before: Seq<(i64, usize)>, after: Seq<(i64, usize)>)
    requires
        after.to_multiset() == before.to_multiset(),
    ensures
        after.len() == before.len(),
        forall|pair: (i64, usize)| after.contains(pair) <==> before.contains(pair),
{
    before.to_multiset_ensures();
    after.to_multiset_ensures();
    assert forall|pair: (i64, usize)| after.contains(pair) <==> before.contains(pair) by {
        assert(after.contains(pair) <==> after.to_multiset().count(pair) > 0);
        assert(before.contains(pair) <==> before.to_multiset().count(pair) > 0);
    }
}

/// A rearrangement of a sequence without repetitions has the same length and
/// the same elements and no repetitions either.
pub proof fn lemma_rearranged(before: Seq<(i64, usize)>, after: Seq<(i64, usize)>)
    requires
        after.to_multiset() == before.to_multiset(),
        before.no_duplicates(),
    ensures
        after.len() == before.len(),
        after.no_duplicates(),
        forall|pair: (i64, usize)| after.contains(pair) <==> before.contains(pair),
{
    before.to_multiset_ensures();
    after.to_multiset_ensures();
    before.lemma_multiset_has_no_duplicates();
    after.lemma_multiset_has_no_duplicates_conv();
    assert forall|pair: (i64, usize)| after.contains(pair) <==> before.contains(pair) by {
        assert(after.contains(pair) <==> after.to_multiset().count(pair) > 0);
        assert(before.contains(pair) <==> before.to_multiset().count(pair) > 0);
    }
}

} // verus!
