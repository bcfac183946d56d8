use vstd::prelude::*;

use rand::seq::SliceRandom;
use rand::Rng;

use crate::pos::Pos;

verus! {

/// Relies on rand's thread_rng and Rng::gen_range: a sample from `0..n`,
/// which is defined (does not panic) only for a non-empty range.
/// Nothing more is assumed of the outcome than its bound.
#[verifier::external_body]
pub(crate) fn random_below(n: usize) -> (r: usize)
    requires
        n > 0,
    ensures
        r < n,
{
    rand::thread_rng().gen_range(0..n)
}

/// Relies on rand's SliceRandom::shuffle: an in-place Fisher-Yates pass
/// built from swaps, so the entries are permuted and nothing else changes.
#[verifier::external_body]
pub(crate) fn shuffle_positions(v: &mut Vec<Pos>)
    ensures
        final(v)@.len() == old(v)@.len(),
        final(v)@.to_multiset() == old(v)@.to_multiset(),
{
    v.shuffle(&mut rand::thread_rng());
}

/// Every entry of a permuted sequence already occurred in the original.
pub proof fn lemma_permutation_membership(a: Seq<Pos>, b: Seq<Pos>)
    requires
        a.to_multiset() == b.to_multiset(),
    ensures
        forall|i: int| 0 <= i < b.len() ==> a.contains(#[trigger] b[i]),
{
    a.to_multiset_ensures();
    b.to_multiset_ensures();
    assert forall|i: int| 0 <= i < b.len() implies a.contains(#[trigger] b[i]) by {
        assert(b.contains(b[i]));
        assert(b.to_multiset().count(b[i]) > 0);
    }
}

} // verus!
