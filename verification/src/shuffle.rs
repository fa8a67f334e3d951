use vstd::prelude::*;

use rand::seq::SliceRandom;

verus! {

/// Relies on rand's `SliceRandom::shuffle`: it reorders the elements of the
/// vector in place (a permutation picked uniformly at random), so afterwards
/// the vector holds exactly the elements it held before, in some order.
#[verifier::external_body]
fn shuffle_vec(v: &mut Vec<usize>)
    ensures
        final(v)@.len() == old(v)@.len(),
        final(v)@.to_multiset() == old(v)@.to_multiset(),
{
    v.shuffle(&mut rand::rng());
}

/// A uniformly random permutation of the indices `0 .. n`: every index below
/// `n` appears exactly once.
pub(crate) fn shuffled_range(n: usize) -> (p: Vec<usize>)
    ensures
        p@.len() == n,
        p@.no_duplicates(),
        forall|k: int| 0 <= k < n ==> (#[trigger] p@[k]) < n,
        forall|j: usize| j < n ==> p@.contains(j),
{
    let mut v: Vec<usize> = Vec::new();
    let mut i: usize = 0;
    while i < n
        invariant
            i <= n,
            v@.len() == i,
            forall|k: int| 0 <= k < i ==> (#[trigger] v@[k]) == k,
        decreases n - i,
    {
        v.push(i);
        i += 1;
    }
    let ghost orig = v@;
    proof {
        assert(orig.no_duplicates());
    }
    shuffle_vec(&mut v);
    proof {
        broadcast use vstd::seq_lib::group_to_multiset_ensures;

        orig.lemma_multiset_has_no_duplicates();
        v@.lemma_multiset_has_no_duplicates_conv();
        assert forall|k: int| 0 <= k < n implies (#[trigger] v@[k]) < n by {
            assert(v@.contains(v@[k]));
            assert(orig.to_multiset().count(v@[k]) > 0);
            assert(orig.contains(v@[k]));
        }
        assert forall|j: usize| j < n implies v@.contains(j) by {
            assert(orig[j as int] == j);
            assert(orig.contains(j));
            assert(v@.to_multiset().count(j) > 0);
        }
    }
    v
}

} // verus!
