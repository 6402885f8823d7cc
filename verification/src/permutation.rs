//! Random permutations of container contents.

use vstd::prelude::*;
use vstd::multiset::Multiset;
use rand::prelude::SliceRandom;

verus! {

/// A sequence of length `n` holding exactly the values `0..n`, one per slot:
/// entry `i` is the number hidden in container `i`.
pub open spec fn is_permutation(s: Seq<usize>) -> bool {
    &&& forall|i: int| 0 <= i < s.len() ==> s[i] < s.len()
    &&& forall|i: int, j: int| 0 <= i < j < s.len() ==> s[i] != s[j]
}

/// Relies on rand's `SliceRandom::shuffle`: it reorders the elements of the
/// slice in place, drawing the order from the thread-local generator, so the
/// length and the multiset of elements are unchanged. Nothing is assumed
/// about which order comes out.
#[verifier::external_body]
fn shuffle(v: &mut Vec<usize>)
    ensures
        final(v)@.len() == old(v)@.len(),
        final(v)@.to_multiset() == old(v)@.to_multiset(),
{
    v.shuffle(&mut rand::thread_rng());
}

/// In the sequence `0, 1, ..., n-1`, every value below `n` occurs exactly
/// once and every other value not at all.
proof fn lemma_identity_counts(s: Seq<usize>)
    requires
        forall|j: int| 0 <= j < s.len() ==> s[j] as int == j,
    ensures
        forall|v: usize|
            #[trigger] s.to_multiset().count(v) == if (v as int) < s.len() {
                1int
            } else {
                0int
            },
    decreases s.len(),
{
    broadcast use vstd::seq_lib::group_to_multiset_ensures;
    broadcast use vstd::multiset::group_multiset_axioms;

    if s.len() == 0 {
        assert(s.to_multiset() =~= Multiset::<usize>::empty());
    } else {
        let prefix = s.drop_last();
        lemma_identity_counts(prefix);
        assert(prefix.push(s.last()) =~= s);
        assert(s.to_multiset() =~= prefix.to_multiset().insert(s.last()));
    }
}

/// Equal multisets with the identity counts force a permutation: every entry
/// is in range and no two entries are equal.
proof fn lemma_counts_give_permutation(s: Seq<usize>)
    requires
        forall|v: usize|
            #[trigger] s.to_multiset().count(v) == if (v as int) < s.len() {
                1int
            } else {
                0int
            },
    ensures
        is_permutation(s),
{
    broadcast use vstd::seq_lib::group_to_multiset_ensures;
    broadcast use vstd::multiset::group_multiset_axioms;

    assert forall|i: int| 0 <= i < s.len() implies s[i] < s.len() by {
        assert(s.contains(s[i]));
        assert(s.to_multiset().count(s[i]) > 0);
    }
    s.lemma_multiset_has_no_duplicates_conv();
}

/// Draws a fresh uniformly random permutation of `0..n`: the contents of the
/// `n` containers for one trial. The result is a bijection on `0..n` — each
/// value appears in exactly one slot.
pub fn make_boxes(n: usize) -> (boxes: Vec<usize>)
    ensures
        boxes@.len() == n,
        is_permutation(boxes@),
        forall|v: usize| v < n ==> #[trigger] boxes@.to_multiset().count(v) == 1,
{
    let mut boxes: Vec<usize> = Vec::new();
    for i in 0..n
        invariant
            boxes@.len() == i,
            forall|j: int| 0 <= j < i ==> #[trigger] boxes@[j] as int == j,
    {
        boxes.push(i);
    }
    proof {
        lemma_identity_counts(boxes@);
    }
    shuffle(&mut boxes);
    proof {
        lemma_counts_give_permutation(boxes@);
    }
    boxes
}

} // verus!
