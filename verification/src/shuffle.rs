//! Seeded shuffling, done by the `rand` crate.

use vstd::prelude::*;
use vstd::seq_lib::*;

verus! {

/// The order in which `rand` leaves `items` when it shuffles them with a
/// standard generator seeded with `seed`.
pub uninterp spec fn shuffled(seed: u64, items: Seq<usize>) -> Seq<usize>;

/// The numbers `0, 1, .., len - 1` in rising order.
pub open spec fn identity_order(len: nat) -> Seq<usize> {
    Seq::new(len, |i: int| i as usize)
}

/// `items` holds references into a pool of `pool_len` images, none of them
/// twice.
pub open spec fn distinct_references(items: Seq<usize>, pool_len: int) -> bool {
    &&& items.no_duplicates()
    &&& forall|i: int| 0 <= i < items.len() ==> #[trigger] items[i] < pool_len
}

/// Shuffles `items` in place with `rand::seq::SliceRandom::shuffle`, drawing
/// from a `rand::rngs::StdRng` that `rand::SeedableRng::seed_from_u64` makes
/// from `seed`.
///
/// Trusted: the generator is a deterministic function of the seed and the
/// shuffle only swaps elements, so the outcome is a rearrangement of the
/// input that depends on nothing but the seed and the input.
#[verifier::external_body]
pub(crate) fn shuffle_with_seed(items: &mut Vec<usize>, seed: u64)
    ensures
        final(items)@ == shuffled(seed, old(items)@),
        final(items)@.to_multiset() == old(items)@.to_multiset(),
{
    let mut rng: rand::rngs::StdRng = rand::SeedableRng::seed_from_u64(seed);
    rand::seq::SliceRandom::shuffle(items.as_mut_slice(), &mut rng);
}

/// A rearrangement is as long as what was rearranged, and stays below every
/// bound that this stays below.
pub proof fn lemma_rearranged_below(before: Seq<usize>, after: Seq<usize>, bound: int)
    requires
        after.to_multiset() == before.to_multiset(),
        forall|i: int| 0 <= i < before.len() ==> #[trigger] before[i] < bound,
    ensures
        after.len() == before.len(),
        forall|i: int| 0 <= i < after.len() ==> #[trigger] after[i] < bound,
{
    broadcast use to_multiset_contains;

    to_multiset_len(before);
    to_multiset_len(after);
    assert forall|i: int| 0 <= i < after.len() implies #[trigger] after[i] < bound by {
        assert(after.contains(after[i]));
        assert(after.to_multiset().count(after[i]) > 0);
        assert(before.contains(after[i]));
        let k = choose|k: int| 0 <= k < before.len() && before[k] == after[i];
        assert(before[k] < bound);
    }
}

/// A rearrangement of distinct references has as many references, and they
/// are distinct again.
pub proof fn lemma_rearranged_references(before: Seq<usize>, after: Seq<usize>, pool_len: int)
    requires
        after.to_multiset() == before.to_multiset(),
        distinct_references(before, pool_len),
    ensures
        after.len() == before.len(),
        distinct_references(after, pool_len),
{
    lemma_rearranged_below(before, after, pool_len);
    before.lemma_multiset_has_no_duplicates();
    after.lemma_multiset_has_no_duplicates_conv();
}

/// The rising order holds distinct references into a pool of its length.
pub proof fn lemma_identity_order_distinct(len: nat)
    requires
        len <= usize::MAX,
    ensures
        identity_order(len).len() == len,
        distinct_references(identity_order(len), len as int),
{
}

/// Lists the numbers `0, 1, .., len - 1` in rising order.
pub fn rising_order(len: usize) -> (order: Vec<usize>)
    ensures
        order@ == identity_order(len as nat),
{
    let mut order: Vec<usize> = Vec::new();
    let mut i: usize = 0;
    while i < len
        invariant
            i <= len,
            order@ == identity_order(i as nat),
        decreases len - i,
    {
        order.push(i);
        i += 1;
        assert(order@ =~= identity_order(i as nat));
    }
    order
}

} // verus!
