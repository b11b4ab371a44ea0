//! One-off selection: as many images as are needed, drawn from the pool in
//! one go.

use crate::error::ConfigurationError;
use crate::shuffle::{
    identity_order,
    lemma_identity_order_distinct,
    lemma_rearranged_below,
    lemma_rearranged_references,
    rising_order,
    shuffle_with_seed,
    shuffled,
};
use vstd::prelude::*;

verus! {

/// The pool gone through in its own order, again and again, until `count`
/// references are together.
pub open spec fn cyclic_order(pool_len: nat, count: nat) -> Seq<usize> {
    Seq::new(count, |i: int| (i % (pool_len as int)) as usize)
}

/// The selection of `needed` images from a pool of `pool_len` that the seed
/// gives. A pool that holds enough is shuffled and the first `needed` are
/// taken. A smaller pool is gone through again and again until `needed`
/// references are together, and these are shuffled.
pub open spec fn selection(pool_len: nat, needed: nat, seed: u64) -> Seq<usize> {
    if pool_len >= needed {
        shuffled(seed, identity_order(pool_len)).take(needed as int)
    } else {
        shuffled(seed, cyclic_order(pool_len, needed))
    }
}

/// Selects `needed_count` images from a pool of `pool_len`. From a pool that
/// holds enough no image is selected twice. From a smaller pool the images
/// are selected equally often, but for those at its start that come once
/// more. Nothing can be selected from an empty pool.
pub fn select_random_pngs(
    pool_len: usize,
    needed_count: usize,
    seed: u64,
) -> (r: Result<Vec<usize>, ConfigurationError>)
    ensures
        r is Err <==> pool_len == 0 && needed_count > 0,
        r matches Err(e) ==> e == ConfigurationError::EmptyImagePool,
        r matches Ok(selected) ==> {
            &&& selected@ == selection(pool_len as nat, needed_count as nat, seed)
            &&& selected@.len() == needed_count
            &&& forall|i: int| 0 <= i < selected@.len() ==> #[trigger] selected@[i] < pool_len
            &&& pool_len >= needed_count ==> selected@.no_duplicates()
            &&& pool_len < needed_count ==> selected@.to_multiset() == cyclic_order(
                pool_len as nat,
                needed_count as nat,
            ).to_multiset()
        },
{
    if pool_len >= needed_count {
        let mut selected = rising_order(pool_len);
        shuffle_with_seed(&mut selected, seed);
        proof {
            lemma_identity_order_distinct(pool_len as nat);
            lemma_rearranged_references(
                identity_order(pool_len as nat),
                selected@,
                pool_len as int,
            );
        }
        let ghost all = selected@;
        selected.truncate(needed_count);
        proof {
            assert(selected@ =~= all.take(needed_count as int));
            assert forall|i: int| 0 <= i < selected@.len() implies #[trigger] selected@[i]
                < pool_len by {
                assert(selected@[i] == all[i]);
            }
            assert forall|i: int, j: int|
                0 <= i < selected@.len() && 0 <= j < selected@.len() && i != j implies selected@[i]
                != selected@[j] by {
                assert(all[i] != all[j]);
            }
        }
        Ok(selected)
    } else if pool_len == 0 {
        Err(ConfigurationError::EmptyImagePool)
    } else {
        let mut selected: Vec<usize> = Vec::new();
        let mut i: usize = 0;
        while i < needed_count
            invariant
                pool_len > 0,
                i <= needed_count,
                selected@ == cyclic_order(pool_len as nat, i as nat),
            decreases needed_count - i,
        {
            selected.push(i % pool_len);
            i += 1;
            assert(selected@ =~= cyclic_order(pool_len as nat, i as nat));
        }
        let ghost before = selected@;
        shuffle_with_seed(&mut selected, seed);
        proof {
            assert forall|k: int| 0 <= k < before.len() implies #[trigger] before[k] < pool_len by {
                vstd::arithmetic::div_mod::lemma_mod_bound(k, pool_len as int);
            }
            lemma_rearranged_below(before, selected@, pool_len as int);
        }
        Ok(selected)
    }
}

} // verus!
