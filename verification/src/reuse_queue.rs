//! The reuse queue: an endless supply of image references from a finite pool.
//!
//! An image reference is the position of an image in the pool. The queue
//! hands the references out pass by pass. Each pass is one shuffle of the
//! whole pool, so no image is left out for long and none is shown twice
//! within a pass. The shuffles are drawn from a seed, which fixes everything
//! the queue will ever hand out.

use crate::error::ConfigurationError;
use crate::shuffle::{
    distinct_references,
    identity_order,
    lemma_identity_order_distinct,
    lemma_rearranged_references,
    rising_order,
    shuffle_with_seed,
    shuffled,
};
use std::collections::VecDeque;
use vstd::arithmetic::div_mod::{
    lemma_fundamental_div_mod,
    lemma_fundamental_div_mod_converse,
    lemma_mod_bound,
};
use vstd::prelude::*;

verus! {

/// The seed of pass number `pass` of a queue made with `seed`: the seeds go
/// up by one from pass to pass and wrap around.
pub open spec fn seed_of_pass(seed: u64, pass: nat) -> u64 {
    ((seed + pass) % 0x1_0000_0000_0000_0000) as u64
}

/// The order in which pass number `pass` visits a pool of `pool_len` images.
/// The first pass shuffles the pool as it was given; every later pass is a
/// shuffle of its own of the first pass.
pub open spec fn pass_order(pool_len: nat, seed: u64, pass: nat) -> Seq<usize> {
    let first = shuffled(seed, identity_order(pool_len));
    if pass == 0 {
        first
    } else {
        shuffled(seed_of_pass(seed, pass), first)
    }
}

/// Pass number `pass` visits every image of the pool exactly once: its order
/// is a rearrangement of the pool, so it is as long as the pool and holds
/// no reference twice.
pub open spec fn pass_is_permutation(pool_len: nat, seed: u64, pass: nat) -> bool {
    &&& pass_order(pool_len, seed, pass).to_multiset() == identity_order(pool_len).to_multiset()
    &&& pass_order(pool_len, seed, pass).len() == pool_len
    &&& distinct_references(pass_order(pool_len, seed, pass), pool_len as int)
}

/// The reference that a queue over `pool_len` images, made with `seed`, hands
/// out at `position`, counted from zero over its whole life.
pub open spec fn reference_at(pool_len: nat, seed: u64, position: nat) -> usize {
    pass_order(pool_len, seed, position / pool_len)[(position % pool_len) as int]
}

/// What a reuse queue is, seen from outside: the pool and seed it was made
/// with, and how many references it has handed out.
pub struct QueueModel {
    pub pool_len: nat,
    pub seed: u64,
    pub emitted: nat,
}

impl QueueModel {
    /// A queue that has handed out nothing yet.
    pub open spec fn fresh(pool_len: nat, seed: u64) -> QueueModel {
        QueueModel { pool_len, seed, emitted: 0 }
    }

    /// The next `count` references the queue hands out.
    pub open spec fn upcoming(self, count: nat) -> Seq<usize> {
        Seq::new(count, |i: int| reference_at(self.pool_len, self.seed, (self.emitted + i) as nat))
    }

    /// The queue after it has handed out `count` more references.
    pub open spec fn advanced(self, count: nat) -> QueueModel {
        QueueModel { emitted: self.emitted + count, ..self }
    }

    /// The pass to which the reference handed out at `position` belongs.
    pub open spec fn pass_of(self, position: nat) -> nat {
        position / self.pool_len
    }
}

/// Hands out image references from a pool, reshuffling the pool whenever a
/// pass is used up.
pub struct CircularImageQueue {
    all_images: Vec<usize>,
    images: VecDeque<usize>,
    next_seed: u64,
    seed: Ghost<u64>,
    passes: Ghost<nat>,
    emitted: Ghost<nat>,
}

impl View for CircularImageQueue {
    type V = QueueModel;

    closed spec fn view(&self) -> QueueModel {
        QueueModel { pool_len: self.all_images@.len(), seed: self.seed@, emitted: self.emitted@ }
    }
}

impl CircularImageQueue {
    /// The references of the current pass that are still to be handed out,
    /// in order.
    pub closed spec fn pending(&self) -> Seq<usize> {
        self.images@
    }

    /// The queue is in order: the pool is not empty, every pass begun so far
    /// is a permutation of the pool, and the pending references are the rest
    /// of the current pass.
    pub closed spec fn wf(&self) -> bool {
        let n = self.all_images@.len();
        &&& n > 0
        &&& self.passes@ >= 1
        &&& self.all_images@ == pass_order(n, self.seed@, 0)
        &&& self.images@.len() <= n
        &&& self.emitted@ + self.images@.len() == self.passes@ * n
        &&& self.images@ == pass_order(n, self.seed@, (self.passes@ - 1) as nat).skip(
            n - self.images@.len(),
        )
        &&& self.next_seed == seed_of_pass(self.seed@, self.passes@)
        &&& forall|p: nat| p < self.passes@ ==> #[trigger] pass_is_permutation(n, self.seed@, p)
    }

    /// The pending references are a part of a permutation of the pool, and
    /// they are what the queue hands out next.
    pub proof fn lemma_pending_is_rest_of_pass(&self)
        requires
            self.wf(),
        ensures
            self@.pool_len > 0,
            self.pending().len() <= self@.pool_len,
            distinct_references(self.pending(), self@.pool_len as int),
            self.pending() == self@.upcoming(self.pending().len()),
            (self@.emitted + self.pending().len()) % self@.pool_len == 0,
    {
        let n = self.all_images@.len();
        let last = (self.passes@ - 1) as nat;
        let order = pass_order(n, self.seed@, last);
        let start = n - self.images@.len();
        assert(pass_is_permutation(n, self.seed@, last));
        assert(self.passes@ * n == last * n + n) by (nonlinear_arith)
            requires
                self.passes@ == last + 1,
        ;
        lemma_fundamental_div_mod_converse(
            (self.passes@ * n) as int,
            n as int,
            self.passes@ as int,
            0,
        );
        assert forall|i: int| 0 <= i < self.images@.len() implies #[trigger] self.images@[i]
            == self@.upcoming(self.images@.len())[i] by {
            lemma_fundamental_div_mod_converse(
                self.emitted@ + i,
                n as int,
                last as int,
                start + i,
            );
        }
        assert(self.pending() =~= self@.upcoming(self.pending().len()));
        let pending = self.images@;
        assert forall|i: int, j: int|
            0 <= i < pending.len() && 0 <= j < pending.len() && i != j implies pending[i]
            != pending[j] by {
            assert(order[start + i] != order[start + j]);
        }
        assert forall|i: int| 0 <= i < self.images@.len() implies #[trigger] self.images@[i]
            < n by {
            assert(order[start + i] < n);
        }
    }

    /// Every reference handed out so far points into the pool, and no two
    /// references of one pass are the same.
    pub proof fn lemma_no_repeat_within_pass(&self)
        requires
            self.wf(),
        ensures
            forall|i: nat|
                i < self@.emitted ==> #[trigger] reference_at(self@.pool_len, self@.seed, i)
                    < self@.pool_len,
            forall|i: nat, j: nat|
                i < j < self@.emitted && self@.pass_of(i) == self@.pass_of(j) ==> reference_at(
                    self@.pool_len,
                    self@.seed,
                    i,
                ) != reference_at(self@.pool_len, self@.seed, j),
    {
        let n = self.all_images@.len();
        let seed = self.seed@;
        assert forall|i: nat| i < self@.emitted implies #[trigger] reference_at(n, seed, i)
            < n by {
            lemma_position_lies_in_pass(i, n, self.passes@);
            assert(pass_is_permutation(n, seed, i / n));
        }
        assert forall|i: nat, j: nat|
            i < j < self@.emitted && self@.pass_of(i) == self@.pass_of(j) implies reference_at(
            n,
            seed,
            i,
        ) != reference_at(n, seed, j) by {
            lemma_position_lies_in_pass(i, n, self.passes@);
            lemma_position_lies_in_pass(j, n, self.passes@);
            assert(pass_is_permutation(n, seed, i / n));
            lemma_fundamental_div_mod(i as int, n as int);
            lemma_fundamental_div_mod(j as int, n as int);
            assert(i % n != j % n);
        }
    }

    /// No image is left out: every pass that has been begun hands out every
    /// image of the pool, at the place in the pass that is returned.
    pub proof fn lemma_every_pass_visits_every_image(
        &self,
        pass: nat,
        image: usize,
    ) -> (place: nat)
        requires
            self.wf(),
            pass * self@.pool_len < self@.emitted + self.pending().len(),
            image < self@.pool_len,
        ensures
            place < self@.pool_len,
            reference_at(self@.pool_len, self@.seed, pass * self@.pool_len + place) == image,
    {
        broadcast use vstd::seq_lib::to_multiset_contains;

        let n = self.all_images@.len();
        let order = pass_order(n, self.seed@, pass);
        if pass >= self.passes@ {
            assert(pass * n >= self.passes@ * n) by (nonlinear_arith)
                requires
                    pass >= self.passes@,
            ;
        }
        assert(pass_is_permutation(n, self.seed@, pass));
        assert(identity_order(n)[image as int] == image);
        assert(identity_order(n).contains(image));
        assert(identity_order(n).to_multiset().count(image) > 0);
        assert(order.contains(image));
        let place = choose|place: int| 0 <= place < order.len() && order[place] == image;
        lemma_fundamental_div_mod_converse(pass * n + place, n as int, pass as int, place);
        place as nat
    }

    /// Makes a queue over a pool of `pool_len` images whose shuffles are
    /// drawn from `seed`. An empty pool is refused.
    pub fn new(pool_len: usize, seed: u64) -> (r: Result<CircularImageQueue, ConfigurationError>)
        ensures
            r is Err <==> pool_len == 0,
            r matches Err(e) ==> e == ConfigurationError::EmptyImagePool,
            r matches Ok(queue) ==> queue.wf() && queue@ == QueueModel::fresh(
                pool_len as nat,
                seed,
            ),
    {
        if pool_len == 0 {
            return Err(ConfigurationError::EmptyImagePool);
        }
        let mut all_images = rising_order(pool_len);
        shuffle_with_seed(&mut all_images, seed);
        proof {
            lemma_identity_order_distinct(pool_len as nat);
            lemma_rearranged_references(
                identity_order(pool_len as nat),
                all_images@,
                pool_len as int,
            );
        }
        let images = copy_into_deque(&all_images);
        let queue = CircularImageQueue {
            all_images,
            images,
            next_seed: seed.wrapping_add(1),
            seed: Ghost(seed),
            passes: Ghost(1),
            emitted: Ghost(0),
        };
        proof {
            let n = pool_len as nat;
            assert(queue.images@ =~= pass_order(n, seed, 0).skip(0));
            assert(pass_is_permutation(n, seed, 0));
        }
        Ok(queue)
    }

    /// The number of images in the pool.
    pub fn pool_len(&self) -> (n: usize)
        ensures
            n == self@.pool_len,
    {
        self.all_images.len()
    }

    /// The number of references that are left of the current pass.
    pub fn pending_len(&self) -> (n: usize)
        ensures
            n == self.pending().len(),
    {
        self.images.len()
    }

    /// Starts the next pass: a fresh shuffle of the whole pool.
    fn refill(&mut self)
        requires
            old(self).wf(),
            old(self).images@.len() == 0,
        ensures
            final(self).wf(),
            final(self)@ == old(self)@,
            final(self).images@.len() == final(self)@.pool_len,
    {
        let ghost n = self.all_images@.len();
        let ghost seed = self.seed@;
        let ghost pass = self.passes@;
        let mut fresh_images = copy_of(&self.all_images);
        shuffle_with_seed(&mut fresh_images, self.next_seed);
        proof {
            assert(pass_is_permutation(n, seed, 0));
            lemma_rearranged_references(self.all_images@, fresh_images@, n as int);
            assert(fresh_images@ == pass_order(n, seed, pass));
        }
        self.images = copy_into_deque(&fresh_images);
        self.next_seed = self.next_seed.wrapping_add(1);
        self.passes = Ghost((pass + 1) as nat);
        proof {
            assert(self.images@ =~= pass_order(n, seed, pass).skip(0));
            assert((pass + 1) * n == pass * n + n) by (nonlinear_arith);
            assert(pass_is_permutation(n, seed, pass));
            assert forall|p: nat| p < self.passes@ implies #[trigger] pass_is_permutation(
                n,
                seed,
                p,
            ) by {
                if p < pass {
                    assert(old(self).wf());
                }
            }
        }
    }

    /// Hands out the next `count` references, starting a new pass whenever
    /// the current one is used up. Within each pass no reference comes twice.
    pub fn next_images(&mut self, count: usize) -> (result: Vec<usize>)
        requires
            old(self).wf(),
        ensures
            final(self).wf(),
            final(self)@ == old(self)@.advanced(count as nat),
            result@ == old(self)@.upcoming(count as nat),
            result@.len() == count,
            forall|i: int| 0 <= i < count ==> #[trigger] result@[i] < old(self)@.pool_len,
            forall|i: int, j: int|
                0 <= i < j < count && old(self)@.pass_of((old(self)@.emitted + i) as nat) == old(
                    self,
                )@.pass_of((old(self)@.emitted + j) as nat) ==> result@[i] != result@[j],
    {
        let ghost start = self@;
        let mut result: Vec<usize> = Vec::new();
        while result.len() < count
            invariant
                self.wf(),
                result@.len() <= count,
                self@ == start.advanced(result@.len()),
                result@ == start.upcoming(result@.len()),
            decreases count - result@.len(),
        {
            if self.images.len() == 0 {
                self.refill();
            }
            proof {
                self.lemma_pending_is_rest_of_pass();
            }
            let ghost before = self.images@;
            let ghost done = result@;
            let next = self.images.pop_front();
            if let Some(image) = next {
                result.push(image);
            }
            self.emitted = Ghost(self.emitted@ + 1);
            proof {
                let n = self.all_images@.len();
                let last = (self.passes@ - 1) as nat;
                assert(pass_is_permutation(n, self.seed@, last));
                assert(self.images@ =~= pass_order(n, self.seed@, last).skip(
                    n - self.images@.len(),
                ));
                assert(before[0] == start.advanced(done.len()).upcoming(before.len())[0]);
                assert(result@ =~= start.upcoming(result@.len()));
            }
        }
        proof {
            self.lemma_no_repeat_within_pass();
            assert(self@.pool_len == start.pool_len);
            assert(self@.seed == start.seed);
            assert(self@.emitted == start.emitted + count);
            assert forall|i: int| 0 <= i < count implies #[trigger] result@[i]
                < start.pool_len by {
                let position = (start.emitted + i) as nat;
                assert(position < self@.emitted);
                assert(result@[i] == reference_at(start.pool_len, start.seed, position));
                assert(reference_at(self@.pool_len, self@.seed, position) < self@.pool_len);
            }
            assert forall|i: int, j: int|
                0 <= i < j < count && start.pass_of((start.emitted + i) as nat) == start.pass_of(
                    (start.emitted + j) as nat,
                ) implies result@[i] != result@[j] by {
                let pi = (start.emitted + i) as nat;
                let pj = (start.emitted + j) as nat;
                assert(pi < pj < self@.emitted);
                assert(self@.pass_of(pi) == self@.pass_of(pj));
                assert(reference_at(self@.pool_len, self@.seed, pi) != reference_at(
                    self@.pool_len,
                    self@.seed,
                    pj,
                ));
            }
        }
        result
    }
}

/// A position below `passes * pool_len` lies in one of the first `passes`
/// passes, at a place inside that pass.
proof fn lemma_position_lies_in_pass(position: nat, pool_len: nat, passes: nat)
    requires
        pool_len > 0,
        position < passes * pool_len,
    ensures
        position / pool_len < passes,
        0 <= position % pool_len < pool_len,
{
    lemma_fundamental_div_mod(position as int, pool_len as int);
    lemma_mod_bound(position as int, pool_len as int);
    if position / pool_len >= passes {
        assert(pool_len * (position / pool_len) >= passes * pool_len) by (nonlinear_arith)
            requires
                position / pool_len >= passes,
                pool_len > 0,
        ;
    }
}

/// Copies a list of references.
fn copy_of(items: &Vec<usize>) -> (copy: Vec<usize>)
    ensures
        copy@ == items@,
{
    let mut copy: Vec<usize> = Vec::new();
    let mut i: usize = 0;
    while i < items.len()
        invariant
            i <= items.len(),
            copy@ == items@.take(i as int),
        decreases items.len() - i,
    {
        copy.push(items[i]);
        i += 1;
        assert(copy@ =~= items@.take(i as int));
    }
    assert(copy@ =~= items@);
    copy
}

/// Lines a list of references up in a queue, first to last.
fn copy_into_deque(items: &Vec<usize>) -> (queue: VecDeque<usize>)
    ensures
        queue@ == items@,
{
    let mut queue: VecDeque<usize> = VecDeque::new();
    let mut i: usize = 0;
    while i < items.len()
        invariant
            i <= items.len(),
            queue@ == items@.take(i as int),
        decreases items.len() - i,
    {
        queue.push_back(items[i]);
        i += 1;
        assert(queue@ =~= items@.take(i as int));
    }
    assert(queue@ =~= items@);
    queue
}

} // verus!
