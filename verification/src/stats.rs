//! The counts a run is summed up in.
//!
//! They are made for the report at the end of a run. Nothing is decided by
//! them.

use vstd::prelude::*;

verus! {

/// How the job of a frame ended.
#[derive(Clone, Copy, Debug, PartialEq, Eq, Structural)]
pub enum FrameOutcome {
    /// The frame was made and stored.
    Written,
    /// The frame was not made: its image could not be decoded.
    Skipped,
    /// The frame was made and could not be stored.
    Failed,
}

impl FrameOutcome {
    /// The outcome of a job from what became of its frame: a frame that was
    /// not made is skipped, whatever is said of storing it; a frame that was
    /// made is written where it was stored, and failed where it was not.
    pub fn of(made: bool, stored: bool) -> (outcome: FrameOutcome)
        ensures
            !made ==> outcome == FrameOutcome::Skipped,
            made && stored ==> outcome == FrameOutcome::Written,
            made && !stored ==> outcome == FrameOutcome::Failed,
    {
        if !made {
            FrameOutcome::Skipped
        } else if stored {
            FrameOutcome::Written
        } else {
            FrameOutcome::Failed
        }
    }
}

/// How many jobs ended in each way.
#[derive(Clone, Copy, Debug, PartialEq, Eq, Structural)]
pub struct PipelineStats {
    pub succeeded: usize,
    pub skipped: usize,
    pub errors: usize,
}

/// The number of times `outcome` occurs in `outcomes`.
pub open spec fn occurrences(outcomes: Seq<FrameOutcome>, outcome: FrameOutcome) -> nat
    decreases outcomes.len(),
{
    if outcomes.len() == 0 {
        0
    } else {
        occurrences(outcomes.drop_last(), outcome) + if outcomes.last() == outcome {
            1nat
        } else {
            0nat
        }
    }
}

/// Every job ends in exactly one of the three ways, so the three counts add
/// up to the number of jobs.
pub proof fn lemma_occurrences_add_up(outcomes: Seq<FrameOutcome>)
    ensures
        occurrences(outcomes, FrameOutcome::Written) + occurrences(outcomes, FrameOutcome::Skipped)
            + occurrences(outcomes, FrameOutcome::Failed) == outcomes.len(),
    decreases outcomes.len(),
{
    if outcomes.len() > 0 {
        lemma_occurrences_add_up(outcomes.drop_last());
    }
}

/// The outcome of one job counts for that job alone: where a list of
/// outcomes changes at one place, the counts of the two outcomes involved
/// change by one and the third stays.
pub proof fn lemma_occurrences_after_update(
    outcomes: Seq<FrameOutcome>,
    at: int,
    outcome: FrameOutcome,
    counted: FrameOutcome,
)
    requires
        0 <= at < outcomes.len(),
    ensures
        occurrences(outcomes.update(at, outcome), counted) + (if outcomes[at] == counted {
            1nat
        } else {
            0nat
        }) == occurrences(outcomes, counted) + (if outcome == counted {
            1nat
        } else {
            0nat
        }),
    decreases outcomes.len(),
{
    let updated = outcomes.update(at, outcome);
    if at == outcomes.len() - 1 {
        assert(updated.drop_last() =~= outcomes.drop_last());
    } else {
        assert(updated.drop_last() =~= outcomes.drop_last().update(at, outcome));
        lemma_occurrences_after_update(outcomes.drop_last(), at, outcome, counted);
    }
}

impl PipelineStats {
    /// The counts of `outcomes`.
    pub open spec fn of(outcomes: Seq<FrameOutcome>) -> PipelineStats {
        PipelineStats {
            succeeded: occurrences(outcomes, FrameOutcome::Written) as usize,
            skipped: occurrences(outcomes, FrameOutcome::Skipped) as usize,
            errors: occurrences(outcomes, FrameOutcome::Failed) as usize,
        }
    }

    /// The number of jobs counted.
    pub open spec fn spec_total(self) -> int {
        self.succeeded + self.skipped + self.errors
    }

    /// The counts before any job has ended.
    pub fn new() -> (stats: PipelineStats)
        ensures
            stats == PipelineStats::of(Seq::empty()),
            stats.spec_total() == 0,
    {
        PipelineStats { succeeded: 0, skipped: 0, errors: 0 }
    }

    /// The number of jobs counted, or nothing where it does not fit the
    /// machine's numbers.
    pub fn total(&self) -> (total: Option<usize>)
        ensures
            total is Some <==> self.spec_total() <= usize::MAX,
            total matches Some(n) ==> n == self.spec_total(),
    {
        match self.succeeded.checked_add(self.skipped) {
            None => None,
            Some(both) => both.checked_add(self.errors),
        }
    }

    /// The counts of two sets of jobs taken together, as when each worker
    /// has counted its own. Nothing is returned where a count does not fit
    /// the machine's numbers.
    pub fn merged(&self, other: &PipelineStats) -> (sum: Option<PipelineStats>)
        ensures
            sum is Some <==> {
                &&& self.succeeded + other.succeeded <= usize::MAX
                &&& self.skipped + other.skipped <= usize::MAX
                &&& self.errors + other.errors <= usize::MAX
            },
            sum matches Some(stats) ==> {
                &&& stats.succeeded == self.succeeded + other.succeeded
                &&& stats.skipped == self.skipped + other.skipped
                &&& stats.errors == self.errors + other.errors
            },
    {
        let succeeded = self.succeeded.checked_add(other.succeeded);
        let skipped = self.skipped.checked_add(other.skipped);
        let errors = self.errors.checked_add(other.errors);
        match (succeeded, skipped, errors) {
            (Some(succeeded), Some(skipped), Some(errors)) => Some(
                PipelineStats { succeeded, skipped, errors },
            ),
            _ => None,
        }
    }
}

/// Counts how many jobs ended in each way.
pub fn tally(outcomes: &Vec<FrameOutcome>) -> (stats: PipelineStats)
    ensures
        stats == PipelineStats::of(outcomes@),
        stats.succeeded == occurrences(outcomes@, FrameOutcome::Written),
        stats.skipped == occurrences(outcomes@, FrameOutcome::Skipped),
        stats.errors == occurrences(outcomes@, FrameOutcome::Failed),
        stats.spec_total() == outcomes@.len(),
{
    let mut stats = PipelineStats::new();
    let mut i: usize = 0;
    while i < outcomes.len()
        invariant
            i <= outcomes@.len(),
            stats.succeeded == occurrences(outcomes@.take(i as int), FrameOutcome::Written),
            stats.skipped == occurrences(outcomes@.take(i as int), FrameOutcome::Skipped),
            stats.errors == occurrences(outcomes@.take(i as int), FrameOutcome::Failed),
        decreases outcomes@.len() - i,
    {
        proof {
            lemma_occurrences_add_up(outcomes@.take(i as int));
            assert(outcomes@.take(i + 1).drop_last() =~= outcomes@.take(i as int));
        }
        match outcomes[i] {
            FrameOutcome::Written => {
                stats.succeeded += 1;
            },
            FrameOutcome::Skipped => {
                stats.skipped += 1;
            },
            FrameOutcome::Failed => {
                stats.errors += 1;
            },
        }
        i += 1;
    }
    proof {
        assert(outcomes@.take(i as int) =~= outcomes@);
        lemma_occurrences_add_up(outcomes@);
    }
    stats
}

} // verus!
