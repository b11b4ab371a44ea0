use slideshow::stats::{tally, FrameOutcome, PipelineStats};

#[test]
fn new_stats_count_nothing() {
    let stats = PipelineStats::new();
    assert_eq!(stats, PipelineStats { succeeded: 0, skipped: 0, errors: 0 });
    assert_eq!(stats.total(), Some(0));
}

#[test]
fn tally_counts_each_outcome() {
    let outcomes = vec![
        FrameOutcome::Written,
        FrameOutcome::Skipped,
        FrameOutcome::Written,
        FrameOutcome::Failed,
        FrameOutcome::Written,
        FrameOutcome::Skipped,
    ];
    let stats = tally(&outcomes);
    assert_eq!(stats, PipelineStats { succeeded: 3, skipped: 2, errors: 1 });
    assert_eq!(stats.total(), Some(6));
    assert_eq!(tally(&vec![]), PipelineStats::new());
}

#[test]
fn one_failed_job_counts_once() {
    let mut outcomes = vec![FrameOutcome::Written; 20];
    outcomes[7] = FrameOutcome::Skipped;
    assert_eq!(tally(&outcomes), PipelineStats { succeeded: 19, skipped: 1, errors: 0 });
}

#[test]
fn stats_of_workers_are_merged() {
    let first = PipelineStats { succeeded: 3, skipped: 2, errors: 1 };
    let second = PipelineStats { succeeded: 10, skipped: 0, errors: 4 };
    assert_eq!(first.merged(&second), Some(PipelineStats { succeeded: 13, skipped: 2, errors: 5 }));
    assert_eq!(first.merged(&PipelineStats::new()), Some(first));
}

#[test]
fn counts_that_do_not_fit_are_not_made_up() {
    let full = PipelineStats { succeeded: usize::MAX, skipped: 0, errors: 0 };
    let one = PipelineStats { succeeded: 1, skipped: 0, errors: 0 };
    assert_eq!(full.merged(&one), None);
    assert_eq!(full.total(), Some(usize::MAX));
    assert_eq!(PipelineStats { succeeded: usize::MAX, skipped: 1, errors: 0 }.total(), None);
    assert_eq!(PipelineStats { succeeded: usize::MAX - 1, skipped: 0, errors: 2 }.total(), None);
    let errors = PipelineStats { succeeded: 0, skipped: 0, errors: usize::MAX };
    assert_eq!(errors.merged(&PipelineStats { succeeded: 5, skipped: 5, errors: 1 }), None);
}

#[test]
fn outcomes_follow_what_became_of_the_frame() {
    assert_eq!(FrameOutcome::of(true, true), FrameOutcome::Written);
    assert_eq!(FrameOutcome::of(true, false), FrameOutcome::Failed);
    assert_eq!(FrameOutcome::of(false, false), FrameOutcome::Skipped);
    assert_eq!(FrameOutcome::of(false, true), FrameOutcome::Skipped);
}
