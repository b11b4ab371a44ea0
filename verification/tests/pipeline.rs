use slideshow::pipeline::{
    encoder_request, next_step, Action, AudioCodec, Event, PixelFormat, Stage, VideoCodec,
};
use slideshow::plan::create_video_plan;
use slideshow::schedule::Layout;
use slideshow::stats::PipelineStats;
use slideshow::timing::{Framerate, TimingParameters};

fn stats(succeeded: usize, skipped: usize, errors: usize) -> PipelineStats {
    PipelineStats { succeeded, skipped, errors }
}

#[test]
fn a_run_goes_from_plan_to_video() {
    let mut stage = Stage::Planning;
    let mut actions = Vec::new();
    for event in [
        Event::Planned { frames: 20 },
        Event::FramesResolved { stats: stats(20, 0, 0) },
        Event::EncoderExited { success: true },
        Event::CleanupDone { removed: true },
    ] {
        let (next, action) = next_step(stage, event);
        stage = next;
        actions.push(action);
    }
    assert_eq!(stage, Stage::Finished);
    assert_eq!(
        actions,
        vec![
            Action::CompositeFrames,
            Action::InvokeEncoder,
            Action::RemoveFrames,
            Action::ReportSuccess
        ]
    );
}

#[test]
fn frames_that_failed_do_not_stop_the_run() {
    let stage = Stage::Compositing { frames: 20 };
    assert_eq!(
        next_step(stage, Event::FramesResolved { stats: stats(19, 1, 0) }),
        (Stage::Encoding, Action::InvokeEncoder)
    );
    assert_eq!(
        next_step(stage, Event::FramesResolved { stats: stats(0, 12, 8) }),
        (Stage::Encoding, Action::InvokeEncoder)
    );
}

#[test]
fn the_encoder_waits_for_every_job() {
    let stage = Stage::Compositing { frames: 20 };
    assert_eq!(
        next_step(stage, Event::FramesResolved { stats: stats(19, 0, 0) }),
        (Stage::Aborted, Action::ReportFailure)
    );
    assert_eq!(
        next_step(stage, Event::FramesResolved { stats: stats(21, 0, 0) }),
        (Stage::Aborted, Action::ReportFailure)
    );
    assert_eq!(
        next_step(stage, Event::FramesResolved { stats: stats(usize::MAX, 20, 1) }),
        (Stage::Aborted, Action::ReportFailure)
    );
}

#[test]
fn refusal_and_encoder_failure_end_the_run() {
    assert_eq!(next_step(Stage::Planning, Event::Refused), (Stage::Aborted, Action::ReportFailure));
    assert_eq!(
        next_step(Stage::Encoding, Event::EncoderExited { success: false }),
        (Stage::Aborted, Action::ReportFailure)
    );
}

#[test]
fn failed_cleanup_does_not_end_the_run() {
    assert_eq!(
        next_step(Stage::CleaningUp, Event::CleanupDone { removed: false }),
        (Stage::Finished, Action::ReportSuccess)
    );
}

#[test]
fn events_out_of_turn_abort_the_run() {
    assert_eq!(
        next_step(Stage::Planning, Event::EncoderExited { success: true }),
        (Stage::Aborted, Action::ReportFailure)
    );
    assert_eq!(
        next_step(Stage::Compositing { frames: 3 }, Event::Planned { frames: 3 }),
        (Stage::Aborted, Action::ReportFailure)
    );
    assert_eq!(
        next_step(Stage::Encoding, Event::FramesResolved { stats: stats(3, 0, 0) }),
        (Stage::Aborted, Action::ReportFailure)
    );
    assert_eq!(
        next_step(Stage::CleaningUp, Event::Refused),
        (Stage::Aborted, Action::ReportFailure)
    );
}

#[test]
fn ended_runs_stay_ended() {
    for stage in [Stage::Finished, Stage::Aborted] {
        for event in [
            Event::Planned { frames: 1 },
            Event::Refused,
            Event::FramesResolved { stats: stats(1, 0, 0) },
            Event::EncoderExited { success: true },
            Event::CleanupDone { removed: true },
        ] {
            assert_eq!(next_step(stage, event), (stage, Action::Nothing));
        }
    }
}

#[test]
fn encoder_request_follows_the_plan() {
    let timing = TimingParameters {
        track_duration_micros: 10_000_000,
        per_frame_micros: 500_000,
        output_framerate: 24,
    };
    let plan = create_video_plan(5, &timing, Layout::Single, 1).unwrap();
    let request = encoder_request(&plan);
    assert_eq!(request.frame_pattern, "frame_%06d.png");
    assert_eq!(request.input_framerate, Framerate { frames: 1, micros: 500_000 });
    assert_eq!(request.input_framerate.per_second(), (1_000_000, 500_000));
    assert_eq!(request.output_framerate, 24);
    assert_eq!(request.video_codec, VideoCodec::H264);
    assert_eq!(request.audio_codec, AudioCodec::Aac);
    assert_eq!(request.pixel_format, PixelFormat::Yuv420p);
    assert!(request.stop_at_shortest);
}

#[test]
fn the_encoder_runs_once_at_most() {
    let events = [
        Event::Planned { frames: 2 },
        Event::Refused,
        Event::FramesResolved { stats: stats(2, 0, 0) },
        Event::FramesResolved { stats: stats(1, 1, 0) },
        Event::EncoderExited { success: true },
        Event::EncoderExited { success: false },
        Event::CleanupDone { removed: true },
    ];
    // Every run of four events, from every stage a run starts or stands at.
    let stages = [Stage::Planning, Stage::Compositing { frames: 2 }, Stage::Encoding];
    for start in stages {
        for a in events {
            for b in events {
                for c in events {
                    for d in events {
                        let mut stage = start;
                        let mut runs = 0;
                        for event in [a, b, c, d] {
                            let (next, action) = next_step(stage, event);
                            stage = next;
                            if action == Action::InvokeEncoder {
                                runs += 1;
                            }
                        }
                        assert!(runs <= 1);
                        assert!(runs == 0 || start != Stage::Encoding);
                    }
                }
            }
        }
    }
}
