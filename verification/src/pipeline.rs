//! The course of a run: what is done next, and what ends it.
//!
//! The work itself is done outside: frames are stored, the encoder is run,
//! the stored frames are removed. Here it is decided in which order that
//! happens. The frames are made first, all of them, whatever becomes of the
//! single frame; the encoder is run once, after every job has ended; its
//! failure ends the run, while a failure to tidy up does not.

use crate::naming::FRAME_PATTERN;
use crate::plan::VideoPlan;
use crate::stats::PipelineStats;
use crate::timing::Framerate;
use vstd::prelude::*;

verus! {

/// The pixel format of the finished video.
#[derive(Clone, Copy, Debug, PartialEq, Eq, Structural)]
pub enum PixelFormat {
    /// Planar YUV with the colour at half the resolution each way.
    Yuv420p,
}

/// The codec of the picture of the finished video.
#[derive(Clone, Copy, Debug, PartialEq, Eq, Structural)]
pub enum VideoCodec {
    /// H.264, which keeps still frames nearly as they are.
    H264,
}

/// The codec of the sound of the finished video.
#[derive(Clone, Copy, Debug, PartialEq, Eq, Structural)]
pub enum AudioCodec {
    /// Advanced Audio Coding.
    Aac,
}

/// What the encoder is handed, besides the place of the frames and the
/// audio track.
#[derive(Clone, Copy, Debug)]
pub struct EncoderRequest {
    /// The pattern that stands for the names of the frames.
    pub frame_pattern: &'static str,
    /// The rate at which the frames are read.
    pub input_framerate: Framerate,
    /// The framerate of the finished video.
    pub output_framerate: u32,
    /// The codec of the picture.
    pub video_codec: VideoCodec,
    /// The codec of the sound.
    pub audio_codec: AudioCodec,
    /// The pixel format of the finished video.
    pub pixel_format: PixelFormat,
    /// The video ends with the shorter of its two inputs, the frames and the
    /// audio track.
    pub stop_at_shortest: bool,
}

/// Makes the request to the encoder for a planned video.
pub fn encoder_request(plan: &VideoPlan) -> (request: EncoderRequest)
    ensures
        request.frame_pattern@ == FRAME_PATTERN@,
        request.input_framerate == plan.input_framerate,
        request.output_framerate == plan.output_framerate,
        request.video_codec == VideoCodec::H264,
        request.audio_codec == AudioCodec::Aac,
        request.pixel_format == PixelFormat::Yuv420p,
        request.stop_at_shortest,
{
    EncoderRequest {
        frame_pattern: FRAME_PATTERN,
        input_framerate: plan.input_framerate,
        output_framerate: plan.output_framerate,
        video_codec: VideoCodec::H264,
        audio_codec: AudioCodec::Aac,
        pixel_format: PixelFormat::Yuv420p,
        stop_at_shortest: true,
    }
}

/// How far a run has come.
#[derive(Clone, Copy, Debug, PartialEq, Eq, Structural)]
pub enum Stage {
    /// The inputs are being looked at and the video is being planned.
    Planning,
    /// The frames of the plan are being made, `frames` of them.
    Compositing { frames: usize },
    /// The encoder is running.
    Encoding,
    /// The stored frames are being removed.
    CleaningUp,
    /// The video is made.
    Finished,
    /// The run has ended without a video.
    Aborted,
}

/// What has happened outside.
#[derive(Clone, Copy, Debug, PartialEq, Eq, Structural)]
pub enum Event {
    /// The video is planned, with `frames` frames.
    Planned { frames: usize },
    /// No video can be planned: an input is missing or at fault, or the
    /// probe failed.
    Refused,
    /// The jobs have ended, in the ways that `stats` counts.
    FramesResolved { stats: PipelineStats },
    /// The encoder has ended, with success or not.
    EncoderExited { success: bool },
    /// The stored frames have been removed, or could not be.
    CleanupDone { removed: bool },
}

/// What is to be done outside next.
#[derive(Clone, Copy, Debug, PartialEq, Eq, Structural)]
pub enum Action {
    /// Make the frames of the plan, each job on its own.
    CompositeFrames,
    /// Run the encoder on the stored frames.
    InvokeEncoder,
    /// Remove the stored frames.
    RemoveFrames,
    /// Report the video and the counts.
    ReportSuccess,
    /// Report the failure and end with an error.
    ReportFailure,
    /// Nothing: the run has ended before.
    Nothing,
}

/// The stage that a run at `stage` comes to by `event`, and what is to be
/// done then. An event that the stage does not wait for aborts the run; so
/// do jobs that have not all ended when the frames are reported. A run that
/// has ended stays as it is.
pub open spec fn step(stage: Stage, event: Event) -> (Stage, Action) {
    match (stage, event) {
        (Stage::Finished, _) => (Stage::Finished, Action::Nothing),
        (Stage::Aborted, _) => (Stage::Aborted, Action::Nothing),
        (Stage::Planning, Event::Planned { frames }) => (
            Stage::Compositing { frames },
            Action::CompositeFrames,
        ),
        (Stage::Compositing { frames }, Event::FramesResolved { stats }) => if stats.spec_total()
            == frames {
            (Stage::Encoding, Action::InvokeEncoder)
        } else {
            (Stage::Aborted, Action::ReportFailure)
        },
        (Stage::Encoding, Event::EncoderExited { success }) => if success {
            (Stage::CleaningUp, Action::RemoveFrames)
        } else {
            (Stage::Aborted, Action::ReportFailure)
        },
        (Stage::CleaningUp, Event::CleanupDone { removed }) => (
            Stage::Finished,
            Action::ReportSuccess,
        ),
        _ => (Stage::Aborted, Action::ReportFailure),
    }
}

/// Takes a run one step on: from the stage it is at and what has happened
/// outside to the stage it comes to and what is to be done next.
pub fn next_step(stage: Stage, event: Event) -> (r: (Stage, Action))
    ensures
        r == step(stage, event),
{
    match (stage, event) {
        (Stage::Finished, _) => (Stage::Finished, Action::Nothing),
        (Stage::Aborted, _) => (Stage::Aborted, Action::Nothing),
        (Stage::Planning, Event::Planned { frames }) => (
            Stage::Compositing { frames },
            Action::CompositeFrames,
        ),
        (Stage::Compositing { frames }, Event::FramesResolved { stats }) => {
            if stats.total() == Some(frames) {
                (Stage::Encoding, Action::InvokeEncoder)
            } else {
                (Stage::Aborted, Action::ReportFailure)
            }
        },
        (Stage::Encoding, Event::EncoderExited { success }) => {
            if success {
                (Stage::CleaningUp, Action::RemoveFrames)
            } else {
                (Stage::Aborted, Action::ReportFailure)
            }
        },
        (Stage::CleaningUp, Event::CleanupDone { removed: _ }) => (
            Stage::Finished,
            Action::ReportSuccess,
        ),
        _ => (Stage::Aborted, Action::ReportFailure),
    }
}

/// The encoder is run only when every job of the plan has ended, and then
/// whatever the jobs ended in: frames that were skipped or could not be
/// stored do not keep the run from going on.
pub proof fn lemma_encoder_runs_after_all_jobs(stage: Stage, event: Event)
    ensures
        step(stage, event).1 == Action::InvokeEncoder <==> {
            &&& stage matches Stage::Compositing { frames }
            &&& event matches Event::FramesResolved { stats }
            &&& stats.spec_total() == frames
        },
{
}

/// Nothing but a refusal at the start, the failure of the encoder and an
/// event out of turn ends a run without a video; that the stored frames
/// could not be removed does not.
pub proof fn lemma_what_aborts_a_run(stage: Stage, event: Event)
    requires
        stage != Stage::Aborted,
    ensures
        step(stage, event).0 == Stage::Aborted ==> step(stage, event).1 == Action::ReportFailure,
        stage == Stage::CleaningUp && event is CleanupDone ==> step(stage, event) == (
            Stage::Finished,
            Action::ReportSuccess,
        ),
        stage == Stage::Encoding && event == (Event::EncoderExited { success: false }) ==> step(
            stage,
            event,
        ).0 == Stage::Aborted,
        stage == Stage::Planning && event == Event::Refused ==> step(stage, event).0
            == Stage::Aborted,
{
}

/// What is done, step by step, in a run that is at `stage` when `events`
/// happen one after the other.
pub open spec fn actions_taken(stage: Stage, events: Seq<Event>) -> Seq<Action>
    decreases events.len(),
{
    if events.len() == 0 {
        Seq::empty()
    } else {
        seq![step(stage, events[0]).1] + actions_taken(
            step(stage, events[0]).0,
            events.drop_first(),
        )
    }
}

/// The number of times the encoder is run among `actions`.
pub open spec fn encoder_runs(actions: Seq<Action>) -> nat
    decreases actions.len(),
{
    if actions.len() == 0 {
        0
    } else {
        encoder_runs(actions.drop_first()) + if actions[0] == Action::InvokeEncoder {
            1nat
        } else {
            0nat
        }
    }
}

/// Whatever happens, and in whatever order, the encoder is run once at most;
/// and once the frames are behind the run it is not run again.
pub proof fn lemma_encoder_runs_at_most_once(stage: Stage, events: Seq<Event>)
    ensures
        encoder_runs(actions_taken(stage, events)) <= 1,
        !(stage is Planning || stage is Compositing) ==> encoder_runs(
            actions_taken(stage, events),
        ) == 0,
    decreases events.len(),
{
    if events.len() > 0 {
        let (next, action) = step(stage, events[0]);
        let rest = actions_taken(next, events.drop_first());
        lemma_encoder_runs_at_most_once(next, events.drop_first());
        assert((seq![action] + rest).drop_first() =~= rest);
    }
}

/// A run that has ended is not taken up again.
pub proof fn lemma_ended_runs_stay_ended(stage: Stage, event: Event)
    requires
        stage == Stage::Finished || stage == Stage::Aborted,
    ensures
        step(stage, event) == (stage, Action::Nothing),
{
}

} // verus!
