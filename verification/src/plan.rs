//! The plan of a video: everything that is settled before the first frame is
//! made.

use crate::error::ConfigurationError;
use crate::reuse_queue::{CircularImageQueue, QueueModel};
use crate::schedule::{build_frame_jobs, is_schedule, no_repeat_within_pass, FrameJob, Layout};
use crate::timing::{frame_count, frames_needed, input_framerate, Framerate, TimingParameters};
use vstd::prelude::*;

verus! {

/// What a video is made to: the size of its frames, how many there are, how
/// fast they follow each other, and what goes into each.
pub struct VideoPlan {
    pub width: u32,
    pub height: u32,
    pub frame_count: usize,
    pub images_per_frame: usize,
    pub input_framerate: Framerate,
    pub output_framerate: u32,
    pub jobs: Vec<FrameJob>,
}

/// Looks at what was found of the inputs before anything else is done: the
/// audio track has to be there, and so has the image directory. A missing
/// track is reported first.
pub fn check_inputs(
    track_exists: bool,
    directory_exists: bool,
) -> (r: Result<(), ConfigurationError>)
    ensures
        r is Ok <==> track_exists && directory_exists,
        !track_exists ==> r == Err::<(), ConfigurationError>(
            ConfigurationError::MissingAudioTrack,
        ),
        track_exists && !directory_exists ==> r == Err::<(), ConfigurationError>(
            ConfigurationError::MissingImageDirectory,
        ),
{
    if !track_exists {
        Err(ConfigurationError::MissingAudioTrack)
    } else if !directory_exists {
        Err(ConfigurationError::MissingImageDirectory)
    } else {
        Ok(())
    }
}

/// The fault for which no video can be planned from a pool of `pool_len`
/// images with `timing`, if there is one. An empty pool is found first, then
/// a frame time of zero, then a track that needs no frame, then one that
/// needs more frames than a list holds.
pub open spec fn plan_error(pool_len: usize, timing: TimingParameters) -> Option<
    ConfigurationError,
> {
    if pool_len == 0 {
        Some(ConfigurationError::EmptyImagePool)
    } else if timing.per_frame_micros == 0 {
        Some(ConfigurationError::NonPositiveFrameDuration)
    } else if timing.track_duration_micros == 0 {
        Some(ConfigurationError::ZeroLengthTrack)
    } else if frames_needed(timing.track_duration_micros as int, timing.per_frame_micros as int)
        > usize::MAX {
        Some(ConfigurationError::TooManyFrames)
    } else {
        None
    }
}

/// `plan` is the plan of a video of `layout` from a pool of `pool_len`
/// images, with `timing`, whose images are drawn with `seed`.
pub open spec fn is_plan(
    plan: VideoPlan,
    pool_len: usize,
    timing: TimingParameters,
    layout: Layout,
    seed: u64,
) -> bool {
    let start = QueueModel::fresh(pool_len as nat, seed);
    &&& (plan.width, plan.height) == layout.resolution()
    &&& plan.frame_count == frames_needed(
        timing.track_duration_micros as int,
        timing.per_frame_micros as int,
    )
    &&& plan.frame_count >= 1
    &&& plan.images_per_frame == layout.images_per_frame()
    &&& plan.input_framerate == (Framerate { frames: 1, micros: timing.per_frame_micros })
    &&& plan.output_framerate == timing.output_framerate
    &&& is_schedule(plan.jobs@, start, layout, plan.frame_count as nat)
    &&& forall|frame: int|
        0 <= frame < plan.frame_count ==> (#[trigger] plan.jobs@[frame]).wf(pool_len as nat)
    &&& no_repeat_within_pass(plan.jobs@, start, layout, plan.frame_count as nat)
}

/// Plans a video: the number of frames follows from the timing, the size of
/// the frames and the number of images in each from the layout, and the
/// images of each frame are drawn, in frame order, from a reuse queue over
/// the pool that is seeded with `seed`.
pub fn create_video_plan(
    pool_len: usize,
    timing: &TimingParameters,
    layout: Layout,
    seed: u64,
) -> (r: Result<VideoPlan, ConfigurationError>)
    ensures
        r matches Err(e) ==> plan_error(pool_len, *timing) == Some(e),
        r matches Ok(plan) ==> plan_error(pool_len, *timing) is None && is_plan(
            plan,
            pool_len,
            *timing,
            layout,
            seed,
        ),
{
    let mut queue = match CircularImageQueue::new(pool_len, seed) {
        Err(e) => {
            return Err(e);
        },
        Ok(queue) => queue,
    };
    let frames: u64 = match frame_count(timing) {
        Err(e) => {
            return Err(e);
        },
        Ok(frames) => frames,
    };
    if frames > usize::MAX as u64 {
        return Err(ConfigurationError::TooManyFrames);
    }
    let rate = match input_framerate(timing) {
        None => {
            return Err(ConfigurationError::NonPositiveFrameDuration);
        },
        Some(rate) => rate,
    };
    let (width, height) = layout.resolution();
    let jobs = build_frame_jobs(&mut queue, frames as usize, layout);
    Ok(
        VideoPlan {
            width,
            height,
            frame_count: frames as usize,
            images_per_frame: layout.images_per_frame(),
            input_framerate: rate,
            output_framerate: timing.output_framerate,
            jobs,
        },
    )
}

} // verus!
