//! The errors a run can end or continue with.

use vstd::prelude::*;

verus! {

/// A fault in what the run was given. It is found before any frame is made,
/// and ends the run.
#[derive(Clone, Copy, Debug, PartialEq, Eq, Structural)]
pub enum ConfigurationError {
    /// The audio track is not there.
    MissingAudioTrack,
    /// The image directory is not there.
    MissingImageDirectory,
    /// The time each frame is shown is not positive.
    NonPositiveFrameDuration,
    /// The track is so short that it needs no frame at all.
    ZeroLengthTrack,
    /// The track needs more frames than a list can hold on this machine.
    TooManyFrames,
    /// The image pool holds no image.
    EmptyImagePool,
}

/// Why a job brought no frame. It is recorded for the job, and the other
/// jobs go on.
#[derive(Clone, Copy, Debug, PartialEq, Eq, Structural)]
pub enum FrameError {
    /// The frame asked for has an empty side.
    EmptyFrame,
    /// The frame asked for is too large to be held in memory.
    FrameTooLarge,
    /// The job names no image.
    MissingImage,
    /// The image of the frame could not be decoded, or what was decoded
    /// cannot be scaled.
    ImageDecodeError,
}

} // verus!
