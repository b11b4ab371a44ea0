//! The timing model: how many frames a track needs, and how fast they are
//! fed to the encoder.
//!
//! Times are whole microseconds, so every quotient here is exact.

use crate::error::ConfigurationError;
use vstd::arithmetic::div_mod::{lemma_fundamental_div_mod, lemma_fundamental_div_mod_converse};
use vstd::prelude::*;

verus! {

/// The number of microseconds in a second.
pub const MICROS_PER_SECOND: u64 = 1_000_000;

/// What the timing of a video is made from.
#[derive(Clone, Copy, Debug, PartialEq, Eq, Structural)]
pub struct TimingParameters {
    /// The length of the audio track.
    pub track_duration_micros: u64,
    /// How long each frame is shown. It has to be positive.
    pub per_frame_micros: u64,
    /// The framerate of the finished video, in frames per second.
    pub output_framerate: u32,
}

/// A framerate as a fraction: `frames` frames in every `micros` microseconds.
#[derive(Clone, Copy, Debug, PartialEq, Eq, Structural)]
pub struct Framerate {
    pub frames: u64,
    pub micros: u64,
}

impl Framerate {
    /// At this rate each frame is shown for exactly `per_frame_micros`.
    pub open spec fn shows_each_frame_for(self, per_frame_micros: int) -> bool {
        self.frames > 0 && self.micros == self.frames * per_frame_micros
    }

    /// The rate in frames per second, as the fraction `numerator /
    /// denominator` that encoders take.
    pub fn per_second(self) -> (fraction: (u128, u64))
        ensures
            fraction.0 == self.frames * MICROS_PER_SECOND,
            fraction.1 == self.micros,
    {
        assert(self.frames * MICROS_PER_SECOND <= 0xFFFF_FFFF_FFFF_FFFF * 1_000_000)
            by (nonlinear_arith)
            requires
                self.frames <= 0xFFFF_FFFF_FFFF_FFFF,
                MICROS_PER_SECOND == 1_000_000,
        ;
        ((self.frames as u128) * (MICROS_PER_SECOND as u128), self.micros)
    }
}

/// The number of frames that cover `duration` when each is shown for
/// `per_frame`: the quotient, rounded up.
pub open spec fn frames_needed(duration: int, per_frame: int) -> int
    recommends
        duration >= 0,
        per_frame > 0,
{
    (duration + per_frame - 1) / per_frame
}

/// `frames_needed` is the least number of frames that last as long as the
/// track: one frame fewer would end before it.
pub proof fn lemma_frames_needed_is_least_cover(duration: int, per_frame: int)
    requires
        duration >= 0,
        per_frame > 0,
    ensures
        frames_needed(duration, per_frame) * per_frame >= duration,
        (frames_needed(duration, per_frame) - 1) * per_frame < duration,
        frames_needed(duration, per_frame) >= 0,
        frames_needed(duration, per_frame) == 0 <==> duration == 0,
{
    let n = frames_needed(duration, per_frame);
    let top = duration + per_frame - 1;
    lemma_fundamental_div_mod(top, per_frame);
    vstd::arithmetic::div_mod::lemma_mod_bound(top, per_frame);
    assert(per_frame * n == n * per_frame) by (nonlinear_arith);
    assert((n - 1) * per_frame == n * per_frame - per_frame) by (nonlinear_arith);
    vstd::arithmetic::div_mod::lemma_div_pos_is_pos(top, per_frame);
    if n == 0 {
        assert(n * per_frame == 0) by (nonlinear_arith)
            requires
                n == 0,
        ;
    }
    if duration == 0 {
        vstd::arithmetic::div_mod::lemma_basic_div(top, per_frame);
    }
}

/// Computes how many frames the track needs: its length divided by the time
/// each frame is shown, rounded up. A frame time of zero and a track that
/// needs no frame are refused.
pub fn frame_count(timing: &TimingParameters) -> (r: Result<u64, ConfigurationError>)
    ensures
        timing.per_frame_micros == 0 ==> r == Err::<u64, ConfigurationError>(
            ConfigurationError::NonPositiveFrameDuration,
        ),
        timing.per_frame_micros > 0 && timing.track_duration_micros == 0 ==> r == Err::<
            u64,
            ConfigurationError,
        >(ConfigurationError::ZeroLengthTrack),
        timing.per_frame_micros > 0 && timing.track_duration_micros > 0 ==> r == Ok::<
            u64,
            ConfigurationError,
        >(
            frames_needed(
                timing.track_duration_micros as int,
                timing.per_frame_micros as int,
            ) as u64,
        ),
        r matches Ok(count) ==> {
            &&& count >= 1
            &&& count == frames_needed(
                timing.track_duration_micros as int,
                timing.per_frame_micros as int,
            )
            &&& count * timing.per_frame_micros >= timing.track_duration_micros
            &&& (count - 1) * timing.per_frame_micros < timing.track_duration_micros
        },
{
    let duration = timing.track_duration_micros;
    let per_frame = timing.per_frame_micros;
    if per_frame == 0 {
        return Err(ConfigurationError::NonPositiveFrameDuration);
    }
    if duration == 0 {
        return Err(ConfigurationError::ZeroLengthTrack);
    }
    let whole: u64 = duration / per_frame;
    let rest: u64 = duration % per_frame;
    proof {
        lemma_fundamental_div_mod(duration as int, per_frame as int);
        lemma_frames_needed_is_least_cover(duration as int, per_frame as int);
        assert(per_frame * whole == whole * per_frame) by (nonlinear_arith);
        if rest == 0 {
            assert(duration + per_frame - 1 == per_frame * whole + (per_frame - 1));
            lemma_fundamental_div_mod_converse(
                duration + per_frame - 1,
                per_frame as int,
                whole as int,
                per_frame - 1,
            );
        } else {
            assert(duration + per_frame - 1 == per_frame * (whole + 1) + (rest - 1))
                by (nonlinear_arith)
                requires
                    duration == per_frame * whole + rest,
            ;
            lemma_fundamental_div_mod_converse(
                duration + per_frame - 1,
                per_frame as int,
                whole + 1,
                rest - 1,
            );
            assert(whole + 1 <= duration) by (nonlinear_arith)
                requires
                    duration == per_frame * whole + rest,
                    per_frame >= 1,
                    rest >= 1,
                    whole >= 0,
            ;
        }
    }
    if rest == 0 {
        Ok(whole)
    } else {
        Ok(whole + 1)
    }
}

/// The rate at which the frames are fed to the encoder: one frame in every
/// `per_frame_micros`. Nothing is returned for a frame time of zero.
pub fn input_framerate(timing: &TimingParameters) -> (r: Option<Framerate>)
    ensures
        r is None <==> timing.per_frame_micros == 0,
        r matches Some(rate) ==> {
            &&& rate == (Framerate { frames: 1, micros: timing.per_frame_micros })
            &&& rate.shows_each_frame_for(timing.per_frame_micros as int)
        },
{
    if timing.per_frame_micros == 0 {
        None
    } else {
        Some(Framerate { frames: 1, micros: timing.per_frame_micros })
    }
}

} // verus!
