//! How a playback update moves the animation time of a cloud.
//!
//! Each frame the update either leaves the time alone, advances it by the
//! frame's scaled duration (wrapping back to the start past the stop when
//! looping), or sets it on a sine wave between start and stop.
use vstd::prelude::*;
use crate::modes::PlaybackMode;

verus! {

/// What one playback update does to a cloud's animation time.
#[derive(Clone, Copy, Debug, PartialEq, Eq, Structural)]
pub enum PlaybackStep {
    /// Leave the time as it is.
    Hold,
    /// Add the frame's duration times the time scale; when `wrap_past_stop`,
    /// a time past the stop then jumps back to the start.
    Advance { wrap_past_stop: bool },
    /// Set the time on a sine wave of the elapsed time between start and stop.
    Oscillate,
}

/// The step taken in `mode`, given whether the time scale is zero and
/// whether the time has reached the stop.
pub open spec fn step_for(mode: PlaybackMode, time_scale_is_zero: bool, reached_stop: bool) -> PlaybackStep {
    if time_scale_is_zero {
        PlaybackStep::Hold
    } else {
        match mode {
            PlaybackMode::Loop => PlaybackStep::Advance { wrap_past_stop: true },
            PlaybackMode::Once => if reached_stop {
                PlaybackStep::Hold
            } else {
                PlaybackStep::Advance { wrap_past_stop: false }
            },
            PlaybackMode::Sin => PlaybackStep::Oscillate,
            PlaybackMode::Still => PlaybackStep::Hold,
        }
    }
}

impl PlaybackMode {
    /// The step one playback update takes. `time_scale_is_zero` tells whether
    /// the time scale is zero; `reached_stop` whether the time is at or past
    /// the stop.
    pub fn step(self, time_scale_is_zero: bool, reached_stop: bool) -> (s: PlaybackStep)
        ensures
            s == step_for(self, time_scale_is_zero, reached_stop),
    {
        if time_scale_is_zero {
            return PlaybackStep::Hold;
        }
        match self {
            PlaybackMode::Loop => PlaybackStep::Advance { wrap_past_stop: true },
            PlaybackMode::Once => if reached_stop {
                PlaybackStep::Hold
            } else {
                PlaybackStep::Advance { wrap_past_stop: false }
            },
            PlaybackMode::Sin => PlaybackStep::Oscillate,
            PlaybackMode::Still => PlaybackStep::Hold,
        }
    }
}

/// A still cloud's time never moves.
pub proof fn lemma_still_never_moves(time_scale_is_zero: bool, reached_stop: bool)
    ensures
        step_for(PlaybackMode::Still, time_scale_is_zero, reached_stop) == PlaybackStep::Hold,
{
}

/// With a zero time scale no mode moves the time.
pub proof fn lemma_zero_scale_holds(mode: PlaybackMode, reached_stop: bool)
    ensures
        step_for(mode, true, reached_stop) == PlaybackStep::Hold,
{
}

/// Playing once, the time stops moving once it has reached the stop.
pub proof fn lemma_once_halts_at_stop(time_scale_is_zero: bool)
    ensures
        step_for(PlaybackMode::Once, time_scale_is_zero, true) == PlaybackStep::Hold,
{
}

/// Only looping wraps the time back to the start.
pub proof fn lemma_only_loop_wraps(mode: PlaybackMode, time_scale_is_zero: bool, reached_stop: bool)
    ensures
        step_for(mode, time_scale_is_zero, reached_stop) == (PlaybackStep::Advance {
            wrap_past_stop: true,
        }) ==> mode == PlaybackMode::Loop,
{
}

/// The sine mode never advances by frame duration, and its step does not
/// depend on where the time stands.
pub proof fn lemma_sine_ignores_stop(time_scale_is_zero: bool)
    ensures
        step_for(PlaybackMode::Sin, time_scale_is_zero, true) == step_for(
            PlaybackMode::Sin,
            time_scale_is_zero,
            false,
        ),
{
}

} // verus!
