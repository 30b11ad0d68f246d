//! When the preview's echo canceller runs.
//!
//! The canceller subtracts the preview from the microphone before the model
//! sees it. It works only while the preview plays, and forgets what it has
//! learned whenever the echo path may have changed. This module decides; the
//! cancelling itself is floating-point work done elsewhere.

use vstd::prelude::*;

use super::monitor::MonitorState;
use super::worker::WORKER_BLOCK_SAMPLES;

verus! {

/// What to do with a microphone block.
#[derive(Debug, Clone, Copy, PartialEq, Eq, Structural)]
pub struct CaptureStep {
    /// Forget the learned filter and delay first.
    pub reset: bool,
    /// Run the block through the canceller.
    pub cancel: bool,
}

/// The step for a microphone block of `len` samples, given what the canceller
/// is engaged under.
pub open spec fn capture_step(
    engaged: Option<u64>,
    state: MonitorState,
    generation: u64,
    len: int,
) -> CaptureStep {
    CaptureStep {
        reset: state == MonitorState::Playing && engaged != Some(generation),
        cancel: state == MonitorState::Playing && len == WORKER_BLOCK_SAMPLES,
    }
}

/// Decides when the preview's echo canceller works.
///
/// A monitor session has a generation number, which every enabling raises. The
/// canceller is engaged under one generation, or bypassed.
#[derive(Debug)]
pub struct SelfMonitorAec {
    engaged: Option<u64>,
}

impl SelfMonitorAec {
    /// The generation the canceller is engaged under, if it is.
    pub closed spec fn engaged(&self) -> Option<u64> {
        self.engaged
    }

    /// Starts out bypassed.
    pub fn new() -> (canceller: Self)
        ensures
            canceller.engaged() is None,
    {
        SelfMonitorAec { engaged: None }
    }

    /// Decides what to do with one microphone block. While the preview does
    /// not play, the canceller is bypassed completely; the first block after
    /// that, or after a new generation, resets it. A block that is not 10 ms
    /// long passes untouched.
    pub fn process_capture(&mut self, state: MonitorState, generation: u64, len: usize) -> (step:
        CaptureStep)
        ensures
            step == capture_step(old(self).engaged(), state, generation, len as int),
            final(self).engaged() == (if state == MonitorState::Playing {
                Some(generation)
            } else {
                None
            }),
    {
        if state != MonitorState::Playing {
            self.engaged = None;
            return CaptureStep { reset: false, cancel: false };
        }
        let reset: bool = match self.engaged {
            Some(current) => current != generation,
            None => true,
        };
        self.engaged = Some(generation);
        CaptureStep { reset, cancel: len == WORKER_BLOCK_SAMPLES }
    }

    /// Whether the block that was just teed into the monitor ring is fed to
    /// the canceller as its reference: only what the monitor really plays is.
    pub fn feed_render(&self, len: usize, teed: bool) -> (feed: bool)
        ensures
            feed == (teed && self.engaged() is Some && len == WORKER_BLOCK_SAMPLES),
    {
        teed && self.engaged.is_some() && len == WORKER_BLOCK_SAMPLES
    }
}

/// A canceller that is told to cancel has been reset since the echo path last
/// changed: it is reset with this block, or it was engaged under the same
/// generation before. It cancels every whole block while the preview plays, and
/// nothing else.
pub proof fn law_cancels_only_what_it_learned(
    engaged: Option<u64>,
    state: MonitorState,
    generation: u64,
    len: int,
)
    ensures
        ({
            let step = capture_step(engaged, state, generation, len);
            &&& step.cancel ==> state == MonitorState::Playing
            &&& step.cancel ==> step.reset || engaged == Some(generation)
            &&& engaged == Some(generation) ==> !step.reset
            &&& state == MonitorState::Playing && engaged != Some(generation) ==> step.reset
            &&& state == MonitorState::Playing && len == WORKER_BLOCK_SAMPLES ==> step.cancel
            &&& state != MonitorState::Playing ==> !step.cancel && !step.reset
            &&& len != WORKER_BLOCK_SAMPLES ==> !step.cancel
        }),
{
}

} // verus!
