//! Stages that exchange blocks of any length at the engine rate.

use vstd::prelude::*;

verus! {

/// The rate of every block the engine exchanges, in hertz.
pub const ENGINE_SAMPLE_RATE: u32 = 48000;

/// Why a stage could not be built or could not process a block.
#[derive(Debug)]
pub enum StageError {
    /// The stage cannot run in the requested configuration.
    Unsupported(String),
    /// The output buffer does not have the length of the input.
    BufferLen {
        /// Length of the input.
        expected: usize,
        /// Length of the output.
        got: usize,
    },
}

/// A processor of engine-rate blocks of any length.
///
/// A stage is a deterministic machine: what it returns for a block, and the
/// state it is left in, are functions of its state and of the block.
///
/// The specification functions say what an implementation does. One that is
/// written in ordinary Rust leaves them at their defaults, which say nothing.
pub trait BlockStage: Send + Sized {
    /// What the stage remembers between blocks.
    type State;

    /// Whether the stage is intact.
    open spec fn wf(&self) -> bool {
        arbitrary()
    }

    /// What the stage remembers.
    open spec fn state(&self) -> Self::State {
        arbitrary()
    }

    /// The stage's identifier.
    open spec fn name(&self) -> Seq<char> {
        arbitrary()
    }

    /// Delay from input to output, in engine samples.
    open spec fn delay(&self) -> usize {
        arbitrary()
    }

    /// What a stage in this state answers to a block, given an output of the
    /// same length.
    open spec fn outcome(state: Self::State, input: Seq<u32>) -> Result<Seq<u32>, StageError> {
        arbitrary()
    }

    /// What the stage remembers after it processed a block without failing.
    open spec fn next(state: Self::State, input: Seq<u32>) -> Self::State {
        arbitrary()
    }

    /// What the stage remembers once it has been reset.
    open spec fn cleared(state: Self::State) -> Self::State {
        arbitrary()
    }

    /// The stage's identifier.
    fn id(&self) -> (id: String)
        requires
            self.wf(),
        ensures
            id@ == self.name(),
    ;

    /// Processes one block into a buffer of the same length; a buffer of
    /// another length is refused.
    fn process_block(&mut self, input: &[u32], output: &mut [u32]) -> (result: Result<
        (),
        StageError,
    >)
        requires
            old(self).wf(),
        ensures
            final(self).wf(),
            final(self).name() == old(self).name(),
            final(self).delay() == old(self).delay(),
            final(output)@.len() == old(output)@.len(),
            input@.len() == old(output)@.len() ==> match Self::outcome(
                old(self).state(),
                input@,
            ) {
                Ok(block) => {
                    &&& result is Ok
                    &&& final(output)@ == block
                    &&& final(self).state() == Self::next(old(self).state(), input@)
                },
                Err(error) => result == Err::<(), StageError>(error),
            },
            input@.len() != old(output)@.len() ==> {
                &&& result == Err::<(), StageError>(
                    StageError::BufferLen {
                        expected: input@.len() as usize,
                        got: old(output)@.len() as usize,
                    },
                )
                &&& final(self).state() == old(self).state()
            },
    ;

    /// Delay from input to output, in engine samples.
    fn latency_samples(&self) -> (latency: usize)
        requires
            self.wf(),
        ensures
            latency == self.delay(),
    ;

    /// Forgets everything the stage has heard.
    fn reset(&mut self)
        requires
            old(self).wf(),
        ensures
            final(self).wf(),
            final(self).name() == old(self).name(),
            final(self).delay() == old(self).delay(),
            final(self).state() == Self::cleared(old(self).state()),
    ;
}

/// A model that processes frames of one fixed length at its own rate.
///
/// The specification functions say what an implementation does. One that is
/// written in ordinary Rust leaves them at their defaults, which say nothing.
pub trait FrameProcessor: Send + Sized {
    /// The processor's identifier.
    open spec fn name(&self) -> Seq<char> {
        arbitrary()
    }

    /// Native rate in hertz.
    open spec fn rate(&self) -> u32 {
        arbitrary()
    }

    /// Samples per frame at the native rate.
    open spec fn frame(&self) -> usize {
        arbitrary()
    }

    /// Algorithmic delay in native samples.
    open spec fn delay(&self) -> usize {
        arbitrary()
    }

    /// What the processor answers to a frame, given an output of one frame.
    open spec fn outcome(&self, input: Seq<u32>) -> Result<Seq<u32>, StageError> {
        arbitrary()
    }

    /// The processor after it processed a frame without failing.
    open spec fn after(&self, input: Seq<u32>) -> Self {
        arbitrary()
    }

    /// The processor after a reset.
    open spec fn cleared(&self) -> Self {
        arbitrary()
    }

    /// The processor's identifier.
    fn id(&self) -> (id: String)
        ensures
            id@ == self.name(),
    ;

    /// Native rate in hertz.
    fn sample_rate(&self) -> (rate: u32)
        ensures
            rate == self.rate(),
    ;

    /// Samples per frame at the native rate.
    fn frame_len(&self) -> (len: usize)
        ensures
            len == self.frame(),
    ;

    /// Algorithmic delay in native samples.
    fn output_delay(&self) -> (delay: usize)
        ensures
            delay == self.delay(),
    ;

    /// Processes one frame.
    fn process_frame(&mut self, input: &[u32], output: &mut [u32]) -> (result: Result<
        (),
        StageError,
    >)
        ensures
            final(output)@.len() == old(output)@.len(),
            old(output)@.len() == old(self).frame() ==> match old(self).outcome(input@) {
                Ok(frame) => {
                    &&& result is Ok
                    &&& final(output)@ == frame
                    &&& *final(self) == old(self).after(input@)
                },
                Err(error) => result == Err::<(), StageError>(error),
            },
            final(self).name() == old(self).name(),
            final(self).frame() == old(self).frame(),
            final(self).rate() == old(self).rate(),
    ;

    /// Forgets everything the processor has heard.
    fn reset(&mut self)
        ensures
            *final(self) == old(self).cleared(),
            final(self).name() == old(self).name(),
            final(self).frame() == old(self).frame(),
            final(self).rate() == old(self).rate(),
    ;
}

} // verus!
