//! The processing-stage abstraction.
//!
//! Every enhancement model — noise suppression, speaker suppression, a plain
//! bypass — is a [`Stage`]. Adding a model means writing one trait
//! implementation and registering it.

use vstd::prelude::*;

use crate::signal::error::Error;
use crate::signal::ring;
use crate::signal::single;
use crate::signal::single::to_milliseconds;

verus! {

/// How a stage may be scheduled.
#[derive(Debug, Clone, Copy, PartialEq, Eq, Structural)]
pub enum StageCapability {
    /// Small blocks, causal, fit for the live path.
    Streaming,
    /// Large blocks, offline use only.
    Block,
}

impl StageCapability {
    /// Whether the stage may run on the live path.
    pub fn is_realtime(self) -> (realtime: bool)
        ensures
            realtime == (self is Streaming),
    {
        matches!(self, StageCapability::Streaming)
    }
}

/// Static description of a stage.
#[derive(Debug, Clone, Copy, PartialEq, Eq, Structural)]
pub struct StageSpec {
    /// Native sample rate in hertz.
    pub sample_rate: u32,
    /// Samples per block at the native rate.
    pub block_size: usize,
    /// Algorithmic delay in native samples.
    pub latency_samples: usize,
    /// How the stage may be scheduled.
    pub capability: StageCapability,
}

impl StageSpec {
    /// A streaming stage without algorithmic delay.
    pub fn streaming(sample_rate: u32, block_size: usize) -> (spec: Self)
        ensures
            spec == (StageSpec {
                sample_rate,
                block_size,
                latency_samples: 0,
                capability: StageCapability::Streaming,
            }),
    {
        StageSpec {
            sample_rate,
            block_size,
            latency_samples: 0,
            capability: StageCapability::Streaming,
        }
    }

    /// The same stage with a given algorithmic delay.
    pub fn with_latency(self, latency_samples: usize) -> (spec: Self)
        ensures
            spec == (StageSpec { latency_samples, ..self }),
    {
        StageSpec { latency_samples, ..self }
    }

    /// The same stage with a given capability.
    pub fn with_capability(self, capability: StageCapability) -> (spec: Self)
        ensures
            spec == (StageSpec { capability, ..self }),
    {
        StageSpec { capability, ..self }
    }

    /// The stage's block size in milliseconds, as a bit pattern.
    pub fn block_duration_ms(&self) -> (bits: u32)
        ensures
            bits == single::milliseconds(self.block_size as int, self.sample_rate as int),
            self.sample_rate > 0 && self.block_size == self.sample_rate ==> bits == 0x447a_0000,
            self.sample_rate > 0 && self.block_size == 0 ==> bits == 0,
    {
        proof {
            if self.sample_rate > 0 && self.block_size > 0 {
                single::law_milliseconds_follow_the_length(
                    self.block_size as int,
                    self.sample_rate as int,
                );
            }
        }
        to_milliseconds(self.block_size, self.sample_rate)
    }

    /// The stage's algorithmic delay in milliseconds, as a bit pattern.
    pub fn latency_ms(&self) -> (bits: u32)
        ensures
            bits == single::milliseconds(self.latency_samples as int, self.sample_rate as int),
            self.sample_rate > 0 && self.latency_samples == self.sample_rate ==> bits
                == 0x447a_0000,
            self.sample_rate > 0 && self.latency_samples == 0 ==> bits == 0,
    {
        proof {
            if self.sample_rate > 0 && self.latency_samples > 0 {
                single::law_milliseconds_follow_the_length(
                    self.latency_samples as int,
                    self.sample_rate as int,
                );
            }
        }
        to_milliseconds(self.latency_samples, self.sample_rate)
    }
}

/// A block processor at its own native rate and block size.
///
/// A stage is a deterministic machine: what it returns for a block, and the
/// state it is left in, are functions of its state and of the block.
///
/// The specification functions say what an implementation does. One that is
/// written in ordinary Rust leaves them at their defaults, which say nothing.
pub trait Stage: Send + Sized {
    /// The stage's static description.
    open spec fn description(&self) -> StageSpec {
        arbitrary()
    }

    /// What the stage answers to a block, given an output buffer of the same
    /// length.
    open spec fn outcome(&self, input: Seq<u32>) -> Result<Seq<u32>, Error> {
        arbitrary()
    }

    /// The stage after it processed a block.
    open spec fn after(&self, input: Seq<u32>) -> Self {
        arbitrary()
    }

    /// The stage after a reset.
    open spec fn cleared(&self) -> Self {
        arbitrary()
    }

    /// The stage's static description.
    fn spec(&self) -> (spec: StageSpec)
        ensures
            spec == self.description(),
    ;

    /// Processes exactly one block.
    ///
    /// Returns an error if the buffer lengths do not match the block size of the
    /// stage's description, or if the underlying model fails.
    fn process(&mut self, input: &[u32], output: &mut [u32]) -> (result: Result<(), Error>)
        ensures
            final(output)@.len() == old(output)@.len(),
            final(self).description() == old(self).description(),
            input@.len() != old(self).description().block_size || old(output)@.len() != old(
                self,
            ).description().block_size ==> result is Err,
            input@.len() == old(output)@.len() ==> match old(self).outcome(input@) {
                Ok(block) => {
                    &&& result is Ok
                    &&& final(output)@ == block
                    &&& *final(self) == old(self).after(input@)
                },
                Err(error) => result == Err::<(), Error>(error),
            },
    ;

    /// Forgets everything the stage has heard.
    fn reset(&mut self)
        ensures
            *final(self) == old(self).cleared(),
            final(self).description() == old(self).description(),
    ;
}

/// Copies a block from `input` to `output`.
pub fn copy_samples(input: &[u32], output: &mut [u32])
    requires
        input@.len() == old(output)@.len(),
    ensures
        final(output)@ == input@,
{
    let mut i: usize = 0;
    while i < input.len()
        invariant
            i <= input@.len() == output@.len(),
            forall|k: int| 0 <= k < i ==> output@[k] == input@[k],
        decreases input@.len() - i,
    {
        output[i] = input[i];
        i = i + 1;
    }
    assert(output@ =~= input@);
}

/// Overwrites `output` with silence from index `from` on.
pub fn fill_silence(output: &mut [u32], from: usize)
    requires
        from <= old(output)@.len(),
    ensures
        final(output)@ == old(output)@.take(from as int) + ring::silence(
            (old(output)@.len() - from) as nat,
        ),
{
    let mut i: usize = from;
    while i < output.len()
        invariant
            from <= i <= output@.len(),
            output@.len() == old(output)@.len(),
            forall|k: int| 0 <= k < from ==> output@[k] == old(output)@[k],
            forall|k: int| from <= k < i ==> output@[k] == 0u32,
        decreases output@.len() - i,
    {
        output[i] = ring::SILENCE;
        i = i + 1;
    }
    assert(output@ =~= old(output)@.take(from as int) + ring::silence(
        (old(output)@.len() - from) as nat,
    ));
}

/// Copies its input to its output, block by block.
#[derive(Debug, Clone, Copy)]
pub struct Passthrough {
    spec: StageSpec,
}

impl Passthrough {
    /// Creates a bypass for the given rate and block size.
    pub fn new(sample_rate: u32, block_size: usize) -> (stage: Self)
        ensures
            stage.description() == (StageSpec {
                sample_rate,
                block_size,
                latency_samples: 0,
                capability: StageCapability::Streaming,
            }),
    {
        Passthrough { spec: StageSpec::streaming(sample_rate, block_size) }
    }
}

impl Stage for Passthrough {
    closed spec fn description(&self) -> StageSpec {
        self.spec
    }

    open spec fn outcome(&self, input: Seq<u32>) -> Result<Seq<u32>, Error> {
        if input.len() == self.description().block_size {
            Ok(input)
        } else {
            Err(
                Error::BufferLength {
                    expected: self.description().block_size,
                    actual: input.len() as usize,
                },
            )
        }
    }

    open spec fn after(&self, input: Seq<u32>) -> Self {
        *self
    }

    open spec fn cleared(&self) -> Self {
        *self
    }

    fn spec(&self) -> (spec: StageSpec) {
        self.spec
    }

    fn process(&mut self, input: &[u32], output: &mut [u32]) -> (result: Result<(), Error>)
        ensures
            *final(self) == *old(self),
            ({
                let block = old(self).description().block_size;
                if input@.len() != block {
                    &&& result == Err::<(), Error>(
                        Error::BufferLength { expected: block, actual: input@.len() as usize },
                    )
                    &&& final(output)@ == old(output)@
                } else if old(output)@.len() != block {
                    &&& result == Err::<(), Error>(
                        Error::BufferLength {
                            expected: block,
                            actual: old(output)@.len() as usize,
                        },
                    )
                    &&& final(output)@ == old(output)@
                } else {
                    &&& result is Ok
                    &&& final(output)@ == input@
                }
            }),
    {
        let block: usize = self.spec.block_size;
        if input.len() != block {
            return Err(Error::BufferLength { expected: block, actual: input.len() });
        }
        if output.len() != block {
            return Err(Error::BufferLength { expected: block, actual: output.len() });
        }
        copy_samples(input, output);
        Ok(())
    }

    fn reset(&mut self) {
    }
}

} // verus!
