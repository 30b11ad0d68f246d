//! Native-rate capture for microphones that cannot run at the engine rate.
//!
//! Any native rate within [`MIN_NATIVE_RATE`] to [`MAX_NATIVE_RATE`] is
//! converted by the exact reduced ratio through one [`PolyphaseResampler`].

use vstd::prelude::*;
use vstd::string::*;

use crate::signal::block::{StageError, ENGINE_SAMPLE_RATE};
use crate::signal::resample;
use crate::signal::resample::{PolyphasePlan, PolyphaseResampler, Position};
use crate::signal::ring;
use crate::text;
use crate::text::push_decimal;

verus! {

/// Lowest native rate that is converted, in hertz.
pub const MIN_NATIVE_RATE: u32 = 8000;

/// Highest native rate that is converted, in hertz.
pub const MAX_NATIVE_RATE: u32 = 192000;

/// How many samples may be buffered at once: more than six weeks' worth.
pub const MAX_BUFFERED: u64 = 0x100_0000_0000;

/// The message for a rate that is not converted.
pub open spec fn range_message(native_rate: u32) -> Seq<char> {
    "native rate "@ + text::decimal(native_rate as nat)
        + " Hz is outside the 8000\u{2013}192000 Hz range the capture resampler converts to the 48000 Hz engine rate"@
}

/// A native sample count at the engine rate, rounded to nearest.
pub open spec fn engine_count(native_samples: int, up: int, down: int) -> int {
    (native_samples * up + down / 2) / down
}

/// Converts captured samples to the engine rate.
#[derive(Debug)]
pub struct InputResampler {
    resampler: PolyphaseResampler,
    native_rate: u32,
}

impl InputResampler {
    /// The native rate.
    pub closed spec fn rate(&self) -> u32 {
        self.native_rate
    }

    /// The plan of the conversion.
    pub closed spec fn design(&self) -> PolyphasePlan {
        self.resampler.design()
    }

    /// Whether the conversion is that between the native and the engine rate.
    pub closed spec fn wf(&self) -> bool {
        &&& MIN_NATIVE_RATE <= self.native_rate <= MAX_NATIVE_RATE
        &&& self.resampler.wf()
        &&& self.resampler.design().between(self.native_rate, ENGINE_SAMPLE_RATE)
    }

    /// The buffered samples, oldest first.
    pub closed spec fn buffered(&self) -> Seq<u32> {
        self.resampler.buffered()
    }

    /// The position of the next output, in filter phases from the oldest
    /// buffered sample.
    pub closed spec fn position(&self) -> nat {
        self.resampler.position()
    }

    /// Whether no output is due.
    pub closed spec fn settled(&self) -> bool {
        self.resampler.settled()
    }

    /// Creates a resampler for a native rate.
    pub fn new(native_rate: u32) -> (result: Result<Self, StageError>)
        ensures
            match result {
                Ok(resampler) => {
                    &&& MIN_NATIVE_RATE <= native_rate <= MAX_NATIVE_RATE
                    &&& resampler.wf()
                    &&& resampler.rate() == native_rate
                    &&& resampler.design().between(native_rate, ENGINE_SAMPLE_RATE)
                    &&& resampler.buffered() == ring::silence(
                        (resampler.design().phase_len - 1) as nat,
                    )
                    &&& resampler.position() == (resampler.design().phase_len - 1)
                        * resampler.design().num_phases
                    &&& resampler.settled()
                },
                Err(StageError::Unsupported(reason)) => {
                    &&& !(MIN_NATIVE_RATE <= native_rate <= MAX_NATIVE_RATE)
                    &&& reason@ == range_message(native_rate)
                },
                Err(_) => false,
            },
    {
        if native_rate < MIN_NATIVE_RATE || native_rate > MAX_NATIVE_RATE {
            let mut reason = "native rate ".to_owned();
            push_decimal(&mut reason, native_rate as u64);
            reason.append(
                " Hz is outside the 8000\u{2013}192000 Hz range the capture resampler converts to the 48000 Hz engine rate",
            );
            return Err(StageError::Unsupported(reason));
        }
        Ok(
            InputResampler {
                resampler: PolyphaseResampler::new(native_rate, ENGINE_SAMPLE_RATE),
                native_rate,
            },
        )
    }

    /// The native rate in hertz.
    pub fn native_rate(&self) -> (rate: u32)
        ensures
            rate == self.rate(),
    {
        self.native_rate
    }

    /// The conversion ratio, engine samples to native samples.
    pub fn ratio(&self) -> (ratio: (u64, u64))
        ensures
            ratio == (self.design().up, self.design().down),
    {
        self.resampler.ratio()
    }

    /// A native sample count at the engine rate, rounded to nearest.
    pub fn to_engine_samples(&self, native_samples: u64) -> (samples: u64)
        requires
            self.wf(),
            native_samples * self.design().up + self.design().down / 2 <= u64::MAX,
        ensures
            samples == engine_count(
                native_samples as int,
                self.design().up as int,
                self.design().down as int,
            ),
    {
        let (up, down) = self.resampler.ratio();
        proof {
            resample::lemma_ratio_is_positive(
                self.resampler.design(),
                self.native_rate,
                ENGINE_SAMPLE_RATE,
            );
            assert(native_samples * up >= 0) by (nonlinear_arith);
        }
        (native_samples * up + down / 2) / down
    }

    /// Delay in engine samples.
    pub fn delay_output_samples(&self) -> (delay: u64)
        ensures
            delay == self.design().delay_output,
    {
        self.resampler.delay_output_samples()
    }

    /// The buffered native samples, oldest first.
    pub fn samples(&self) -> (samples: &[u32])
        ensures
            samples@ == self.buffered(),
    {
        self.resampler.samples()
    }

    /// Feeds native samples and returns where each engine sample lies.
    pub fn process(&mut self, input: &[u32]) -> (positions: Vec<Position>)
        requires
            old(self).wf(),
            old(self).buffered().len() + input@.len() <= usize::MAX,
            old(self).buffered().len() + input@.len() <= MAX_BUFFERED,
        ensures
            final(self).wf(),
            final(self).settled(),
            final(self).rate() == old(self).rate(),
            final(self).design() == old(self).design(),
            final(self).buffered() == old(self).buffered() + input@,
            final(self).position() == old(self).position() + positions@.len()
                * old(self).design().step,
            positions@.len() == resample::output_count(
                old(self).position() as int,
                final(self).buffered().len() as int,
                old(self).design().num_phases as int,
                old(self).design().step as int,
            ),
            forall|k: int|
                0 <= k < positions@.len() ==> {
                    let at = old(self).position() + k * old(self).design().step;
                    &&& #[trigger] positions@[k].base == at / (old(self).design().num_phases as int)
                    &&& positions@[k].phase == at % (old(self).design().num_phases as int)
                    &&& old(self).design().phase_len - 1 <= positions@[k].base
                        < final(self).buffered().len() - 1
                    &&& positions@[k].base * old(self).design().num_phases + positions@[k].phase
                        == at
                    &&& positions@[k].phase < old(self).design().num_phases
                },
    {
        proof {
            let plan = self.resampler.design();
            resample::lemma_plan_sizes(plan, self.native_rate, ENGINE_SAMPLE_RATE);
            let len = self.buffered().len() + input@.len();
            assert(len * plan.num_phases + plan.step <= u64::MAX) by (nonlinear_arith)
                requires
                    0 <= len <= 0x100_0000_0000,
                    0 <= plan.num_phases <= 48_127,
                    plan.step <= 128 * 192_000,
            ;
        }
        self.resampler.process(input)
    }

    /// Drops the samples that no later output needs.
    pub fn retire(&mut self) -> (dropped: usize)
        requires
            old(self).wf(),
        ensures
            final(self).wf(),
            final(self).rate() == old(self).rate(),
            final(self).design() == old(self).design(),
            dropped == ({
                let base = old(self).position() as int / (old(self).design().num_phases as int);
                let spare = base - (old(self).design().phase_len - 1);
                if spare <= 0 {
                    0
                } else if spare < old(self).buffered().len() {
                    spare
                } else {
                    old(self).buffered().len() as int
                }
            }),
            final(self).buffered() == old(self).buffered().skip(dropped as int),
            final(self).position() == old(self).position() - dropped
                * old(self).design().num_phases,
            old(self).settled() ==> {
                &&& final(self).settled()
                &&& final(self).buffered().len() <= old(self).design().phase_len <= 42
                    * MAX_NATIVE_RATE + 44
            },
    {
        proof {
            resample::lemma_plan_sizes(
                self.resampler.design(),
                self.native_rate,
                ENGINE_SAMPLE_RATE,
            );
        }
        self.resampler.retire()
    }

    /// Restarts the stream with a silent look-behind.
    pub fn reset(&mut self)
        requires
            old(self).wf(),
        ensures
            final(self).wf(),
            final(self).rate() == old(self).rate(),
            final(self).design() == old(self).design(),
            final(self).buffered() == ring::silence((old(self).design().phase_len - 1) as nat),
            final(self).position() == (old(self).design().phase_len - 1)
                * old(self).design().num_phases,
            final(self).settled(),
    {
        self.resampler.reset();
    }
}

/// The count is the nearest one: it misses `native_samples * up / down` by at
/// most half a sample.
pub proof fn law_engine_count_is_nearest(native_samples: int, up: int, down: int)
    requires
        native_samples >= 0,
        up > 0,
        down > 0,
    ensures
        2 * (engine_count(native_samples, up, down) * down - native_samples * up) <= down,
        2 * (native_samples * up - engine_count(native_samples, up, down) * down) <= down,
{
    let sum = native_samples * up + down / 2;
    vstd::arithmetic::div_mod::lemma_fundamental_div_mod(sum, down);
    vstd::arithmetic::div_mod::lemma_mod_bound(sum, down);
    assert(down * (sum / down) == (sum / down) * down) by (nonlinear_arith);
}

} // verus!
