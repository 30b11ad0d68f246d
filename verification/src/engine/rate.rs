//! Streaming sample-rate and frame-size adaptation.

use std::collections::VecDeque;

use vstd::prelude::*;

use crate::engine::offline;
use crate::engine::offline::invalid_configuration;
use crate::engine::stage;
use crate::engine::stage::{
    validate_frame_lengths,
    AudioStage,
    StageDescriptor,
    StageError,
    StageFault,
    PIPELINE_FRAME_SAMPLES,
    PIPELINE_SAMPLE_RATE,
};
use crate::signal::framed::{push_all, take_front};
use crate::signal::resample;
use crate::signal::ring;
use crate::signal::runner::Direct;
use crate::signal::stage::fill_silence;

verus! {

/// A streaming converter with a fixed block size on both sides.
///
/// Like a stage, a converter is a deterministic machine.
///
/// The specification functions say what an implementation does. One that is
/// written in ordinary Rust leaves them at their defaults, which say nothing.
pub trait FixedResampler: Send + Sized {
    /// Samples it takes per call.
    open spec fn takes(&self) -> usize {
        arbitrary()
    }

    /// Samples it gives per call.
    open spec fn gives(&self) -> usize {
        arbitrary()
    }

    /// Delay in output samples.
    open spec fn lag(&self) -> usize {
        arbitrary()
    }

    /// What it answers to a block.
    open spec fn outcome(&self, input: Seq<u32>) -> Result<Seq<u32>, StageFault> {
        arbitrary()
    }

    /// The converter after it converted a block without failing.
    open spec fn after(&self, input: Seq<u32>) -> Self {
        arbitrary()
    }

    /// The converter after a reset.
    open spec fn cleared(&self) -> Self {
        arbitrary()
    }

    /// Samples it takes per call.
    fn input_frames_next(&self) -> (count: usize)
        ensures
            count == self.takes(),
    ;

    /// Samples it gives per call.
    fn output_frames_next(&self) -> (count: usize)
        ensures
            count == self.gives(),
    ;

    /// Delay in output samples.
    fn output_delay(&self) -> (delay: usize)
        ensures
            delay == self.lag(),
    ;

    /// Converts one block.
    fn process(&mut self, input: &[u32]) -> (result: Result<Vec<u32>, StageError>)
        ensures
            match old(self).outcome(input@) {
                Ok(block) => {
                    &&& result matches Ok(output) && output@ == block
                    &&& *final(self) == old(self).after(input@)
                },
                Err(fault) => stage::failed(result, fault),
            },
    ;

    /// Restarts the stream.
    fn reset(&mut self)
        ensures
            *final(self) == old(self).cleared(),
    ;
}

impl FixedResampler for Direct {
    open spec fn takes(&self) -> usize {
        PIPELINE_FRAME_SAMPLES
    }

    open spec fn gives(&self) -> usize {
        PIPELINE_FRAME_SAMPLES
    }

    open spec fn lag(&self) -> usize {
        0
    }

    open spec fn outcome(&self, input: Seq<u32>) -> Result<Seq<u32>, StageFault> {
        Ok(input)
    }

    open spec fn after(&self, input: Seq<u32>) -> Self {
        *self
    }

    open spec fn cleared(&self) -> Self {
        *self
    }

    fn input_frames_next(&self) -> (count: usize) {
        PIPELINE_FRAME_SAMPLES
    }

    fn output_frames_next(&self) -> (count: usize) {
        PIPELINE_FRAME_SAMPLES
    }

    fn output_delay(&self) -> (delay: usize) {
        0
    }

    fn process(&mut self, input: &[u32]) -> (result: Result<Vec<u32>, StageError>) {
        let mut output: Vec<u32> = Vec::new();
        output.extend_from_slice(input);
        assert(output@ =~= input@);
        Ok(output)
    }

    fn reset(&mut self) {
    }
}

/// A sample count of one rate at another, rounded up.
pub open spec fn scaled(samples: int, from_rate: int, to_rate: int) -> int {
    resample::ceiling(samples * to_rate, from_rate)
}

/// The fault of a count that is too large to convert.
pub open spec fn scale_fault() -> StageFault {
    stage::misconfigured("rate-adapter"@, "sample-rate conversion overflow"@)
}

/// `a / b`, rounded up.
fn div_ceil(a: usize, b: usize) -> (quotient: usize)
    requires
        b > 0,
    ensures
        quotient == resample::ceiling(a as int, b as int),
{
    let whole: usize = a / b;
    let rest: usize = a % b;
    proof {
        let x = a as int;
        let y = b as int;
        vstd::arithmetic::div_mod::lemma_fundamental_div_mod(x, y);
        vstd::arithmetic::div_mod::lemma_fundamental_div_mod(x + y - 1, y);
        vstd::arithmetic::div_mod::lemma_mod_bound(x + y - 1, y);
        let c = resample::ceiling(x, y);
        let r = (x + y - 1) % y;
        if rest == 0 {
            assert(c == whole) by (nonlinear_arith)
                requires
                    x == y * whole,
                    x + y - 1 == y * c + r,
                    0 <= r < y,
                    y > 0,
            ;
        } else {
            assert(c == whole + 1) by (nonlinear_arith)
                requires
                    x == y * whole + rest,
                    0 < rest < y,
                    x + y - 1 == y * c + r,
                    0 <= r < y,
                    y > 0,
            ;
            assert(whole < usize::MAX) by (nonlinear_arith)
                requires
                    x == y * whole + rest,
                    0 < rest,
                    y > 0,
                    x <= usize::MAX,
            ;
        }
    }
    if rest == 0 {
        whole
    } else {
        whole + 1
    }
}

/// A sample count of one rate at another, rounded up.
pub fn scale_samples(samples: usize, from_rate: u32, to_rate: u32) -> (result: Result<
    usize,
    StageError,
>)
    requires
        from_rate > 0,
    ensures
        if samples * to_rate > usize::MAX {
            stage::failed(result, scale_fault())
        } else {
            result == Ok::<usize, StageError>(
                scaled(samples as int, from_rate as int, to_rate as int) as usize,
            ) && scaled(samples as int, from_rate as int, to_rate as int) <= usize::MAX
        },
{
    match samples.checked_mul(to_rate as usize) {
        None => Err(invalid_configuration("rate-adapter", "sample-rate conversion overflow")),
        Some(numerator) => Ok(div_ceil(numerator, from_rate as usize)),
    }
}

/// Longest startup that is searched for, in quanta.
pub const SEARCH_LIMIT: usize = 16384;

/// The sizes that decide how long a stage takes to start.
#[derive(Debug, Clone, Copy, PartialEq, Eq, Structural)]
pub struct StartupSizes {
    /// Native samples per pipeline frame.
    pub native_per_quantum: usize,
    /// Samples per model frame.
    pub model_frame: usize,
    /// Samples the upward converter takes.
    pub upsampler_input: usize,
    /// Samples the upward converter gives.
    pub upsampler_output: usize,
    /// Whether the model runs at the pipeline's rate.
    pub identity_output: bool,
    /// Pipeline samples to collect before playing.
    pub watermark: usize,
}

impl StartupSizes {
    /// Native samples the model has produced after `quanta` pipeline frames.
    pub open spec fn native_produced(self, quanta: int) -> int {
        (quanta * self.native_per_quantum) / (self.model_frame as int) * self.model_frame
    }

    /// Pipeline samples produced after `quanta` pipeline frames.
    pub open spec fn produced(self, quanta: int) -> int {
        if self.identity_output {
            self.native_produced(quanta)
        } else {
            self.native_produced(quanta) / (self.upsampler_input as int) * self.upsampler_output
        }
    }

    /// The pipeline frame, from `quanta` on, whose input first fills the
    /// queue to the watermark; less one, because that frame already plays.
    pub open spec fn startup(self, quanta: int) -> Result<int, Seq<char>>
        decreases SEARCH_LIMIT + 1 - quanta,
    {
        if quanta > SEARCH_LIMIT {
            Err("stage frame sizes never reach the startup watermark"@)
        } else if quanta * self.native_per_quantum > usize::MAX {
            Err("startup input overflow"@)
        } else if self.produced(quanta) > usize::MAX {
            Err("converted startup overflow"@)
        } else if self.produced(quanta) >= self.watermark {
            Ok(quanta - 1)
        } else {
            self.startup(quanta + 1)
        }
    }
}

/// The startup is the shortest that reaches the watermark: with one frame more
/// it is reached, and not before.
pub proof fn law_startup_is_shortest(sizes: StartupSizes, quanta: int)
    requires
        quanta >= 1,
    ensures
        sizes.startup(quanta) matches Ok(found) ==> {
            &&& quanta - 1 <= found < SEARCH_LIMIT
            &&& sizes.produced(found + 1) >= sizes.watermark
            &&& forall|q: int| quanta <= q <= found ==> #[trigger] sizes.produced(q)
                < sizes.watermark
        },
    decreases SEARCH_LIMIT + 1 - quanta,
{
    if quanta <= SEARCH_LIMIT {
        law_startup_is_shortest(sizes, quanta + 1);
    }
}

/// Whole frames never hold more than the samples they are cut from.
proof fn lemma_whole_frames(samples: int, frame: int)
    requires
        samples >= 0,
        frame > 0,
    ensures
        0 <= samples / frame * frame <= samples,
        samples - samples / frame * frame < frame,
        samples / frame >= 0,
{
    vstd::arithmetic::div_mod::lemma_fundamental_div_mod(samples, frame);
    vstd::arithmetic::div_mod::lemma_mod_bound(samples, frame);
    assert(frame * (samples / frame) == samples / frame * frame) by (nonlinear_arith);
    assert(samples / frame >= 0) by (nonlinear_arith)
        requires
            samples >= 0,
            frame > 0,
    ;
}

/// How many pipeline frames pass in silence before a stage plays.
pub fn startup_quanta(sizes: StartupSizes, descriptor: StageDescriptor) -> (result: Result<
    usize,
    StageError,
>)
    requires
        sizes.model_frame > 0,
        sizes.upsampler_input > 0,
    ensures
        match sizes.startup(1) {
            Ok(quanta) => result == Ok::<usize, StageError>(quanta as usize) && 0 <= quanta
                < SEARCH_LIMIT,
            Err(reason) => stage::failed(result, stage::misconfigured(descriptor.id@, reason)),
        },
{
    let mut quanta: usize = 1;
    while quanta <= SEARCH_LIMIT
        invariant
            1 <= quanta <= SEARCH_LIMIT + 1,
            sizes.model_frame > 0,
            sizes.upsampler_input > 0,
            sizes.startup(1) == sizes.startup(quanta as int),
        decreases SEARCH_LIMIT + 1 - quanta,
    {
        let native_received: usize = match quanta.checked_mul(sizes.native_per_quantum) {
            Some(samples) => samples,
            None => {
                return Err(invalid_configuration(descriptor.id, "startup input overflow"));
            },
        };
        proof {
            lemma_whole_frames(native_received as int, sizes.model_frame as int);
        }
        let native_produced: usize = (native_received / sizes.model_frame) * sizes.model_frame;
        let pipeline_produced: usize = if sizes.identity_output {
            native_produced
        } else {
            match (native_produced / sizes.upsampler_input).checked_mul(sizes.upsampler_output) {
                Some(samples) => samples,
                None => {
                    return Err(
                        invalid_configuration(descriptor.id, "converted startup overflow"),
                    );
                },
            }
        };
        if pipeline_produced >= sizes.watermark {
            return Ok(quanta - 1);
        }
        quanta = quanta + 1;
    }
    Err(
        invalid_configuration(
            descriptor.id,
            "stage frame sizes never reach the startup watermark",
        ),
    )
}

/// The block sizes and delays of a pair of converters.
#[derive(Debug, Clone, Copy, PartialEq, Eq, Structural)]
pub struct ConverterSizes {
    /// Samples the downward converter takes.
    pub down_takes: usize,
    /// Samples the downward converter gives.
    pub down_gives: usize,
    /// Delay of the downward converter, in native samples.
    pub down_lag: usize,
    /// Samples the upward converter takes.
    pub up_takes: usize,
    /// Samples the upward converter gives.
    pub up_gives: usize,
    /// Delay of the upward converter, in pipeline samples.
    pub up_lag: usize,
}

/// How a native stage is adapted to the pipeline.
#[derive(Debug, Clone, Copy, PartialEq, Eq, Structural)]
pub struct AdapterPlan {
    /// Native samples per pipeline frame.
    pub native_per_quantum: usize,
    /// Samples the upward converter takes.
    pub upsampler_input: usize,
    /// Pipeline samples to collect before playing.
    pub watermark: usize,
    /// Pipeline frames that pass in silence before the stage plays.
    pub startup: usize,
    /// Delay from input to output, in pipeline samples.
    pub delay: usize,
    /// Pipeline frames that still carry signal after the input ends.
    pub tail_frames: usize,
}

/// Native samples per pipeline frame and the delay of the conversion, or what
/// is wrong with the converters.
pub open spec fn conversion(native: StageDescriptor, sizes: ConverterSizes) -> Result<
    (int, int),
    StageFault,
> {
    let rate = native.sample_rate as int;
    if native.sample_rate == PIPELINE_SAMPLE_RATE {
        Ok((PIPELINE_FRAME_SAMPLES as int, 0))
    } else if sizes.down_takes != PIPELINE_FRAME_SAMPLES {
        Err(
            stage::misconfigured(
                native.id@,
                "downsampler cannot preserve the shared input quantum"@,
            ),
        )
    } else if sizes.down_lag * PIPELINE_SAMPLE_RATE > usize::MAX {
        Err(scale_fault())
    } else if sizes.up_takes != sizes.down_gives || sizes.up_gives != PIPELINE_FRAME_SAMPLES {
        Err(
            stage::misconfigured(
                native.id@,
                "upsampler cannot preserve the shared output quantum"@,
            ),
        )
    } else if scaled(sizes.down_lag as int, rate, PIPELINE_SAMPLE_RATE as int) + sizes.up_lag
        > usize::MAX {
        Err(stage::misconfigured(native.id@, "resampler delay overflow"@))
    } else {
        Ok(
            (
                sizes.down_gives as int,
                scaled(sizes.down_lag as int, rate, PIPELINE_SAMPLE_RATE as int) + sizes.up_lag,
            ),
        )
    }
}

/// The sizes of the startup of a native stage.
pub open spec fn startup_sizes(native: StageDescriptor, per_quantum: int) -> StartupSizes {
    let identity = native.sample_rate == PIPELINE_SAMPLE_RATE;
    StartupSizes {
        native_per_quantum: per_quantum as usize,
        model_frame: native.frame_samples,
        upsampler_input: if identity {
            1
        } else {
            per_quantum as usize
        },
        upsampler_output: if identity {
            1
        } else {
            PIPELINE_FRAME_SAMPLES
        },
        identity_output: identity,
        watermark: watermark(native, per_quantum) as usize,
    }
}

/// Pipeline samples to collect before playing: one frame where the model's
/// frames fill the quanta exactly, otherwise one model frame more.
pub open spec fn watermark(native: StageDescriptor, per_quantum: int) -> int {
    if per_quantum % (native.frame_samples as int) == 0 {
        PIPELINE_FRAME_SAMPLES as int
    } else {
        PIPELINE_FRAME_SAMPLES + scaled(
            native.frame_samples as int,
            native.sample_rate as int,
            PIPELINE_SAMPLE_RATE as int,
        )
    }
}

/// The plan for a native stage, or the first thing that is wrong.
pub open spec fn planned(native: StageDescriptor, sizes: ConverterSizes) -> Result<
    AdapterPlan,
    StageFault,
> {
    let rate = native.sample_rate as int;
    let pipeline = PIPELINE_SAMPLE_RATE as int;
    if native.sample_rate == 0 {
        Err(stage::misconfigured(native.id@, "sample rate must be non-zero"@))
    } else if native.frame_samples == 0 {
        Err(stage::misconfigured(native.id@, "frame size must be non-zero"@))
    } else {
        match conversion(native, sizes) {
            Err(fault) => Err(fault),
            Ok((per_quantum, conversion_delay)) => if native.frame_samples * PIPELINE_SAMPLE_RATE
                > usize::MAX {
                Err(scale_fault())
            } else if watermark(native, per_quantum) > usize::MAX {
                Err(stage::misconfigured(native.id@, "startup watermark overflow"@))
            } else {
                match startup_sizes(native, per_quantum).startup(1) {
                    Err(reason) => Err(stage::misconfigured(native.id@, reason)),
                    Ok(startup) => {
                        let model_delay = scaled(
                            native.algorithmic_delay_samples as int,
                            rate,
                            pipeline,
                        );
                        let buffering = startup * PIPELINE_FRAME_SAMPLES;
                        let tail = native.tail_frames * native.frame_samples;
                        if native.algorithmic_delay_samples * PIPELINE_SAMPLE_RATE > usize::MAX {
                            Err(scale_fault())
                        } else if buffering > usize::MAX {
                            Err(stage::misconfigured(native.id@, "buffering delay overflow"@))
                        } else if model_delay + conversion_delay + buffering > usize::MAX {
                            Err(stage::misconfigured(native.id@, "total delay overflow"@))
                        } else if tail > usize::MAX {
                            Err(stage::misconfigured(native.id@, "tail length overflow"@))
                        } else if tail * PIPELINE_SAMPLE_RATE > usize::MAX {
                            Err(scale_fault())
                        } else {
                            Ok(
                                AdapterPlan {
                                    native_per_quantum: per_quantum as usize,
                                    upsampler_input: startup_sizes(
                                        native,
                                        per_quantum,
                                    ).upsampler_input,
                                    watermark: watermark(native, per_quantum) as usize,
                                    startup: startup as usize,
                                    delay: (model_delay + conversion_delay + buffering) as usize,
                                    tail_frames: offline::frames_for(
                                        scaled(tail, rate, pipeline),
                                    ) as usize,
                                },
                            )
                        }
                    },
                }
            },
        }
    }
}

/// Refuses a stage without a rate or without a frame.
pub fn validate_descriptor(descriptor: StageDescriptor) -> (result: Result<(), StageError>)
    ensures
        if descriptor.sample_rate == 0 {
            stage::failed(
                result,
                stage::misconfigured(descriptor.id@, "sample rate must be non-zero"@),
            )
        } else if descriptor.frame_samples == 0 {
            stage::failed(
                result,
                stage::misconfigured(descriptor.id@, "frame size must be non-zero"@),
            )
        } else {
            result is Ok
        },
{
    if descriptor.sample_rate == 0 {
        return Err(invalid_configuration(descriptor.id, "sample rate must be non-zero"));
    }
    if descriptor.frame_samples == 0 {
        return Err(invalid_configuration(descriptor.id, "frame size must be non-zero"));
    }
    Ok(())
}

/// Checks a pair of converters: native samples per pipeline frame and the
/// delay of the conversion.
pub fn check_converters(native: StageDescriptor, sizes: ConverterSizes) -> (result: Result<
    (usize, usize),
    StageError,
>)
    requires
        native.sample_rate > 0,
    ensures
        match conversion(native, sizes) {
            Ok(pair) => result == Ok::<(usize, usize), StageError>(
                (pair.0 as usize, pair.1 as usize),
            ) && 0 <= pair.0 <= usize::MAX && 0 <= pair.1 <= usize::MAX,
            Err(fault) => stage::failed(result, fault),
        },
{
    if native.sample_rate == PIPELINE_SAMPLE_RATE {
        return Ok((PIPELINE_FRAME_SAMPLES, 0));
    }
    if sizes.down_takes != PIPELINE_FRAME_SAMPLES {
        return Err(
            invalid_configuration(
                native.id,
                "downsampler cannot preserve the shared input quantum",
            ),
        );
    }
    let down_delay: usize = match scale_samples(
        sizes.down_lag,
        native.sample_rate,
        PIPELINE_SAMPLE_RATE,
    ) {
        Ok(delay) => delay,
        Err(error) => {
            return Err(error);
        },
    };
    proof {
        lemma_scaled_is_natural(sizes.down_lag as int, native.sample_rate as int);
    }
    if sizes.up_takes != sizes.down_gives || sizes.up_gives != PIPELINE_FRAME_SAMPLES {
        return Err(
            invalid_configuration(
                native.id,
                "upsampler cannot preserve the shared output quantum",
            ),
        );
    }
    match down_delay.checked_add(sizes.up_lag) {
        Some(delay) => Ok((sizes.down_gives, delay)),
        None => Err(invalid_configuration(native.id, "resampler delay overflow")),
    }
}

/// A scaled count is not negative.
proof fn lemma_scaled_is_natural(samples: int, from_rate: int)
    requires
        samples >= 0,
        from_rate > 0,
    ensures
        scaled(samples, from_rate, PIPELINE_SAMPLE_RATE as int) >= 0,
{
    let n = samples * PIPELINE_SAMPLE_RATE + from_rate - 1;
    assert(n / from_rate >= 0) by (nonlinear_arith)
        requires
            n >= 0,
            from_rate > 0,
    ;
}

/// Whether converters that would be accepted give samples at all. The question
/// does not arise for a stage at the pipeline's rate, nor for one that is refused
/// anyway.
pub open spec fn usable(native: StageDescriptor, sizes: ConverterSizes) -> bool {
    native.sample_rate > 0 && native.frame_samples > 0 && native.sample_rate
        != PIPELINE_SAMPLE_RATE && conversion(native, sizes) is Ok ==> sizes.down_gives > 0
}

/// Plans the adaptation of a native stage.
pub fn plan_adapter(native: StageDescriptor, sizes: ConverterSizes) -> (result: Result<
    AdapterPlan,
    StageError,
>)
    requires
        usable(native, sizes),
    ensures
        match planned(native, sizes) {
            Ok(plan) => result == Ok::<AdapterPlan, StageError>(plan),
            Err(fault) => stage::failed(result, fault),
        },
        result matches Ok(plan) ==> {
            &&& native.sample_rate > 0
            &&& native.frame_samples > 0
            &&& plan.upsampler_input > 0
            &&& plan.native_per_quantum > 0
        },
{
    match validate_descriptor(native) {
        Err(error) => {
            return Err(error);
        },
        Ok(()) => {},
    }
    let (per_quantum, conversion_delay) = match check_converters(native, sizes) {
        Err(error) => {
            return Err(error);
        },
        Ok(pair) => pair,
    };
    let converted_model_frame: usize = match scale_samples(
        native.frame_samples,
        native.sample_rate,
        PIPELINE_SAMPLE_RATE,
    ) {
        Err(error) => {
            return Err(error);
        },
        Ok(samples) => samples,
    };
    let ghost rate = native.sample_rate as int;
    proof {
        lemma_scaled_is_natural(native.frame_samples as int, rate);
        lemma_scaled_is_natural(native.algorithmic_delay_samples as int, rate);
        assert(native.tail_frames * native.frame_samples >= 0) by (nonlinear_arith);
        lemma_scaled_is_natural(native.tail_frames * native.frame_samples, rate);
    }
    let watermark: usize = if per_quantum % native.frame_samples == 0 {
        PIPELINE_FRAME_SAMPLES
    } else {
        match PIPELINE_FRAME_SAMPLES.checked_add(converted_model_frame) {
            Some(samples) => samples,
            None => {
                return Err(invalid_configuration(native.id, "startup watermark overflow"));
            },
        }
    };
    let identity: bool = native.sample_rate == PIPELINE_SAMPLE_RATE;
    let upsampler_input: usize = if identity { 1 } else { per_quantum };
    let sizes_of_startup = StartupSizes {
        native_per_quantum: per_quantum,
        model_frame: native.frame_samples,
        upsampler_input,
        upsampler_output: if identity { 1 } else { PIPELINE_FRAME_SAMPLES },
        identity_output: identity,
        watermark,
    };
    let startup: usize = match startup_quanta(sizes_of_startup, native) {
        Err(error) => {
            return Err(error);
        },
        Ok(quanta) => quanta,
    };
    let model_delay: usize = match scale_samples(
        native.algorithmic_delay_samples,
        native.sample_rate,
        PIPELINE_SAMPLE_RATE,
    ) {
        Err(error) => {
            return Err(error);
        },
        Ok(samples) => samples,
    };
    let buffering: usize = match startup.checked_mul(PIPELINE_FRAME_SAMPLES) {
        Some(samples) => samples,
        None => {
            return Err(invalid_configuration(native.id, "buffering delay overflow"));
        },
    };
    let converted_delay: usize = match model_delay.checked_add(conversion_delay) {
        Some(samples) => samples,
        None => {
            return Err(invalid_configuration(native.id, "total delay overflow"));
        },
    };
    let delay: usize = match converted_delay.checked_add(buffering) {
        Some(samples) => samples,
        None => {
            return Err(invalid_configuration(native.id, "total delay overflow"));
        },
    };
    let tail_samples: usize = match native.tail_frames.checked_mul(native.frame_samples) {
        Some(samples) => samples,
        None => {
            return Err(invalid_configuration(native.id, "tail length overflow"));
        },
    };
    let converted_tail: usize = match scale_samples(
        tail_samples,
        native.sample_rate,
        PIPELINE_SAMPLE_RATE,
    ) {
        Err(error) => {
            return Err(error);
        },
        Ok(samples) => samples,
    };
    let tail_frames: usize = div_ceil(converted_tail, PIPELINE_FRAME_SAMPLES);
    Ok(
        AdapterPlan {
            native_per_quantum: per_quantum,
            upsampler_input,
            watermark,
            startup,
            delay,
            tail_frames,
        },
    )
}

/// What an adapter's queues and machines hold.
pub struct AdapterState<T, R> {
    /// What the model remembers.
    pub stage: T,
    /// The downward converter, unless the model runs at the pipeline's rate.
    pub down: Option<R>,
    /// The upward converter, unless the model runs at the pipeline's rate.
    pub up: Option<R>,
    /// Native samples waiting to fill a model frame.
    pub native_input: Seq<u32>,
    /// Native samples waiting to be converted.
    pub native_output: Seq<u32>,
    /// Pipeline samples ready to be played.
    pub pipeline_output: Seq<u32>,
    /// Whether playing has started.
    pub started: bool,
}

/// What an adapter remembers.
pub struct AdapterMemory<T, R> {
    /// The queues and machines.
    pub inner: AdapterState<T, R>,
    /// The model's description.
    pub native: StageDescriptor,
    /// The plan.
    pub plan: AdapterPlan,
}

/// The native samples a pipeline frame turns into, and the downward converter
/// afterwards.
pub open spec fn native_samples<T, R: FixedResampler>(
    memory: AdapterMemory<T, R>,
    input: Seq<u32>,
) -> Result<(Seq<u32>, Option<R>), StageFault> {
    match memory.inner.down {
        None => Ok((input, None)),
        Some(converter) => match converter.outcome(input) {
            Err(fault) => Err(fault),
            Ok(block) => if block.len() != memory.plan.native_per_quantum {
                Err(
                    stage::misconfigured(
                        memory.native.id@,
                        "downsampler changed its fixed output length"@,
                    ),
                )
            } else {
                Ok((block, Some(converter.after(input))))
            },
        },
    }
}

/// The state once every complete model frame has run, or the model's fault.
pub open spec fn modelled<A: AudioStage, R>(
    state: AdapterState<A::State, R>,
    frame: nat,
) -> Result<AdapterState<A::State, R>, StageFault>
    decreases state.native_input.len(),
{
    if frame == 0 || state.native_input.len() < frame {
        Ok(state)
    } else {
        let block = state.native_input.take(frame as int);
        match A::outcome(state.stage, block) {
            Err(fault) => Err(fault),
            Ok(output) => modelled::<A, R>(
                AdapterState {
                    stage: A::next(state.stage, block),
                    native_input: state.native_input.skip(frame as int),
                    native_output: state.native_output + output,
                    ..state
                },
                frame,
            ),
        }
    }
}

/// The state once every complete block of model output has been converted, or
/// the converter's fault.
pub open spec fn upsampled<T, R: FixedResampler>(state: AdapterState<T, R>, block: nat) -> Result<
    AdapterState<T, R>,
    StageFault,
>
    decreases state.native_output.len(),
{
    match state.up {
        None => Ok(
            AdapterState {
                pipeline_output: state.pipeline_output + state.native_output,
                native_output: Seq::empty(),
                ..state
            },
        ),
        Some(converter) => if block == 0 || state.native_output.len() < block {
            Ok(state)
        } else {
            let input = state.native_output.take(block as int);
            match converter.outcome(input) {
                Err(fault) => Err(fault),
                Ok(output) => upsampled(
                    AdapterState {
                        up: Some(converter.after(input)),
                        native_output: state.native_output.skip(block as int),
                        pipeline_output: state.pipeline_output + output,
                        ..state
                    },
                    block,
                ),
            }
        },
    }
}

/// The state once a pipeline frame has gone through the model, before anything
/// is played.
pub open spec fn taken_in<A: AudioStage, R: FixedResampler>(
    memory: AdapterMemory<A::State, R>,
    input: Seq<u32>,
) -> Result<AdapterState<A::State, R>, StageFault> {
    match native_samples(memory, input) {
        Err(fault) => Err(fault),
        Ok((block, down)) => match modelled::<A, R>(
            AdapterState {
                down,
                native_input: memory.inner.native_input + block,
                ..memory.inner
            },
            memory.native.frame_samples as nat,
        ) {
            Err(fault) => Err(fault),
            Ok(state) => upsampled(state, memory.plan.upsampler_input as nat),
        },
    }
}

/// Whether playing has started once this much is ready.
pub open spec fn playing<T, R>(state: AdapterState<T, R>, plan: AdapterPlan) -> bool {
    state.started || state.pipeline_output.len() >= plan.watermark
}

/// What an adapter plays for a pipeline frame.
pub open spec fn adapter_outcome<A: AudioStage, R: FixedResampler>(
    memory: AdapterMemory<A::State, R>,
    input: Seq<u32>,
) -> Result<Seq<u32>, StageFault> {
    if input.len() != PIPELINE_FRAME_SAMPLES {
        Err(
            StageFault::InvalidFrameLength {
                stage: memory.native.id@,
                expected: PIPELINE_FRAME_SAMPLES as nat,
                actual: input.len(),
            },
        )
    } else {
        match taken_in::<A, R>(memory, input) {
            Err(fault) => Err(fault),
            Ok(state) => if !playing(state, memory.plan) {
                Ok(ring::silence(PIPELINE_FRAME_SAMPLES as nat))
            } else if state.pipeline_output.len() < PIPELINE_FRAME_SAMPLES {
                Err(
                    stage::misconfigured(
                        memory.native.id@,
                        "pipeline output queue underflow after startup"@,
                    ),
                )
            } else {
                Ok(state.pipeline_output.take(PIPELINE_FRAME_SAMPLES as int))
            },
        }
    }
}

/// What an adapter remembers after it played a frame.
pub open spec fn adapter_next<A: AudioStage, R: FixedResampler>(
    memory: AdapterMemory<A::State, R>,
    input: Seq<u32>,
) -> AdapterMemory<A::State, R> {
    match taken_in::<A, R>(memory, input) {
        Err(_) => memory,
        Ok(state) => if !playing(state, memory.plan) {
            AdapterMemory { inner: state, ..memory }
        } else {
            AdapterMemory {
                inner: AdapterState {
                    started: true,
                    pipeline_output: state.pipeline_output.skip(PIPELINE_FRAME_SAMPLES as int),
                    ..state
                },
                ..memory
            }
        },
    }
}

/// A converter after a reset, if there is one.
pub open spec fn converter_cleared<R: FixedResampler>(converter: Option<R>) -> Option<R> {
    match converter {
        Some(converter) => Some(converter.cleared()),
        None => None,
    }
}

/// Adapts a native model stage to the fixed 48 kHz, 10 ms contract.
///
/// The adapter retains both converter state and partial model frames.
pub struct RateAdapter<A: AudioStage, R: FixedResampler> {
    stage: A,
    descriptor: StageDescriptor,
    native: StageDescriptor,
    plan: AdapterPlan,
    down: Option<R>,
    up: Option<R>,
    started: bool,
    native_input: VecDeque<u32>,
    native_output: VecDeque<u32>,
    pipeline_output: VecDeque<u32>,
}

/// The block sizes and delays of a pair of converters.
pub open spec fn sizes_of<R: FixedResampler>(down: R, up: R) -> ConverterSizes {
    ConverterSizes {
        down_takes: down.takes(),
        down_gives: down.gives(),
        down_lag: down.lag(),
        up_takes: up.takes(),
        up_gives: up.gives(),
        up_lag: up.lag(),
    }
}

impl<A: AudioStage, R: FixedResampler> RateAdapter<A, R> {
    /// What the adapter remembers.
    pub closed spec fn memory(&self) -> AdapterMemory<A::State, R> {
        AdapterMemory {
            inner: AdapterState {
                stage: self.stage.state(),
                down: self.down,
                up: self.up,
                native_input: self.native_input@,
                native_output: self.native_output@,
                pipeline_output: self.pipeline_output@,
                started: self.started,
            },
            native: self.native,
            plan: self.plan,
        }
    }

    /// The adapted stage's description.
    pub closed spec fn adapted(&self) -> StageDescriptor {
        self.descriptor
    }

    /// Whether the model is intact and the sizes usable.
    pub closed spec fn intact(&self) -> bool {
        &&& self.stage.wf()
        &&& self.stage.about() == self.native
        &&& self.native.frame_samples > 0
        &&& self.plan.upsampler_input > 0
        &&& self.descriptor.frame_samples == PIPELINE_FRAME_SAMPLES
        &&& self.descriptor.id == self.native.id
    }

    /// Wraps a native stage with the shared pipeline contract. The converters
    /// are used for a stage that does not run at the pipeline's rate.
    pub fn new(stage: A, down: R, up: R) -> (result: Result<Self, StageError>)
        requires
            stage.wf(),
            usable(stage.about(), sizes_of(down, up)),
        ensures
            match planned(stage.about(), sizes_of(down, up)) {
                Err(fault) => stage::failed(result, fault),
                Ok(plan) => {
                    let identity = stage.about().sample_rate == PIPELINE_SAMPLE_RATE;
                    &&& result matches Ok(adapter)
                    &&& adapter.intact()
                    &&& adapter.adapted() == (StageDescriptor {
                        sample_rate: PIPELINE_SAMPLE_RATE,
                        frame_samples: PIPELINE_FRAME_SAMPLES,
                        algorithmic_delay_samples: plan.delay,
                        tail_frames: plan.tail_frames,
                        ..stage.about()
                    })
                    &&& adapter.memory() == (AdapterMemory {
                        inner: AdapterState {
                            stage: stage.state(),
                            down: if identity {
                                None
                            } else {
                                Some(down)
                            },
                            up: if identity {
                                None
                            } else {
                                Some(up)
                            },
                            native_input: Seq::empty(),
                            native_output: Seq::empty(),
                            pipeline_output: Seq::empty(),
                            started: false,
                        },
                        native: stage.about(),
                        plan,
                    })
                },
            },
    {
        let native = stage.descriptor();
        let sizes = ConverterSizes {
            down_takes: down.input_frames_next(),
            down_gives: down.output_frames_next(),
            down_lag: down.output_delay(),
            up_takes: up.input_frames_next(),
            up_gives: up.output_frames_next(),
            up_lag: up.output_delay(),
        };
        let plan: AdapterPlan = match plan_adapter(native, sizes) {
            Err(error) => {
                return Err(error);
            },
            Ok(plan) => plan,
        };
        let descriptor = StageDescriptor {
            sample_rate: PIPELINE_SAMPLE_RATE,
            frame_samples: PIPELINE_FRAME_SAMPLES,
            algorithmic_delay_samples: plan.delay,
            tail_frames: plan.tail_frames,
            ..native
        };
        let identity: bool = native.sample_rate == PIPELINE_SAMPLE_RATE;
        Ok(
            RateAdapter {
                stage,
                descriptor,
                native,
                plan,
                down: if identity { None } else { Some(down) },
                up: if identity { None } else { Some(up) },
                started: false,
                native_input: VecDeque::new(),
                native_output: VecDeque::new(),
                pipeline_output: VecDeque::new(),
            },
        )
    }

    /// Converts a pipeline frame to native samples.
    fn convert_input(&mut self, input: &[u32]) -> (result: Result<Vec<u32>, StageError>)
        requires
            old(self).intact(),
        ensures
            final(self).intact(),
            final(self).descriptor == old(self).descriptor,
            final(self).native == old(self).native,
            match native_samples(old(self).memory(), input@) {
                Err(fault) => stage::failed(result, fault),
                Ok(pair) => {
                    &&& result matches Ok(block) && block@ == pair.0
                    &&& final(self).memory() == (AdapterMemory {
                        inner: AdapterState { down: pair.1, ..old(self).memory().inner },
                        ..old(self).memory()
                    })
                },
            },
    {
        match self.down.take() {
            None => {
                let mut block: Vec<u32> = Vec::new();
                block.extend_from_slice(input);
                assert(block@ =~= input@);
                Ok(block)
            },
            Some(mut converter) => {
                let result = converter.process(input);
                self.down = Some(converter);
                match result {
                    Err(error) => Err(error),
                    Ok(block) => if block.len() != self.plan.native_per_quantum {
                        Err(
                            invalid_configuration(
                                self.native.id,
                                "downsampler changed its fixed output length",
                            ),
                        )
                    } else {
                        Ok(block)
                    },
                }
            },
        }
    }

    /// Runs the model on every complete frame.
    fn run_ready_model_frames(&mut self) -> (result: Result<(), StageError>)
        requires
            old(self).intact(),
        ensures
            final(self).intact(),
            final(self).descriptor == old(self).descriptor,
            final(self).native == old(self).native,
            match modelled::<A, R>(
                old(self).memory().inner,
                old(self).native.frame_samples as nat,
            ) {
                Err(fault) => stage::failed(result, fault),
                Ok(state) => {
                    &&& result is Ok
                    &&& final(self).memory() == (AdapterMemory {
                        inner: state,
                        ..old(self).memory()
                    })
                },
            },
    {
        let frame: usize = self.native.frame_samples;
        while self.native_input.len() >= frame
            invariant
                self.intact(),
                frame == self.native.frame_samples,
                self.descriptor == old(self).descriptor,
                self.native == old(self).native,
                self.memory() == (AdapterMemory {
                    inner: self.memory().inner,
                    ..old(self).memory()
                }),
                modelled::<A, R>(old(self).memory().inner, frame as nat) == modelled::<A, R>(
                    self.memory().inner,
                    frame as nat,
                ),
            decreases self.native_input@.len(),
        {
            let model_input: Vec<u32> = take_front(&mut self.native_input, frame);
            let mut model_output: Vec<u32> = vec![0; frame];
            match self.stage.process_frame(model_input.as_slice(), model_output.as_mut_slice()) {
                Err(error) => {
                    return Err(error);
                },
                Ok(()) => {},
            }
            push_all(&mut self.native_output, model_output.as_slice());
        }
        Ok(())
    }

    /// Converts every complete block of model output to pipeline samples.
    fn convert_ready_output(&mut self) -> (result: Result<(), StageError>)
        requires
            old(self).intact(),
        ensures
            final(self).intact(),
            final(self).descriptor == old(self).descriptor,
            final(self).native == old(self).native,
            match upsampled(old(self).memory().inner, old(self).plan.upsampler_input as nat) {
                Err(fault) => stage::failed(result, fault),
                Ok(state) => {
                    &&& result is Ok
                    &&& final(self).memory() == (AdapterMemory {
                        inner: state,
                        ..old(self).memory()
                    })
                },
            },
    {
        let block: usize = self.plan.upsampler_input;
        match self.up.take() {
            None => {
                let count: usize = self.native_output.len();
                let samples: Vec<u32> = take_front(&mut self.native_output, count);
                assert(samples@ =~= old(self).native_output@);
                assert(self.native_output@ =~= Seq::<u32>::empty());
                push_all(&mut self.pipeline_output, samples.as_slice());
                Ok(())
            },
            Some(first) => {
                let mut converter = first;
                while self.native_output.len() >= block
                    invariant
                        self.intact(),
                        block == self.plan.upsampler_input,
                        self.descriptor == old(self).descriptor,
                        self.native == old(self).native,
                        self.up is None,
                        self.memory() == (AdapterMemory {
                            inner: self.memory().inner,
                            ..old(self).memory()
                        }),
                        upsampled(old(self).memory().inner, block as nat) == upsampled(
                            AdapterState { up: Some(converter), ..self.memory().inner },
                            block as nat,
                        ),
                    decreases self.native_output@.len(),
                {
                    let input: Vec<u32> = take_front(&mut self.native_output, block);
                    let result = converter.process(input.as_slice());
                    match result {
                        Err(error) => {
                            self.up = Some(converter);
                            return Err(error);
                        },
                        Ok(output) => {
                            push_all(&mut self.pipeline_output, output.as_slice());
                        },
                    }
                }
                self.up = Some(converter);
                Ok(())
            },
        }
    }
}

impl<A: AudioStage, R: FixedResampler> AudioStage for RateAdapter<A, R> {
    type State = AdapterMemory<A::State, R>;

    open spec fn wf(&self) -> bool {
        self.intact()
    }

    open spec fn state(&self) -> AdapterMemory<A::State, R> {
        self.memory()
    }

    open spec fn about(&self) -> StageDescriptor {
        self.adapted()
    }

    open spec fn outcome(state: AdapterMemory<A::State, R>, input: Seq<u32>) -> Result<
        Seq<u32>,
        StageFault,
    > {
        adapter_outcome::<A, R>(state, input)
    }

    open spec fn next(state: AdapterMemory<A::State, R>, input: Seq<u32>) -> AdapterMemory<
        A::State,
        R,
    > {
        adapter_next::<A, R>(state, input)
    }

    open spec fn cleared(state: AdapterMemory<A::State, R>) -> Result<
        AdapterMemory<A::State, R>,
        StageFault,
    > {
        match A::cleared(state.inner.stage) {
            Err(fault) => Err(fault),
            Ok(stage) => Ok(
                AdapterMemory {
                    inner: AdapterState {
                        stage,
                        down: converter_cleared(state.inner.down),
                        up: converter_cleared(state.inner.up),
                        native_input: Seq::empty(),
                        native_output: Seq::empty(),
                        pipeline_output: Seq::empty(),
                        started: false,
                    },
                    ..state
                },
            ),
        }
    }

    fn descriptor(&self) -> (descriptor: StageDescriptor) {
        self.descriptor
    }

    fn process_frame(&mut self, input: &[u32], output: &mut [u32]) -> (result: Result<
        (),
        StageError,
    >)
        ensures
            old(output)@.len() != PIPELINE_FRAME_SAMPLES && input@.len()
                == PIPELINE_FRAME_SAMPLES ==> stage::failed(
                result,
                StageFault::InvalidFrameLength {
                    stage: old(self).adapted().id@,
                    expected: PIPELINE_FRAME_SAMPLES as nat,
                    actual: old(output)@.len(),
                },
            ),
    {
        match validate_frame_lengths(self.descriptor, input, output) {
            Err(error) => {
                return Err(error);
            },
            Ok(()) => {},
        }
        let native: Vec<u32> = match self.convert_input(input) {
            Err(error) => {
                return Err(error);
            },
            Ok(block) => block,
        };
        push_all(&mut self.native_input, native.as_slice());
        match self.run_ready_model_frames() {
            Err(error) => {
                return Err(error);
            },
            Ok(()) => {},
        }
        match self.convert_ready_output() {
            Err(error) => {
                return Err(error);
            },
            Ok(()) => {},
        }
        if !self.started && self.pipeline_output.len() >= self.plan.watermark {
            self.started = true;
        }
        if !self.started {
            fill_silence(output, 0);
            assert(output@ =~= ring::silence(PIPELINE_FRAME_SAMPLES as nat));
            return Ok(());
        }
        if self.pipeline_output.len() < output.len() {
            return Err(
                invalid_configuration(
                    self.native.id,
                    "pipeline output queue underflow after startup",
                ),
            );
        }
        let played: Vec<u32> = take_front(&mut self.pipeline_output, output.len());
        crate::signal::stage::copy_samples(played.as_slice(), output);
        Ok(())
    }

    fn reset(&mut self) -> (result: Result<(), StageError>) {
        match self.stage.reset() {
            Err(error) => {
                return Err(error);
            },
            Ok(()) => {},
        }
        match self.down.take() {
            Some(mut converter) => {
                converter.reset();
                self.down = Some(converter);
            },
            None => {},
        }
        match self.up.take() {
            Some(mut converter) => {
                converter.reset();
                self.up = Some(converter);
            },
            None => {},
        }
        self.native_input.clear();
        self.native_output.clear();
        self.pipeline_output.clear();
        self.started = false;
        Ok(())
    }
}

/// Whether an adapter at the pipeline's own rate is in step: less than a model
/// frame waits, and once playing has started a model frame is in reserve,
/// unless the model's frames fill the quanta exactly.
pub open spec fn adapter_in_step<T, R>(memory: AdapterMemory<T, R>) -> bool {
    let state = memory.inner;
    let frame = memory.native.frame_samples;
    let exact = PIPELINE_FRAME_SAMPLES % frame == 0;
    &&& frame > 0
    &&& memory.native.sample_rate == PIPELINE_SAMPLE_RATE
    &&& memory.plan.watermark == watermark(memory.native, PIPELINE_FRAME_SAMPLES as int)
    &&& state.down is None
    &&& state.up is None
    &&& state.native_output.len() == 0
    &&& state.native_input.len() < frame
    &&& exact ==> state.native_input.len() == 0
    &&& state.started && !exact ==> state.pipeline_output.len() + state.native_input.len() >= frame
    &&& !state.started ==> state.pipeline_output.len() < memory.plan.watermark
}

/// Running a model keeps every sample: as many come out as went in, less what
/// still waits to fill a frame.
proof fn lemma_models_keep_count<A: AudioStage, R>(state: AdapterState<A::State, R>, frame: nat)
    requires
        frame > 0,
        forall|memory: A::State, block: Seq<u32>|
            (#[trigger] A::outcome(memory, block)) matches Ok(output) ==> output.len() == frame,
    ensures
        modelled::<A, R>(state, frame) matches Ok(after) ==> {
            &&& after.native_input.len() < frame
            &&& after.native_input.len() + after.native_output.len() == state.native_input.len()
                + state.native_output.len()
            &&& state.native_input.len() % frame == 0 ==> after.native_input.len() == 0
            &&& exists|calls: int|
                after.native_output.len() == state.native_output.len() + #[trigger] (calls
                    * frame as int)
            &&& after == (AdapterState {
                stage: after.stage,
                native_input: after.native_input,
                native_output: after.native_output,
                ..state
            })
        },
    decreases state.native_input.len(),
{
    if state.native_input.len() >= frame {
        let block = state.native_input.take(frame as int);
        match A::outcome(state.stage, block) {
            Err(_) => {},
            Ok(output) => {
                let next = AdapterState {
                    stage: A::next(state.stage, block),
                    native_input: state.native_input.skip(frame as int),
                    native_output: state.native_output + output,
                    ..state
                };
                lemma_models_keep_count::<A, R>(next, frame);
                if modelled::<A, R>(next, frame) is Ok {
                    let after = modelled::<A, R>(next, frame)->Ok_0;
                    let calls = choose|calls: int|
                        after.native_output.len() == next.native_output.len() + #[trigger] (calls
                            * frame as int);
                    assert((calls + 1) * frame as int == calls * frame as int + frame)
                        by (nonlinear_arith);
                }
                if state.native_input.len() % frame == 0 {
                    vstd::arithmetic::div_mod::lemma_mod_sub_multiples_vanish(
                        state.native_input.len() as int,
                        frame as int,
                    );
                }
            },
        }
    } else {
        vstd::arithmetic::div_mod::lemma_small_mod(state.native_input.len(), frame);
        assert(0 * frame as int == 0);
    }
}

/// An adapter at the pipeline's own rate never runs dry, whatever the model's
/// frame length: as long as the model does not fail, every pipeline frame is
/// answered, and once playing has started it never stops.
pub proof fn law_adapter_never_runs_dry<A: AudioStage, R: FixedResampler>(
    memory: AdapterMemory<A::State, R>,
    input: Seq<u32>,
)
    requires
        adapter_in_step(memory),
        input.len() == PIPELINE_FRAME_SAMPLES,
        forall|state: A::State, block: Seq<u32>|
            (#[trigger] A::outcome(state, block)) matches Ok(output) ==> output.len()
                == memory.native.frame_samples,
        taken_in::<A, R>(memory, input) is Ok,
    ensures
        adapter_outcome::<A, R>(memory, input) is Ok,
        adapter_in_step(adapter_next::<A, R>(memory, input)),
        memory.inner.started ==> adapter_next::<A, R>(memory, input).inner.started,
{
    let frame = memory.native.frame_samples as nat;
    let start = AdapterState {
        down: None::<R>,
        native_input: memory.inner.native_input + input,
        ..memory.inner
    };
    lemma_models_keep_count::<A, R>(start, frame);
    let rate = PIPELINE_SAMPLE_RATE as int;
    assert(scaled(frame as int, rate, rate) == frame) by {
        vstd::arithmetic::div_mod::lemma_hoist_over_denominator(
            rate - 1,
            frame as int,
            rate as nat,
        );
        assert(frame * rate + rate - 1 == rate - 1 + frame as int * rate);
        assert((rate - 1) / rate == 0);
    }
    assert(modelled::<A, R>(start, frame) is Ok);
    let state = taken_in::<A, R>(memory, input)->Ok_0;
    assert(state.pipeline_output.len() + state.native_input.len()
        == memory.inner.pipeline_output.len() + memory.inner.native_input.len() + 480);
}

/// Native samples per pipeline frame, counted whole, that the model can hold
/// back at most.
pub open spec fn quanta_held(frame: int, per_quantum: int) -> int {
    resample::ceiling(frame, per_quantum)
}

/// Whether an adapter with converters is in step: whole quanta are held back
/// inside, less than a model frame waits for the model and less than a block for
/// the upward converter, and once playing has started what is ready and what is
/// held back cover what the model can hold back, unless its frames fill the
/// quanta exactly.
pub open spec fn converting_in_step<T, R>(memory: AdapterMemory<T, R>) -> bool {
    let state = memory.inner;
    let frame = memory.native.frame_samples as int;
    let quantum = memory.plan.native_per_quantum as int;
    let held = state.native_input.len() + state.native_output.len();
    &&& frame > 0
    &&& quantum > 0
    &&& memory.plan.upsampler_input == quantum
    &&& memory.native.sample_rate == 100 * quantum
    &&& memory.plan.watermark == watermark(memory.native, quantum)
    &&& state.down is Some
    &&& state.up is Some
    &&& state.native_input.len() < frame
    &&& state.native_output.len() < quantum
    &&& held as int % quantum == 0
    &&& state.pipeline_output.len() as int % 480 == 0
    &&& quantum % frame == 0 ==> held == 0
    &&& state.started && quantum % frame != 0 ==> state.pipeline_output.len() as int / 480
        + held as int / quantum >= quanta_held(frame, quantum)
    &&& !state.started ==> state.pipeline_output.len() < memory.plan.watermark
}

/// Whether upward converters answer each block of `block` samples with one
/// pipeline frame.
pub open spec fn answers_in_full<R: FixedResampler>(block: int) -> bool {
    forall|converter: R, input: Seq<u32>|
        input.len() == block && (#[trigger] converter.outcome(input)) is Ok
            ==> converter.outcome(input)->Ok_0.len() == PIPELINE_FRAME_SAMPLES
}

/// Converting whole blocks upward loses nothing: each turns into one pipeline
/// frame.
proof fn lemma_upsampling_keeps_count<T, R: FixedResampler>(state: AdapterState<T, R>, block: nat)
    requires
        block > 0,
        state.up is Some,
        answers_in_full::<R>(block as int),
        upsampled(state, block) is Ok,
    ensures
        ({
            let after = upsampled(state, block)->Ok_0;
            let blocks = state.native_output.len() as int / block as int;
            &&& after.up is Some
            &&& after.down == state.down
            &&& after.native_input == state.native_input
            &&& after.started == state.started
            &&& after.native_output.len() == state.native_output.len() as int % block as int
            &&& after.pipeline_output.len() == state.pipeline_output.len() + 480 * blocks
        }),
    decreases state.native_output.len(),
{
    let len = state.native_output.len() as int;
    let b = block as int;
    if len < b {
        vstd::arithmetic::div_mod::lemma_basic_div(len, b);
        vstd::arithmetic::div_mod::lemma_small_mod(len as nat, block);
    } else {
        let converter = state.up->0;
        let input = state.native_output.take(b);
        let output = converter.outcome(input)->Ok_0;
        let next = AdapterState {
            up: Some(converter.after(input)),
            native_output: state.native_output.skip(b),
            pipeline_output: state.pipeline_output + output,
            ..state
        };
        assert(converter.outcome(input) is Ok);
        lemma_upsampling_keeps_count(next, block);
        vstd::arithmetic::div_mod::lemma_div_minus_one(len, b);
        vstd::arithmetic::div_mod::lemma_mod_sub_multiples_vanish(len, b);
    }
}

/// An adapter whose converters keep the ratio of the rates and answer in full
/// never runs dry, whatever the model's frame length: as long as neither the
/// model nor a converter fails, every pipeline frame is answered, and once
/// playing has started it never stops.
pub proof fn law_converting_adapter_never_runs_dry<A: AudioStage, R: FixedResampler>(
    memory: AdapterMemory<A::State, R>,
    input: Seq<u32>,
)
    requires
        converting_in_step(memory),
        input.len() == PIPELINE_FRAME_SAMPLES,
        forall|state: A::State, block: Seq<u32>|
            (#[trigger] A::outcome(state, block)) matches Ok(output) ==> output.len()
                == memory.native.frame_samples,
        answers_in_full::<R>(memory.plan.native_per_quantum as int),
        taken_in::<A, R>(memory, input) is Ok,
    ensures
        adapter_outcome::<A, R>(memory, input) is Ok,
        converting_in_step(adapter_next::<A, R>(memory, input)),
        memory.inner.started ==> adapter_next::<A, R>(memory, input).inner.started,
{
    let frame = memory.native.frame_samples as int;
    let quantum = memory.plan.native_per_quantum as int;
    let (block, down) = native_samples(memory, input)->Ok_0;
    let start = AdapterState {
        down,
        native_input: memory.inner.native_input + block,
        ..memory.inner
    };
    lemma_models_keep_count::<A, R>(start, frame as nat);
    let ran = modelled::<A, R>(start, frame as nat)->Ok_0;
    lemma_upsampling_keeps_count(ran, quantum as nat);
    let state = taken_in::<A, R>(memory, input)->Ok_0;
    let held = (memory.inner.native_input.len() + memory.inner.native_output.len()) as int;
    let after = (state.native_input.len() + state.native_output.len()) as int;
    let blocks = ran.native_output.len() as int / quantum;
    let ready = memory.inner.pipeline_output.len() as int;
    vstd::arithmetic::div_mod::lemma_fundamental_div_mod(
        ran.native_output.len() as int,
        quantum,
    );
    assert(quantum * blocks == blocks * quantum) by (nonlinear_arith);
    assert(after == held + quantum - blocks * quantum);
    // What is held back stays a number of whole quanta.
    let before_quanta = held / quantum;
    let after_quanta = before_quanta + 1 - blocks;
    vstd::arithmetic::div_mod::lemma_fundamental_div_mod(held, quantum);
    assert(after == after_quanta * quantum) by (nonlinear_arith)
        requires
            after == held + quantum - blocks * quantum,
            held == quantum * before_quanta,
            after_quanta == before_quanta + 1 - blocks,
    ;
    assert(after / quantum == after_quanta && after % quantum == 0) by {
        assert(after_quanta >= 0) by (nonlinear_arith)
            requires
                after == after_quanta * quantum,
                after >= 0,
                quantum > 0,
        ;
        vstd::arithmetic::div_mod::lemma_div_by_multiple(after_quanta, quantum);
        vstd::arithmetic::div_mod::lemma_mod_multiples_basic(after_quanta, quantum);
    }
    lemma_quanta_held(frame, quantum, after, after_quanta);
    if quantum % frame == 0 {
        assert(start.native_input.len() == quantum);
        assert(ran.native_input.len() == 0);
        assert(ran.native_output.len() == quantum);
        assert(blocks == 1) by {
            vstd::arithmetic::div_mod::lemma_div_by_multiple(1, quantum);
            assert(1 * quantum == quantum);
        }
    }
    let made = state.pipeline_output.len() as int;
    assert(made == ready + 480 * blocks);
    assert(made / 480 == ready / 480 + blocks && made % 480 == 0);
    assert((made - 480) / 480 == made / 480 - 1 && (made - 480) % 480 == 0);
    lemma_watermark_covers(memory.native, quantum);
    if playing(state, memory.plan) {
        assert(made >= 480);
        let next = adapter_next::<A, R>(memory, input).inner;
        assert(next.pipeline_output.len() == made - 480);
        if !state.started && quantum % frame != 0 {
            assert(made / 480 - 1 >= quanta_held(frame, quantum));
        }
    }
}

/// Less than a model frame and less than a block, together whole quanta, are at
/// most the quanta that the model can hold back.
proof fn lemma_quanta_held(frame: int, quantum: int, held: int, quanta: int)
    requires
        frame > 0,
        quantum > 0,
        held == quanta * quantum,
        0 <= held <= frame + quantum - 2,
    ensures
        0 <= quanta <= quanta_held(frame, quantum),
{
    let most = quanta_held(frame, quantum);
    let sum = frame + quantum - 1;
    vstd::arithmetic::div_mod::lemma_fundamental_div_mod(sum, quantum);
    vstd::arithmetic::div_mod::lemma_mod_bound(sum, quantum);
    assert(0 <= quanta <= most) by (nonlinear_arith)
        requires
            quantum > 0,
            0 <= quanta * quantum < sum,
            sum == quantum * most + sum % quantum,
            sum % quantum < quantum,
    ;
}

/// The watermark leaves, once a frame has been played, as many frames ready as
/// the model can hold back, if frames are played whole.
proof fn lemma_watermark_covers(native: StageDescriptor, quantum: int)
    requires
        native.frame_samples > 0,
        quantum > 0,
        native.sample_rate == 100 * quantum,
    ensures
        watermark(native, quantum) >= 480,
        quantum % (native.frame_samples as int) != 0 ==> forall|ready: int|
            ready % 480 == 0 && ready >= watermark(native, quantum) ==> (#[trigger] (ready / 480))
                - 1 >= quanta_held(native.frame_samples as int, quantum),
{
    let frame = native.frame_samples as int;
    let rate = native.sample_rate as int;
    let pipeline = PIPELINE_SAMPLE_RATE as int;
    lemma_scaled_is_natural(frame, rate);
    if quantum % frame != 0 {
        let extra = scaled(frame, rate, pipeline);
        let sum = frame * pipeline + rate - 1;
        vstd::arithmetic::div_mod::lemma_fundamental_div_mod(sum, rate);
        vstd::arithmetic::div_mod::lemma_mod_bound(sum, rate);
        // A model frame takes at least its share of pipeline samples.
        assert(extra * quantum >= frame * 480) by (nonlinear_arith)
            requires
                sum == rate * extra + sum % rate,
                0 <= sum % rate < rate,
                sum == frame * 48000 + rate - 1,
                rate == 100 * quantum,
        ;
        let most = quanta_held(frame, quantum);
        let total = frame + quantum - 1;
        vstd::arithmetic::div_mod::lemma_fundamental_div_mod(total, quantum);
        vstd::arithmetic::div_mod::lemma_mod_bound(total, quantum);
        assert forall|ready: int|
            ready % 480 == 0 && ready >= watermark(native, quantum) implies (#[trigger] (ready
            / 480)) - 1 >= most by {
            let spare = ready / 480 - 1;
            vstd::arithmetic::div_mod::lemma_fundamental_div_mod(ready, 480);
            assert(480 * spare >= extra);
            assert(spare * quantum >= frame) by (nonlinear_arith)
                requires
                    480 * spare >= extra,
                    extra * quantum >= frame * 480,
                    quantum > 0,
            ;
            assert(spare >= most) by (nonlinear_arith)
                requires
                    spare * quantum >= frame,
                    frame + quantum - 1 == quantum * most + total % quantum,
                    0 <= total % quantum < quantum,
                    quantum > 0,
            ;
        }
    }
}

/// A fresh adapter with converters that keep the ratio of the rates is in step.
pub proof fn law_fresh_converting_adapter_is_in_step<T, R>(
    native: StageDescriptor,
    sizes: ConverterSizes,
    stage: T,
    down: R,
    up: R,
)
    requires
        native.sample_rate != PIPELINE_SAMPLE_RATE,
        native.sample_rate == 100 * sizes.down_gives,
        planned(native, sizes) is Ok,
    ensures
        converting_in_step(
            AdapterMemory {
                inner: AdapterState {
                    stage,
                    down: Some(down),
                    up: Some(up),
                    native_input: Seq::empty(),
                    native_output: Seq::empty(),
                    pipeline_output: Seq::empty(),
                    started: false,
                },
                native,
                plan: planned(native, sizes)->Ok_0,
            },
        ),
{
    lemma_watermark_covers(native, sizes.down_gives as int);
}

/// A fresh adapter at the pipeline's own rate is in step.
pub proof fn law_fresh_adapter_is_in_step<T, R>(
    native: StageDescriptor,
    sizes: ConverterSizes,
    stage: T,
)
    requires
        native.sample_rate == PIPELINE_SAMPLE_RATE,
        planned(native, sizes) is Ok,
    ensures
        adapter_in_step(
            AdapterMemory {
                inner: AdapterState {
                    stage,
                    down: None::<R>,
                    up: None::<R>,
                    native_input: Seq::empty(),
                    native_output: Seq::empty(),
                    pipeline_output: Seq::empty(),
                    started: false,
                },
                native,
                plan: planned(native, sizes)->Ok_0,
            },
        ),
{
    lemma_scaled_is_natural(native.frame_samples as int, PIPELINE_SAMPLE_RATE as int);
}

/// A multiple of the frame that misses a count by less than a frame is what
/// whole frames make of it.
proof fn lemma_whole_frames_unique(samples: int, frame: int, calls: int)
    requires
        frame > 0,
        samples >= 0,
        0 <= samples - calls * frame < frame,
    ensures
        calls * frame == samples / frame * frame,
{
    lemma_whole_frames(samples, frame);
    let q = samples / frame;
    assert(calls == q) by (nonlinear_arith)
        requires
            frame > 0,
            0 <= samples - calls * frame < frame,
            0 <= samples - q * frame < frame,
    ;
}

/// An adapter at the pipeline's own rate is silent for exactly as many frames
/// as its plan says, and then plays: its declared delay is its real one.
pub proof fn law_silence_lasts_the_startup<A: AudioStage, R: FixedResampler>(
    memory: AdapterMemory<A::State, R>,
    input: Seq<u32>,
    fed: int,
)
    requires
        adapter_in_step(memory),
        input.len() == PIPELINE_FRAME_SAMPLES,
        forall|state: A::State, block: Seq<u32>|
            (#[trigger] A::outcome(state, block)) matches Ok(output) ==> output.len()
                == memory.native.frame_samples,
        taken_in::<A, R>(memory, input) is Ok,
        startup_sizes(memory.native, PIPELINE_FRAME_SAMPLES as int).startup(1) == Ok::<
            int,
            Seq<char>,
        >(memory.plan.startup as int),
        0 <= fed <= memory.plan.startup,
        !memory.inner.started,
        memory.inner.pipeline_output.len() == startup_sizes(
            memory.native,
            PIPELINE_FRAME_SAMPLES as int,
        ).produced(fed),
        memory.inner.native_input.len() == fed * PIPELINE_FRAME_SAMPLES
            - memory.inner.pipeline_output.len(),
    ensures
        ({
            let next = adapter_next::<A, R>(memory, input).inner;
            &&& next.started == (fed == memory.plan.startup)
            &&& fed < memory.plan.startup ==> {
                &&& next.pipeline_output.len() == startup_sizes(
                    memory.native,
                    PIPELINE_FRAME_SAMPLES as int,
                ).produced(fed + 1)
                &&& next.native_input.len() == (fed + 1) * PIPELINE_FRAME_SAMPLES
                    - next.pipeline_output.len()
            }
        }),
{
    let frame = memory.native.frame_samples as int;
    let sizes = startup_sizes(memory.native, PIPELINE_FRAME_SAMPLES as int);
    let start = AdapterState {
        down: None::<R>,
        native_input: memory.inner.native_input + input,
        ..memory.inner
    };
    lemma_models_keep_count::<A, R>(start, frame as nat);
    law_startup_is_shortest(sizes, 1);
    assert(modelled::<A, R>(start, frame as nat) is Ok);
    let after = modelled::<A, R>(start, frame as nat)->Ok_0;
    let calls = choose|calls: int|
        after.native_output.len() == start.native_output.len() + #[trigger] (calls
            * frame as nat as int);
    let before = (fed * PIPELINE_FRAME_SAMPLES) / frame;
    let total = (fed + 1) * PIPELINE_FRAME_SAMPLES;
    let state = taken_in::<A, R>(memory, input)->Ok_0;
    assert(state.pipeline_output.len() == before * frame + calls * frame);
    assert((before + calls) * frame == before * frame + calls * frame) by (nonlinear_arith);
    lemma_whole_frames_unique(total, frame, before + calls);
    assert(state.pipeline_output.len() == sizes.produced(fed + 1));
}

/// How a whole clip is brought to another rate.
#[derive(Debug, Clone, Copy, PartialEq, Eq, Structural)]
pub enum ClipConversion {
    /// The clip already has the rate.
    Unchanged,
    /// The clip is converted.
    Convert,
}

/// Decides how a clip is brought to another rate.
pub fn plan_clip(input_sample_rate: u32, output_sample_rate: u32) -> (result: Result<
    ClipConversion,
    StageError,
>)
    ensures
        if input_sample_rate == 0 || output_sample_rate == 0 {
            stage::failed(
                result,
                stage::misconfigured("file-resampler"@, "sample rates must be non-zero"@),
            )
        } else if input_sample_rate == output_sample_rate {
            result == Ok::<ClipConversion, StageError>(ClipConversion::Unchanged)
        } else {
            result == Ok::<ClipConversion, StageError>(ClipConversion::Convert)
        },
{
    if input_sample_rate == 0 || output_sample_rate == 0 {
        return Err(invalid_configuration("file-resampler", "sample rates must be non-zero"));
    }
    if input_sample_rate == output_sample_rate {
        return Ok(ClipConversion::Unchanged);
    }
    Ok(ClipConversion::Convert)
}

/// A converted clip at the length its rate asks for: cut, or padded with
/// silence.
pub fn resample_clip(
    input_len: usize,
    input_sample_rate: u32,
    output_sample_rate: u32,
    converted: Vec<u32>,
) -> (result: Result<Vec<u32>, StageError>)
    requires
        input_sample_rate > 0,
    ensures
        if input_len * output_sample_rate > usize::MAX {
            stage::failed(
                result,
                stage::misconfigured("file-resampler"@, "output length overflow"@),
            )
        } else {
            &&& result matches Ok(clip)
            &&& clip@ == offline::aligned(
                converted@,
                0,
                scaled(
                    input_len as int,
                    input_sample_rate as int,
                    output_sample_rate as int,
                ) as nat,
            )
        },
{
    let numerator: usize = match input_len.checked_mul(output_sample_rate as usize) {
        Some(numerator) => numerator,
        None => {
            return Err(invalid_configuration("file-resampler", "output length overflow"));
        },
    };
    let expected: usize = div_ceil(numerator, input_sample_rate as usize);
    Ok(offline::align_output(&converted, 0, expected))
}

/// A count at another rate is rounded up to whole samples, and by less than one.
pub proof fn law_scaled_rounds_up(samples: int, from_rate: int, to_rate: int)
    requires
        samples >= 0,
        from_rate > 0,
        to_rate >= 0,
    ensures
        samples * to_rate <= scaled(samples, from_rate, to_rate) * from_rate < samples * to_rate
            + from_rate,
{
    let product = samples * to_rate;
    let n = product + from_rate - 1;
    let q = n / from_rate;
    vstd::arithmetic::div_mod::lemma_fundamental_div_mod(n, from_rate);
    vstd::arithmetic::div_mod::lemma_mod_bound(n, from_rate);
    assert(from_rate * q == q * from_rate) by (nonlinear_arith);
}

/// What a plan promises of time: the delay covers the startup, the stage's own delay
/// and both converters', each rounded up to whole pipeline samples and by less than
/// one; the tail covers the stage's own tail, rounded up to whole frames; and a stage
/// whose frames do not fill the quanta collects one of its frames more than a
/// pipeline frame before it plays.
pub proof fn law_plan_counts_every_delay(native: StageDescriptor, sizes: ConverterSizes)
    requires
        planned(native, sizes) is Ok,
        usable(native, sizes),
    ensures
        ({
            let plan = planned(native, sizes)->Ok_0;
            let rate = native.sample_rate as int;
            let pipeline = PIPELINE_SAMPLE_RATE as int;
            let converts = rate != pipeline;
            let own = native.algorithmic_delay_samples as int;
            let tail = native.tail_frames * native.frame_samples;
            let down_lag = if converts {
                sizes.down_lag as int
            } else {
                0
            };
            let up_lag = if converts {
                sizes.up_lag as int
            } else {
                0
            };
            let left = plan.delay - plan.startup * PIPELINE_FRAME_SAMPLES - up_lag;
            &&& rate > 0
            &&& native.frame_samples > 0
            &&& converts ==> sizes.down_takes == PIPELINE_FRAME_SAMPLES && sizes.up_gives
                == PIPELINE_FRAME_SAMPLES && sizes.up_takes == sizes.down_gives
            &&& plan.native_per_quantum == (if converts {
                sizes.down_gives
            } else {
                PIPELINE_FRAME_SAMPLES
            })
            &&& plan.upsampler_input == (if converts {
                sizes.up_takes
            } else {
                1
            })
            &&& (own + down_lag) * pipeline <= left * rate < (own + down_lag) * pipeline + 2 * rate
            &&& tail * pipeline <= plan.tail_frames * PIPELINE_FRAME_SAMPLES * rate < tail
                * pipeline + (PIPELINE_FRAME_SAMPLES + 1) * rate
            &&& plan.native_per_quantum % native.frame_samples == 0 ==> plan.watermark
                == PIPELINE_FRAME_SAMPLES
            &&& plan.native_per_quantum % native.frame_samples != 0 ==> native.frame_samples
                * pipeline <= (plan.watermark - PIPELINE_FRAME_SAMPLES) * rate
                < native.frame_samples * pipeline + rate
        }),
{
    let plan = planned(native, sizes)->Ok_0;
    let rate = native.sample_rate as int;
    let pipeline = PIPELINE_SAMPLE_RATE as int;
    let own = native.algorithmic_delay_samples as int;
    let tail = native.tail_frames * native.frame_samples;
    let (per_quantum, conversion_delay) = conversion(native, sizes)->Ok_0;
    law_startup_is_shortest(startup_sizes(native, per_quantum), 1);
    law_scaled_rounds_up(own, rate, pipeline);
    assert(tail >= 0) by (nonlinear_arith)
        requires
            tail == native.tail_frames * native.frame_samples,
            native.tail_frames >= 0,
            native.frame_samples >= 0,
    ;
    law_scaled_rounds_up(tail, rate, pipeline);
    law_scaled_rounds_up(native.frame_samples as int, rate, pipeline);
    let converts = rate != pipeline;
    let down_lag = if converts {
        sizes.down_lag as int
    } else {
        0
    };
    law_scaled_rounds_up(down_lag, rate, pipeline);
    let model = scaled(own, rate, pipeline);
    let filter = scaled(down_lag, rate, pipeline);
    if !converts {
        assert(filter == 0);
    }
    assert((model + filter) * rate == model * rate + filter * rate) by (nonlinear_arith);
    lemma_scaled_is_natural(own, rate);
    lemma_scaled_is_natural(native.frame_samples as int, rate);
    lemma_scaled_is_natural(tail, rate);
    lemma_scaled_is_natural(down_lag, rate);
    let frames = offline::frames_for(scaled(tail, rate, pipeline));
    let samples = scaled(tail, rate, pipeline);
    assert(samples <= frames * PIPELINE_FRAME_SAMPLES < samples + PIPELINE_FRAME_SAMPLES);
    assert(tail * pipeline <= frames * PIPELINE_FRAME_SAMPLES * rate < tail * pipeline + (
    PIPELINE_FRAME_SAMPLES + 1) * rate) by (nonlinear_arith)
        requires
            samples <= frames * PIPELINE_FRAME_SAMPLES < samples + PIPELINE_FRAME_SAMPLES,
            tail * pipeline <= samples * rate < tail * pipeline + rate,
            rate > 0,
    ;
    assert(samples <= usize::MAX) by {
        assert(samples <= tail * pipeline) by (nonlinear_arith)
            requires
                samples * rate < tail * pipeline + rate,
                rate >= 1,
                tail * pipeline >= 0,
        ;
    }
    assert(frames <= samples || samples == 0);
}

} // verus!
