//! Adapts a [`Stage`] to the host's sample rate and block size.
//!
//! Every model has its own native rate and its own block size, while the host
//! audio path delivers whatever the device's buffer size happens to be. The
//! runner absorbs both mismatches so that callers — the real-time engine and
//! the offline tools alike — only ever see "N samples in, N samples out at the
//! host rate".

use vstd::prelude::*;

use crate::signal::error::Error;
use crate::signal::frames;
use crate::signal::ring;
use crate::signal::ring::SampleQueue;
use crate::signal::single;
use crate::signal::single::to_milliseconds;
use crate::signal::stage::{fill_silence, Passthrough, Stage, StageSpec};

verus! {

/// Extra samples of priming beyond the strict minimum, to absorb the
/// one-sample rounding each converter can contribute.
pub const PRIMING_MARGIN: usize = 8;

/// Converts a stream from one sample rate to another.
///
/// Like a stage, a converter is a deterministic machine.
///
/// The specification functions say what an implementation does. One that is
/// written in ordinary Rust leaves them at their defaults, which say nothing.
pub trait RateConverter: Send + Sized {
    /// The samples produced for a block.
    open spec fn converted(&self, input: Seq<u32>) -> Seq<u32> {
        arbitrary()
    }

    /// The converter after it processed a block.
    open spec fn after(&self, input: Seq<u32>) -> Self {
        arbitrary()
    }

    /// The converter after a reset.
    open spec fn cleared(&self) -> Self {
        arbitrary()
    }

    /// An upper bound on the samples produced for a block of this length.
    open spec fn bound(&self, len: nat) -> nat {
        arbitrary()
    }

    /// Group delay in input-rate samples.
    open spec fn delay_in(&self) -> nat {
        arbitrary()
    }

    /// Group delay in output-rate samples.
    open spec fn delay_out(&self) -> nat {
        arbitrary()
    }

    /// An upper bound on the samples produced for a block of this length.
    fn max_output_len(&self, len: usize) -> (bound: usize)
        ensures
            bound == self.bound(len as nat),
    ;

    /// Group delay in input-rate samples.
    fn group_delay_input_samples(&self) -> (delay: usize)
        ensures
            delay == self.delay_in(),
    ;

    /// Group delay in output-rate samples.
    fn group_delay_output_samples(&self) -> (delay: usize)
        ensures
            delay == self.delay_out(),
    ;

    /// Appends the conversion of `input` to `output`.
    fn process(&mut self, input: &[u32], output: &mut Vec<u32>)
        ensures
            final(output)@ == old(output)@ + old(self).converted(input@),
            *final(self) == old(self).after(input@),
    ;

    /// Restarts the stream.
    fn reset(&mut self)
        ensures
            *final(self) == old(self).cleared(),
    ;
}

/// The converter between two equal rates: every sample passes unchanged.
#[derive(Debug, Clone, Copy)]
pub struct Direct;

impl RateConverter for Direct {
    open spec fn converted(&self, input: Seq<u32>) -> Seq<u32> {
        input
    }

    open spec fn after(&self, input: Seq<u32>) -> Self {
        *self
    }

    open spec fn cleared(&self) -> Self {
        *self
    }

    open spec fn bound(&self, len: nat) -> nat {
        len
    }

    open spec fn delay_in(&self) -> nat {
        0
    }

    open spec fn delay_out(&self) -> nat {
        0
    }

    fn max_output_len(&self, len: usize) -> (bound: usize) {
        len
    }

    fn group_delay_input_samples(&self) -> (delay: usize) {
        0
    }

    fn group_delay_output_samples(&self) -> (delay: usize) {
        0
    }

    fn process(&mut self, input: &[u32], output: &mut Vec<u32>) {
        output.extend_from_slice(input);
        assert(output@ =~= old(output)@ + input@);
    }

    fn reset(&mut self) {
    }
}

/// The smaller of two numbers.
pub open spec fn at_most(value: int, limit: int) -> int {
    if value <= limit {
        value
    } else {
        limit
    }
}

/// A sample count of one rate, expressed at another: `samples * to / from`
/// rounded to nearest, where each step saturates at the largest number its
/// type holds.
pub open spec fn rescaled(samples: int, from_rate: int, to_rate: int) -> int {
    if from_rate == to_rate {
        samples
    } else {
        at_most(
            at_most(at_most(samples * to_rate, u64::MAX as int) + from_rate / 2, u64::MAX as int)
                / from_rate,
            usize::MAX as int,
        )
    }
}

/// Without saturation the rescaled count is the nearest one: it misses
/// `samples * to / from` by at most half a sample.
pub proof fn law_rescaled_is_nearest(samples: int, from_rate: int, to_rate: int)
    requires
        samples >= 0,
        from_rate > 0,
        to_rate >= 0,
        samples * to_rate + from_rate / 2 <= u64::MAX,
        (samples * to_rate + from_rate / 2) / from_rate <= usize::MAX,
    ensures
        2 * (rescaled(samples, from_rate, to_rate) * from_rate - samples * to_rate) <= from_rate,
        2 * (samples * to_rate - rescaled(samples, from_rate, to_rate) * from_rate) <= from_rate,
{
    let product = samples * to_rate;
    let sum = product + from_rate / 2;
    if from_rate == to_rate {
    } else {
        vstd::arithmetic::div_mod::lemma_fundamental_div_mod(sum, from_rate);
        vstd::arithmetic::div_mod::lemma_mod_bound(sum, from_rate);
        assert(from_rate * (sum / from_rate) == (sum / from_rate) * from_rate)
            by (nonlinear_arith);
        assert(rescaled(samples, from_rate, to_rate) == sum / from_rate);
    }
}

/// Converts a sample count from `from_rate` to `to_rate`, rounding to nearest.
pub fn scale_rate(samples: usize, from_rate: u32, to_rate: u32) -> (scaled: usize)
    requires
        from_rate > 0 || from_rate == to_rate,
    ensures
        scaled == rescaled(samples as int, from_rate as int, to_rate as int),
{
    if from_rate == to_rate {
        return samples;
    }
    let product: u64 = match (samples as u64).checked_mul(to_rate as u64) {
        Some(product) => product,
        None => u64::MAX,
    };
    let sum: u64 = product.saturating_add((from_rate / 2) as u64);
    let scaled: u64 = sum / (from_rate as u64);
    if scaled > usize::MAX as u64 {
        usize::MAX
    } else {
        scaled as usize
    }
}

/// What a queue of the given capacity holds after a push: the samples that do
/// not fit are dropped.
pub open spec fn queued(held: Seq<u32>, pushed: Seq<u32>, capacity: nat) -> Seq<u32> {
    held + pushed.take(at_most(pushed.len() as int, capacity - held.len()))
}

/// The state of a runner.
pub struct RunnerState<S, C> {
    /// The wrapped stage.
    pub stage: S,
    /// Converter from the host rate to the stage's rate.
    pub to_stage: C,
    /// Converter from the stage's rate to the host rate.
    pub from_stage: C,
    /// Stage-rate samples waiting to fill a block.
    pub pending: Seq<u32>,
    /// Host-rate samples ready to be emitted.
    pub ready: Seq<u32>,
    /// How many of the stage-rate samples fit.
    pub pending_capacity: nat,
    /// How many of the host-rate samples fit.
    pub ready_capacity: nat,
    /// How often the output ran dry.
    pub underruns: nat,
}

/// What running every complete block leads to: the state afterwards, and the
/// error of the first block that the stage refused.
pub open spec fn drained<S: Stage, C: RateConverter>(
    state: RunnerState<S, C>,
    block: nat,
) -> (RunnerState<S, C>, Option<Error>)
    decreases state.pending.len(),
{
    if block == 0 || state.pending.len() < block {
        (state, None)
    } else {
        let input = state.pending.take(block as int);
        let rest = state.pending.skip(block as int);
        match state.stage.outcome(input) {
            Err(error) => (RunnerState { pending: rest, ..state }, Some(error)),
            Ok(output) => drained(
                RunnerState {
                    stage: state.stage.after(input),
                    from_stage: state.from_stage.after(output),
                    pending: rest,
                    ready: queued(
                        state.ready,
                        state.from_stage.converted(output),
                        state.ready_capacity,
                    ),
                    ..state
                },
                block,
            ),
        }
    }
}

/// The runner once a host block is converted and queued.
pub open spec fn fed<S: Stage, C: RateConverter>(
    state: RunnerState<S, C>,
    input: Seq<u32>,
) -> RunnerState<S, C> {
    RunnerState {
        to_stage: state.to_stage.after(input),
        pending: queued(
            state.pending,
            state.to_stage.converted(input),
            state.pending_capacity,
        ),
        ..state
    }
}

/// The `len` samples a runner emits: what is ready, then silence.
pub open spec fn emitted(ready: Seq<u32>, len: nat) -> Seq<u32> {
    ready.take(at_most(ready.len() as int, len as int)) + ring::silence(
        (len - at_most(ready.len() as int, len as int)) as nat,
    )
}

/// The runner once it has emitted `len` samples.
pub open spec fn emptied<S, C>(state: RunnerState<S, C>, len: nat) -> RunnerState<S, C> {
    RunnerState {
        ready: state.ready.skip(at_most(state.ready.len() as int, len as int)),
        underruns: if state.ready.len() < len {
            at_most(state.underruns + 1int, u64::MAX as int) as nat
        } else {
            state.underruns
        },
        ..state
    }
}

/// Runs one stage at the host rate and block size.
pub struct StageRunner<S: Stage, C: RateConverter> {
    stage: S,
    spec: StageSpec,
    host_rate: u32,
    max_host_block: usize,
    to_stage: C,
    from_stage: C,
    pending_input: SampleQueue,
    ready_output: SampleQueue,
    latency_samples: usize,
    underruns: u64,
}

impl<S: Stage, C: RateConverter> View for StageRunner<S, C> {
    type V = RunnerState<S, C>;

    closed spec fn view(&self) -> RunnerState<S, C> {
        RunnerState {
            stage: self.stage,
            to_stage: self.to_stage,
            from_stage: self.from_stage,
            pending: self.pending_input@,
            ready: self.ready_output@,
            pending_capacity: self.pending_input.spec_capacity(),
            ready_capacity: self.ready_output.spec_capacity(),
            underruns: self.underruns as nat,
        }
    }
}

/// Samples of silence that go ahead of a stage's output: one stage block at
/// the host rate, plus the margin.
pub open spec fn priming(spec: StageSpec, host_rate: u32) -> int {
    rescaled(spec.block_size as int, spec.sample_rate as int, host_rate as int) + PRIMING_MARGIN
}

/// The end-to-end delay of a runner, in host samples.
pub open spec fn end_to_end<C: RateConverter>(
    spec: StageSpec,
    host_rate: u32,
    to_stage: C,
    from_stage: C,
) -> int {
    priming(spec, host_rate) + to_stage.delay_in() + rescaled(
        spec.latency_samples as int,
        spec.sample_rate as int,
        host_rate as int,
    ) + from_stage.delay_out()
}

/// How many host samples a runner must be able to hold ready.
pub open spec fn ready_capacity(spec: StageSpec, host_rate: u32, max_host_block: usize) -> int {
    2 * priming(spec, host_rate) + max_host_block
}

/// Whether the sizes of a runner for this stage can be counted, unless it is
/// refused anyway.
pub open spec fn adaptable<S: Stage, C: RateConverter>(
    stage: S,
    to_stage: C,
    from_stage: C,
    host_rate: u32,
    max_host_block: usize,
) -> bool {
    let spec = stage.description();
    max_host_block > 0 && spec.block_size > 0 ==> {
        &&& spec.sample_rate > 0
        &&& ready_capacity(spec, host_rate, max_host_block) <= usize::MAX
        &&& spec.block_size + to_stage.bound(max_host_block as nat) + PRIMING_MARGIN <= usize::MAX
        &&& end_to_end(spec, host_rate, to_stage, from_stage) <= usize::MAX
    }
}

/// The state of a new runner.
pub open spec fn fresh<S: Stage, C: RateConverter>(
    stage: S,
    to_stage: C,
    from_stage: C,
    host_rate: u32,
    max_host_block: usize,
) -> RunnerState<S, C> {
    let spec = stage.description();
    RunnerState {
        stage,
        to_stage,
        from_stage,
        pending: Seq::empty(),
        ready: ring::silence(priming(spec, host_rate) as nat),
        pending_capacity: (spec.block_size + to_stage.bound(max_host_block as nat)
            + PRIMING_MARGIN) as nat,
        ready_capacity: ready_capacity(spec, host_rate, max_host_block) as nat,
        underruns: 0,
    }
}

impl<S: Stage, C: RateConverter> StageRunner<S, C> {
    /// The wrapped stage's description, as the runner read it.
    pub closed spec fn spec_of(&self) -> StageSpec {
        self.spec
    }

    /// The host rate.
    pub closed spec fn rate(&self) -> u32 {
        self.host_rate
    }

    /// The largest accepted host block.
    pub closed spec fn block_limit(&self) -> usize {
        self.max_host_block
    }

    /// The reported delay.
    pub closed spec fn latency(&self) -> usize {
        self.latency_samples
    }

    /// Whether the queues are intact, the sizes usable, and the priming fits.
    pub closed spec fn wf(&self) -> bool {
        &&& self.pending_input.wf()
        &&& self.ready_output.wf()
        &&& self.spec.block_size > 0
        &&& self.spec.sample_rate > 0
        &&& priming(self.spec, self.host_rate) <= self.ready_output.spec_capacity() <= usize::MAX
    }

    /// Wraps `stage` for use at `host_rate` with host blocks of at most
    /// `max_host_block` samples, with converters for the two directions.
    pub fn new(
        stage: S,
        to_stage: C,
        from_stage: C,
        host_rate: u32,
        max_host_block: usize,
    ) -> (result: Result<Self, Error>)
        requires
            adaptable(stage, to_stage, from_stage, host_rate, max_host_block),
        ensures
            match result {
                Ok(runner) => {
                    &&& max_host_block > 0
                    &&& stage.description().block_size > 0
                    &&& runner.wf()
                    &&& runner.spec_of() == stage.description()
                    &&& runner.rate() == host_rate
                    &&& runner.block_limit() == max_host_block
                    &&& runner.latency() == end_to_end(
                        stage.description(),
                        host_rate,
                        to_stage,
                        from_stage,
                    )
                    &&& runner@ == fresh(stage, to_stage, from_stage, host_rate, max_host_block)
                },
                Err(Error::InvalidConfiguration(reason)) => {
                    ||| max_host_block == 0 && reason@ == "max_host_block must be non-zero"@
                    ||| max_host_block > 0 && stage.description().block_size == 0 && reason@
                        == "stage block size must be non-zero"@
                },
                Err(_) => false,
            },
    {
        if max_host_block == 0 {
            return Err(Error::InvalidConfiguration("max_host_block must be non-zero".to_owned()));
        }
        let spec = stage.spec();
        if spec.block_size == 0 {
            return Err(
                Error::InvalidConfiguration("stage block size must be non-zero".to_owned()),
            );
        }
        let block_in_host: usize = scale_rate(spec.block_size, spec.sample_rate, host_rate);
        let priming: usize = block_in_host + PRIMING_MARGIN;
        let bound: usize = to_stage.max_output_len(max_host_block);
        let pending_capacity: usize = spec.block_size + bound + PRIMING_MARGIN;
        let ready_capacity: usize = priming + block_in_host + max_host_block + PRIMING_MARGIN;
        let model_delay: usize = scale_rate(spec.latency_samples, spec.sample_rate, host_rate);
        let latency_samples: usize = priming + to_stage.group_delay_input_samples() + model_delay
            + from_stage.group_delay_output_samples();
        let mut ready_output = SampleQueue::new(ready_capacity);
        ready_output.push_silence(priming);
        assert(ready_output@ =~= ring::silence(priming as nat));
        Ok(
            StageRunner {
                stage,
                spec,
                host_rate,
                max_host_block,
                to_stage,
                from_stage,
                pending_input: SampleQueue::new(pending_capacity),
                ready_output,
                latency_samples,
                underruns: 0,
            },
        )
    }

    /// The wrapped stage's own description.
    pub fn stage_spec(&self) -> (spec: StageSpec)
        ensures
            spec == self.spec_of(),
    {
        self.spec
    }

    /// Host sample rate this runner operates at.
    pub fn host_rate(&self) -> (rate: u32)
        ensures
            rate == self.rate(),
    {
        self.host_rate
    }

    /// Largest host block this runner accepts.
    pub fn max_host_block(&self) -> (limit: usize)
        ensures
            limit == self.block_limit(),
    {
        self.max_host_block
    }

    /// End-to-end delay from input to output, in host-rate samples.
    pub fn latency_samples(&self) -> (latency: usize)
        ensures
            latency == self.latency(),
    {
        self.latency_samples
    }

    /// The reported delay in milliseconds, as a bit pattern.
    pub open spec fn shown_latency(&self) -> u32 {
        single::milliseconds(self.latency() as int, self.rate() as int) as u32
    }

    /// End-to-end delay in milliseconds, as a bit pattern.
    pub fn latency_ms(&self) -> (bits: u32)
        ensures
            bits == self.shown_latency(),
            bits == single::milliseconds(self.latency() as int, self.rate() as int),
    {
        to_milliseconds(self.latency_samples, self.host_rate)
    }

    /// How many times the output queue ran dry and had to emit silence.
    pub fn underruns(&self) -> (underruns: u64)
        ensures
            underruns == self@.underruns,
    {
        self.underruns
    }

    /// Returns the wrapped stage, consuming the runner.
    pub fn into_stage(self) -> (stage: S)
        ensures
            stage == self@.stage,
    {
        self.stage
    }

    /// Resets the stage, both converters, and all queues.
    pub fn reset(&mut self)
        requires
            old(self).wf(),
        ensures
            final(self).wf(),
            final(self).spec_of() == old(self).spec_of(),
            final(self).rate() == old(self).rate(),
            final(self).block_limit() == old(self).block_limit(),
            final(self).latency() == old(self).latency(),
            final(self)@ == (RunnerState {
                stage: old(self)@.stage.cleared(),
                to_stage: old(self)@.to_stage.cleared(),
                from_stage: old(self)@.from_stage.cleared(),
                pending: Seq::empty(),
                ready: ring::silence(priming(old(self).spec_of(), old(self).rate()) as nat),
                underruns: 0,
                ..old(self)@
            }),
    {
        self.stage.reset();
        self.to_stage.reset();
        self.from_stage.reset();
        self.pending_input.clear();
        self.ready_output.clear();
        let priming: usize = scale_rate(
            self.spec.block_size,
            self.spec.sample_rate,
            self.host_rate,
        ) + PRIMING_MARGIN;
        self.ready_output.push_silence(priming);
        assert(self.ready_output@ =~= ring::silence(priming as nat));
        self.underruns = 0;
    }

    /// Runs the stage on every complete block that is pending.
    fn run_blocks(&mut self) -> (result: Result<(), Error>)
        requires
            old(self).wf(),
        ensures
            final(self).wf(),
            final(self).spec_of() == old(self).spec_of(),
            final(self).rate() == old(self).rate(),
            final(self).block_limit() == old(self).block_limit(),
            final(self).latency() == old(self).latency(),
            match drained(old(self)@, old(self).spec_of().block_size as nat).1 {
                None => {
                    &&& result is Ok
                    &&& final(self)@ == drained(
                        old(self)@,
                        old(self).spec_of().block_size as nat,
                    ).0
                },
                Some(error) => {
                    &&& result == Err::<(), Error>(error)
                    &&& (RunnerState { stage: final(self)@.stage, ..drained(
                        old(self)@,
                        old(self).spec_of().block_size as nat,
                    ).0 }) == final(self)@
                },
            },
    {
        let block: usize = self.spec.block_size;
        while self.pending_input.len() >= block
            invariant
                self.wf(),
                block == self.spec.block_size,
                self.spec == old(self).spec,
                self.host_rate == old(self).host_rate,
                self.max_host_block == old(self).max_host_block,
                self.latency_samples == old(self).latency_samples,
                drained(self@, block as nat) == drained(old(self)@, block as nat),
            decreases self.pending_input@.len(),
        {
            let ghost before = self@;
            let mut stage_input: Vec<u32> = vec![0; block];
            let mut stage_output: Vec<u32> = vec![0; block];
            self.pending_input.pop(stage_input.as_mut_slice());
            assert(stage_input@ =~= before.pending.take(block as int));
            let answer = self.stage.process(stage_input.as_slice(), stage_output.as_mut_slice());
            match answer {
                Err(error) => {
                    return Err(error);
                },
                Ok(()) => {},
            }
            let mut converted: Vec<u32> = Vec::new();
            self.from_stage.process(stage_output.as_slice(), &mut converted);
            assert(converted@ =~= before.from_stage.converted(stage_output@));
            proof {
                self.ready_output.lemma_capacity();
            }
            self.ready_output.push(converted.as_slice());
        }
        Ok(())
    }

    /// Processes one host block.
    ///
    /// `input` and `output` must be the same length, which must not exceed
    /// [`StageRunner::max_host_block`].
    pub fn process(&mut self, input: &[u32], output: &mut [u32]) -> (result: Result<(), Error>)
        requires
            old(self).wf(),
        ensures
            final(self).wf(),
            final(self).spec_of() == old(self).spec_of(),
            final(self).rate() == old(self).rate(),
            final(self).block_limit() == old(self).block_limit(),
            final(self).latency() == old(self).latency(),
            final(output)@.len() == old(output)@.len(),
            if input@.len() != old(output)@.len() {
                &&& result == Err::<(), Error>(
                    Error::BufferLength {
                        expected: input@.len() as usize,
                        actual: old(output)@.len() as usize,
                    },
                )
                &&& *final(self) == *old(self)
                &&& final(output)@ == old(output)@
            } else if input@.len() > old(self).block_limit() {
                &&& result == Err::<(), Error>(
                    Error::BufferLength {
                        expected: old(self).block_limit(),
                        actual: input@.len() as usize,
                    },
                )
                &&& *final(self) == *old(self)
                &&& final(output)@ == old(output)@
            } else {
                let run = drained(
                    fed(old(self)@, input@),
                    old(self).spec_of().block_size as nat,
                );
                match run.1 {
                    None => {
                        &&& result is Ok
                        &&& final(output)@ == emitted(run.0.ready, input@.len())
                        &&& final(self)@ == emptied(run.0, input@.len())
                    },
                    Some(error) => {
                        &&& result == Err::<(), Error>(error)
                        &&& final(output)@ == old(output)@
                        &&& final(self)@ == (RunnerState { stage: final(self)@.stage, ..run.0 })
                    },
                }
            },
    {
        if input.len() != output.len() {
            return Err(Error::BufferLength { expected: input.len(), actual: output.len() });
        }
        if input.len() > self.max_host_block {
            return Err(
                Error::BufferLength { expected: self.max_host_block, actual: input.len() },
            );
        }
        let mut converted: Vec<u32> = Vec::new();
        self.to_stage.process(input, &mut converted);
        assert(converted@ =~= old(self).to_stage.converted(input@));
        proof {
            self.pending_input.lemma_capacity();
        }
        self.pending_input.push(converted.as_slice());
        assert(self@ == fed(old(self)@, input@));
        let ran = self.run_blocks();
        match ran {
            Err(error) => {
                return Err(error);
            },
            Ok(()) => {},
        }
        let ghost ready = self.ready_output@;
        let taken: usize = self.ready_output.pop(output);
        if taken < output.len() {
            fill_silence(output, taken);
            self.underruns = self.underruns.saturating_add(1);
        }
        assert(output@ =~= emitted(ready, input@.len()));
        Ok(())
    }
}

/// A bypass at the host rate loses, adds and reorders nothing: what was ready
/// and pending, followed by the block fed in, is what is ready and pending
/// once every complete block has run.
proof fn lemma_bypass_keeps_the_stream(state: RunnerState<Passthrough, Direct>, block: nat)
    requires
        block > 0,
        block == state.stage.description().block_size,
        state.ready.len() + state.pending.len() <= state.ready_capacity,
    ensures
        drained(state, block).1 is None,
        drained(state, block).0 == (RunnerState {
            pending: drained(state, block).0.pending,
            ready: drained(state, block).0.ready,
            ..state
        }),
        drained(state, block).0.pending.len() < block,
        drained(state, block).0.ready + drained(state, block).0.pending == state.ready
            + state.pending,
    decreases state.pending.len(),
{
    if state.pending.len() >= block {
        let input = state.pending.take(block as int);
        let next = RunnerState {
            stage: state.stage.after(input),
            from_stage: state.from_stage.after(input),
            pending: state.pending.skip(block as int),
            ready: queued(state.ready, state.from_stage.converted(input), state.ready_capacity),
            ..state
        };
        assert(state.stage.outcome(input) == Ok::<Seq<u32>, Error>(input));
        assert(next.ready =~= state.ready + input);
        lemma_bypass_keeps_the_stream(next, block);
        assert(next.ready + next.pending =~= state.ready + state.pending);
    }
}

/// The samples of a bypass at the host rate that are still inside the runner,
/// in the order in which they will leave.
pub open spec fn inside(state: RunnerState<Passthrough, Direct>) -> Seq<u32> {
    state.ready + state.pending
}

/// Whether a bypass runner at the host rate is in step: it runs blocks of the
/// stage's size, less than a block is pending, and exactly the priming is
/// inside.
pub open spec fn in_step(
    state: RunnerState<Passthrough, Direct>,
    block: nat,
    max_host_block: nat,
) -> bool {
    &&& block > 0
    &&& block == state.stage.description().block_size
    &&& state.pending.len() < block
    &&& inside(state).len() == block + PRIMING_MARGIN
    &&& state.pending_capacity == block + max_host_block + PRIMING_MARGIN
    &&& state.ready_capacity == 2 * (block + PRIMING_MARGIN) + max_host_block
}

/// What a bypass runner emits for a host block, and its state afterwards.
pub open spec fn bypassed(
    state: RunnerState<Passthrough, Direct>,
    input: Seq<u32>,
    block: nat,
) -> (Seq<u32>, RunnerState<Passthrough, Direct>) {
    let run = drained(fed(state, input), block).0;
    (emitted(run.ready, input.len()), emptied(run, input.len()))
}

/// Running a bypass at the host rate is a pure delay line: the block that
/// comes out, followed by what stays inside, is what was inside, followed by
/// the block that went in. No block fails and none underruns.
pub proof fn law_bypass_is_a_delay_line(
    state: RunnerState<Passthrough, Direct>,
    input: Seq<u32>,
    block: nat,
    max_host_block: nat,
)
    requires
        in_step(state, block, max_host_block),
        input.len() <= max_host_block,
    ensures
        drained(fed(state, input), block).1 is None,
        bypassed(state, input, block).0.len() == input.len(),
        bypassed(state, input, block).0 + inside(bypassed(state, input, block).1) == inside(state)
            + input,
        bypassed(state, input, block).1.underruns == state.underruns,
        in_step(bypassed(state, input, block).1, block, max_host_block),
{
    let start = fed(state, input);
    assert(start.pending =~= state.pending + input);
    lemma_bypass_keeps_the_stream(start, block);
    let run = drained(start, block).0;
    assert((run.ready + run.pending).len() == (start.ready + start.pending).len());
    let end = emptied(run, input.len());
    let out = emitted(run.ready, input.len());
    assert(out =~= run.ready.take(input.len() as int));
    assert(run.ready =~= out + end.ready);
    assert(out + inside(end) =~= run.ready + run.pending);
    assert(run.ready + run.pending == start.ready + start.pending);
    assert(start.ready + start.pending =~= inside(state) + input);
}

/// A fresh bypass runner at the host rate is in step, holds only silence, and
/// reports exactly that silence as its latency.
pub proof fn law_fresh_bypass_is_in_step(
    stage: Passthrough,
    host_rate: u32,
    max_host_block: usize,
)
    requires
        stage.description().sample_rate == host_rate,
        stage.description().latency_samples == 0,
        stage.description().block_size > 0,
    ensures
        in_step(
            fresh(stage, Direct, Direct, host_rate, max_host_block),
            stage.description().block_size as nat,
            max_host_block as nat,
        ),
        inside(fresh(stage, Direct, Direct, host_rate, max_host_block)) == ring::silence(
            end_to_end(stage.description(), host_rate, Direct, Direct) as nat,
        ),
{
    assert(inside(fresh(stage, Direct, Direct, host_rate, max_host_block)) =~= ring::silence(
        end_to_end(stage.description(), host_rate, Direct, Direct) as nat,
    ));
}

/// Everything a bypass runner emits while it is fed `blocks`, one after
/// another.
pub open spec fn streamed(
    state: RunnerState<Passthrough, Direct>,
    blocks: Seq<Seq<u32>>,
    block: nat,
) -> Seq<u32>
    decreases blocks.len(),
{
    if blocks.len() == 0 {
        Seq::empty()
    } else {
        let step = bypassed(state, blocks[0], block);
        step.0 + streamed(step.1, blocks.skip(1), block)
    }
}

/// The blocks in a row.
pub open spec fn joined(blocks: Seq<Seq<u32>>) -> Seq<u32>
    decreases blocks.len(),
{
    if blocks.len() == 0 {
        Seq::empty()
    } else {
        blocks[0] + joined(blocks.skip(1))
    }
}

/// However the host cuts its stream into blocks, a bypass at the host rate
/// returns what was inside and then the stream itself, sample for sample: for
/// a fresh runner that is the stream delayed by the reported latency.
pub proof fn law_bypass_delays_the_stream(
    state: RunnerState<Passthrough, Direct>,
    blocks: Seq<Seq<u32>>,
    block: nat,
    max_host_block: nat,
)
    requires
        in_step(state, block, max_host_block),
        forall|i: int| 0 <= i < blocks.len() ==> #[trigger] blocks[i].len() <= max_host_block,
    ensures
        streamed(state, blocks, block).len() == joined(blocks).len(),
        streamed(state, blocks, block) == (inside(state) + joined(blocks)).take(
            joined(blocks).len() as int,
        ),
    decreases blocks.len(),
{
    if blocks.len() == 0 {
        assert(streamed(state, blocks, block) =~= (inside(state) + joined(blocks)).take(0));
    } else {
        let first = blocks[0];
        let rest = blocks.skip(1);
        assert(first.len() <= max_host_block);
        law_bypass_is_a_delay_line(state, first, block, max_host_block);
        let step = bypassed(state, first, block);
        assert forall|i: int| 0 <= i < rest.len() implies #[trigger] rest[i].len()
            <= max_host_block by {
            assert(rest[i] == blocks[i + 1]);
        }
        law_bypass_delays_the_stream(step.1, rest, block, max_host_block);
        let total = joined(blocks).len() as int;
        let tail = joined(rest);
        assert(joined(blocks) == first + tail);
        assert(inside(state) + joined(blocks) =~= (inside(state) + first) + tail);
        assert((step.0 + inside(step.1)) + tail =~= step.0 + (inside(step.1) + tail));
        assert((step.0 + (inside(step.1) + tail)).take(total) =~= step.0 + (inside(step.1)
            + tail).take(tail.len() as int));
    }
}

/// A stage once it has processed the first `count` blocks of a stream.
pub open spec fn stage_at<S: Stage>(stage: S, stream: Seq<u32>, block: nat, count: nat) -> S
    decreases count,
{
    if count == 0 {
        stage
    } else {
        stage_at(stage, stream, block, (count - 1) as nat).after(
            frames::cut(stream, block, count - 1),
        )
    }
}

/// What a stage answers to block `k` of a stream, having processed those before.
pub open spec fn stage_answer<S: Stage>(
    stage: S,
    stream: Seq<u32>,
    block: nat,
    k: nat,
) -> Result<Seq<u32>, Error> {
    stage_at(stage, stream, block, k).outcome(frames::cut(stream, block, k as int))
}

/// The converter of a stage's answers, once it has converted the first `count` of
/// them.
pub open spec fn converter_at<S: Stage, C: RateConverter>(
    stage: S,
    converter: C,
    stream: Seq<u32>,
    block: nat,
    count: nat,
) -> C
    decreases count,
{
    if count == 0 {
        converter
    } else {
        converter_at(stage, converter, stream, block, (count - 1) as nat).after(
            stage_answer(stage, stream, block, (count - 1) as nat)->Ok_0,
        )
    }
}

/// The first `count` answers of a stage at the host rate, put in a row.
pub open spec fn host_answers<S: Stage, C: RateConverter>(
    stage: S,
    converter: C,
    stream: Seq<u32>,
    block: nat,
    count: nat,
) -> Seq<u32>
    decreases count,
{
    if count == 0 {
        Seq::empty()
    } else {
        let last = (count - 1) as nat;
        host_answers(stage, converter, stream, block, last) + converter_at(
            stage,
            converter,
            stream,
            block,
            last,
        ).converted(stage_answer(stage, stream, block, last)->Ok_0)
    }
}

/// A queue keeps the oldest samples, as many as fit.
pub proof fn law_queue_keeps_what_fits(held: Seq<u32>, pushed: Seq<u32>, capacity: nat)
    requires
        held.len() <= capacity,
    ensures
        held.len() + pushed.len() <= capacity ==> queued(held, pushed, capacity) == held + pushed,
        held.len() + pushed.len() > capacity ==> queued(held, pushed, capacity) == (held
            + pushed).take(capacity as int),
{
    if held.len() + pushed.len() <= capacity {
        assert(queued(held, pushed, capacity) =~= held + pushed);
    } else {
        assert(queued(held, pushed, capacity) =~= (held + pushed).take(capacity as int));
    }
}

proof fn lemma_blocks_go_on<S: Stage, C: RateConverter>(
    now: RunnerState<S, C>,
    state: RunnerState<S, C>,
    block: nat,
    done: nat,
)
    requires
        block > 0,
        state.ready.len() <= state.ready_capacity,
        done * block <= state.pending.len(),
        now == (RunnerState {
            stage: stage_at(state.stage, state.pending, block, done),
            from_stage: converter_at(state.stage, state.from_stage, state.pending, block, done),
            pending: state.pending.skip((done * block) as int),
            ready: queued(
                state.ready,
                host_answers(state.stage, state.from_stage, state.pending, block, done),
                state.ready_capacity,
            ),
            ..state
        }),
        forall|k: nat|
            k < done ==> (#[trigger] stage_answer(state.stage, state.pending, block, k)) is Ok,
    ensures
        drained_in_order(state, block, drained(now, block)),
    decreases now.pending.len(),
{
    let all = (state.pending.len() / block) as nat;
    if now.pending.len() < block {
        frames::lemma_complete_frames(state.pending.len(), block, done);
    } else {
        frames::lemma_next_frame(done as int, block);
        let input = now.pending.take(block as int);
        assert(input =~= frames::cut(state.pending, block, done as int));
        assert(now.pending.skip(block as int) =~= state.pending.skip(
            ((done + 1) * block) as int,
        ));
        let answer = stage_answer(state.stage, state.pending, block, done);
        assert(done < all) by {
            frames::lemma_complete_frames_fit(state.pending.len(), block);
            assert(done < all) by (nonlinear_arith)
                requires
                    (done + 1) * block <= state.pending.len(),
                    state.pending.len() - all * block < block,
                    block > 0,
            ;
        }
        if answer is Ok {
            let so_far = host_answers(state.stage, state.from_stage, state.pending, block, done);
            let last = now.from_stage.converted(answer->Ok_0);
            let next = RunnerState {
                stage: stage_at(state.stage, state.pending, block, done + 1),
                from_stage: converter_at(
                    state.stage,
                    state.from_stage,
                    state.pending,
                    block,
                    done + 1,
                ),
                pending: state.pending.skip(((done + 1) * block) as int),
                ready: queued(
                    state.ready,
                    host_answers(state.stage, state.from_stage, state.pending, block, done + 1),
                    state.ready_capacity,
                ),
                ..state
            };
            assert(queued(now.ready, last, state.ready_capacity) =~= queued(
                state.ready,
                so_far + last,
                state.ready_capacity,
            ));
            lemma_blocks_go_on(next, state, block, done + 1);
        }
    }
}

/// Whether a run answered the pending blocks in order: what was queued behind what
/// was ready are the stage's answers to the successive blocks, each brought to the
/// host rate, by machines that have seen exactly the blocks before it; or the
/// stage refused a block, having answered all before it.
pub open spec fn drained_in_order<S: Stage, C: RateConverter>(
    state: RunnerState<S, C>,
    block: nat,
    run: (RunnerState<S, C>, Option<Error>),
) -> bool {
    let all = (state.pending.len() / block) as nat;
    match run.1 {
        None => {
            &&& forall|k: nat|
                k < all ==> (#[trigger] stage_answer(state.stage, state.pending, block, k)) is Ok
            &&& run.0 == (RunnerState {
                stage: stage_at(state.stage, state.pending, block, all),
                from_stage: converter_at(
                    state.stage,
                    state.from_stage,
                    state.pending,
                    block,
                    all,
                ),
                pending: state.pending.skip((all * block) as int),
                ready: queued(
                    state.ready,
                    host_answers(state.stage, state.from_stage, state.pending, block, all),
                    state.ready_capacity,
                ),
                ..state
            })
        },
        Some(error) => exists|bad: nat|
            {
                &&& bad < all
                &&& (#[trigger] stage_answer(state.stage, state.pending, block, bad)) == Err::<
                    Seq<u32>,
                    Error,
                >(error)
                &&& forall|k: nat|
                    k < bad ==> (#[trigger] stage_answer(
                        state.stage,
                        state.pending,
                        block,
                        k,
                    )) is Ok
                &&& run.0.pending == state.pending.skip(((bad + 1) * block) as int)
                &&& run.0.ready == queued(
                    state.ready,
                    host_answers(state.stage, state.from_stage, state.pending, block, bad),
                    state.ready_capacity,
                )
            },
    }
}

/// A runner answers its pending blocks in order, whatever the stage and the rates.
pub proof fn law_blocks_are_answered_in_order<S: Stage, C: RateConverter>(
    state: RunnerState<S, C>,
    block: nat,
)
    requires
        block > 0,
        state.ready.len() <= state.ready_capacity,
    ensures
        drained_in_order(state, block, drained(state, block)),
{
    assert(0 * block == 0);
    assert(state.pending.skip(0) =~= state.pending);
    assert(queued(state.ready, Seq::empty(), state.ready_capacity) =~= state.ready);
    lemma_blocks_go_on(state, state, block, 0);
}

/// How the host cuts its stream changes nothing of what the stage hears: two host
/// blocks that fit are queued one behind the other, each converted by a converter
/// that has seen what came before it.
pub proof fn law_host_blocks_queue_up<S: Stage, C: RateConverter>(
    state: RunnerState<S, C>,
    first: Seq<u32>,
    second: Seq<u32>,
)
    requires
        state.pending.len() + state.to_stage.converted(first).len() + state.to_stage.after(
            first,
        ).converted(second).len() <= state.pending_capacity,
    ensures
        ({
            let both = fed(fed(state, first), second);
            &&& both.pending == state.pending + state.to_stage.converted(first)
                + state.to_stage.after(first).converted(second)
            &&& both.to_stage == state.to_stage.after(first).after(second)
            &&& both == (RunnerState { pending: both.pending, to_stage: both.to_stage, ..state })
        }),
{
    assert(fed(fed(state, first), second).pending =~= state.pending + state.to_stage.converted(
        first,
    ) + state.to_stage.after(first).converted(second));
}

/// What a runner emits are the oldest samples that are ready, and the others stay;
/// only where too few are ready is silence put behind them, and only that counts as
/// an underrun.
pub proof fn law_emission_takes_the_oldest<S, C>(state: RunnerState<S, C>, len: nat)
    ensures
        emitted(state.ready, len).len() == len,
        state.ready.len() >= len ==> {
            &&& emitted(state.ready, len) + emptied(state, len).ready == state.ready
            &&& emptied(state, len).underruns == state.underruns
        },
        state.ready.len() < len ==> {
            &&& emitted(state.ready, len) == state.ready + ring::silence(
                (len - state.ready.len()) as nat,
            )
            &&& emptied(state, len).ready.len() == 0
            &&& state.underruns < u64::MAX ==> emptied(state, len).underruns == state.underruns
                + 1
        },
        emptied(state, len) == (RunnerState {
            ready: emptied(state, len).ready,
            underruns: emptied(state, len).underruns,
            ..state
        }),
{
    if state.ready.len() >= len {
        assert(emitted(state.ready, len) + emptied(state, len).ready =~= state.ready);
    } else {
        assert(emitted(state.ready, len) =~= state.ready + ring::silence(
            (len - state.ready.len()) as nat,
        ));
    }
}

/// The reported delay counts everything a sample waits for: the silence that a
/// fresh runner holds, both converters, and the stage's own latency brought to the
/// host rate; at the stage's own rate that latency counts as it is.
pub proof fn law_latency_counts_every_delay<S: Stage, C: RateConverter>(
    stage: S,
    to_stage: C,
    from_stage: C,
    host_rate: u32,
    max_host_block: usize,
)
    requires
        priming(stage.description(), host_rate) >= 0,
    ensures
        ({
            let spec = stage.description();
            let own = spec.latency_samples as int;
            let rate = spec.sample_rate as int;
            let held = fresh(stage, to_stage, from_stage, host_rate, max_host_block).ready.len();
            let delay = end_to_end(spec, host_rate, to_stage, from_stage);
            &&& delay - held - to_stage.delay_in() - from_stage.delay_out() == rescaled(
                own,
                rate,
                host_rate as int,
            )
            &&& rate == host_rate ==> delay == spec.block_size + PRIMING_MARGIN
                + to_stage.delay_in() + own + from_stage.delay_out()
        }),
{
}

/// The latency that is shown is that of the runner in milliseconds: as many samples as
/// the rate are a thousand, and none are none.
pub proof fn law_shown_latency_is_in_milliseconds<S: Stage, C: RateConverter>(
    runner: StageRunner<S, C>,
)
    requires
        runner.rate() > 0,
    ensures
        runner.latency() == 0 ==> runner.shown_latency() == 0,
        runner.latency() == runner.rate() ==> runner.shown_latency() == 0x447a_0000,
{
    if runner.latency() > 0 {
        single::law_milliseconds_follow_the_length(
            runner.latency() as int,
            runner.rate() as int,
        );
    }
}

} // verus!
