//! Adapter turning a fixed-frame, fixed-rate [`FrameProcessor`] into a stage
//! of engine-rate blocks of any length.
//!
//! The adapter converts the rate (by an integer factor), accumulates full
//! model frames, and re-emits at the engine rate with a fixed, reported
//! latency.

use std::collections::VecDeque;

use vstd::prelude::*;
use vstd::string::*;

use crate::signal::block::{BlockStage, FrameProcessor, StageError, ENGINE_SAMPLE_RATE};
use crate::signal::frames;
use crate::signal::ring;
use crate::signal::runner;
use crate::signal::runner::RateConverter;
use crate::text;
use crate::text::push_decimal;

verus! {

/// The state of an adapter.
pub struct FramedState<P, C> {
    /// The wrapped processor.
    pub processor: P,
    /// Converter from the engine rate to the processor's rate.
    pub down: C,
    /// Converter from the processor's rate to the engine rate.
    pub up: C,
    /// Engine-rate samples waiting to fill a round.
    pub waiting: Seq<u32>,
    /// Engine-rate samples ready to be emitted.
    pub ready: Seq<u32>,
}

impl<P: FrameProcessor, C: RateConverter> FramedState<P, C> {
    /// A stream that starts over: only the silence of one round is ready.
    pub open spec fn restarted(self, round: nat, factor: nat) -> FramedState<P, C> {
        FramedState {
            processor: self.processor.cleared(),
            down: if factor > 1 {
                self.down.cleared()
            } else {
                self.down
            },
            up: if factor > 1 {
                self.up.cleared()
            } else {
                self.up
            },
            waiting: Seq::empty(),
            ready: ring::silence(round),
        }
    }
}

/// The frame a round of engine samples turns into.
pub open spec fn frame_of<P: FrameProcessor, C: RateConverter>(
    state: FramedState<P, C>,
    round: Seq<u32>,
    factor: nat,
) -> Seq<u32> {
    if factor > 1 {
        state.down.converted(round)
    } else {
        round
    }
}

/// What running every complete round leads to: the state afterwards, and the
/// error of the first frame that the processor refused.
pub open spec fn rounds<P: FrameProcessor, C: RateConverter>(
    state: FramedState<P, C>,
    round_len: nat,
    factor: nat,
) -> (FramedState<P, C>, Option<StageError>)
    decreases state.waiting.len(),
{
    if round_len == 0 || state.waiting.len() < round_len {
        (state, None)
    } else {
        let round = state.waiting.take(round_len as int);
        let rest = state.waiting.skip(round_len as int);
        let frame = frame_of(state, round, factor);
        let down = if factor > 1 {
            state.down.after(round)
        } else {
            state.down
        };
        match state.processor.outcome(frame) {
            Err(error) => (FramedState { down, waiting: rest, ..state }, Some(error)),
            Ok(output) => rounds(
                FramedState {
                    processor: state.processor.after(frame),
                    down,
                    up: if factor > 1 {
                        state.up.after(output)
                    } else {
                        state.up
                    },
                    waiting: rest,
                    ready: state.ready + (if factor > 1 {
                        state.up.converted(output)
                    } else {
                        output
                    }),
                },
                round_len,
                factor,
            ),
        }
    }
}

/// The message for a rate that does not divide the engine rate.
pub open spec fn rate_message(native: u32) -> Seq<char> {
    "sample rate "@ + text::decimal(native as nat) + " Hz does not divide the 48000 Hz engine rate"@
}

/// Wraps a [`FrameProcessor`] as a stage of engine-rate blocks.
pub struct FramedStage<P: FrameProcessor, C: RateConverter> {
    processor: P,
    factor: usize,
    round_len: usize,
    down: C,
    up: C,
    in_fifo: VecDeque<u32>,
    out_fifo: VecDeque<u32>,
    latency: usize,
}

impl<P: FrameProcessor, C: RateConverter> View for FramedStage<P, C> {
    type V = FramedState<P, C>;

    closed spec fn view(&self) -> FramedState<P, C> {
        FramedState {
            processor: self.processor,
            down: self.down,
            up: self.up,
            waiting: self.in_fifo@,
            ready: self.out_fifo@,
        }
    }
}

impl<P: FrameProcessor, C: RateConverter> FramedStage<P, C> {
    /// Engine samples per native sample.
    pub closed spec fn rate_factor(&self) -> nat {
        self.factor as nat
    }

    /// Engine samples per frame.
    pub closed spec fn round(&self) -> nat {
        self.round_len as nat
    }

    /// The reported delay.
    pub closed spec fn latency(&self) -> usize {
        self.latency
    }

    /// Whether a round holds one frame.
    pub closed spec fn wf(&self) -> bool {
        &&& self.round_len > 0
        &&& self.factor > 0
        &&& self.round_len == self.processor.frame() * self.factor
    }

    /// Wraps `processor`; the converters serve a processor whose rate is below
    /// the engine's.
    pub fn new(processor: P, down: C, up: C) -> (result: Result<Self, StageError>)
        requires
            processor.frame() > 0,
            processor.rate() > 0 && ENGINE_SAMPLE_RATE % processor.rate() == 0 ==> {
                let factor = ENGINE_SAMPLE_RATE / processor.rate();
                processor.frame() * factor + processor.delay() * factor + (if factor > 1 {
                    down.delay_in() + up.delay_out()
                } else {
                    0
                }) <= usize::MAX
            },
        ensures
            match result {
                Ok(stage) => {
                    let factor = ENGINE_SAMPLE_RATE / processor.rate();
                    &&& processor.rate() > 0
                    &&& ENGINE_SAMPLE_RATE % processor.rate() == 0
                    &&& stage.wf()
                    &&& stage.rate_factor() == factor
                    &&& stage.round() == processor.frame() * factor
                    &&& stage.latency() == stage.round() + processor.delay() * factor + (
                    if factor > 1 {
                        down.delay_in() + up.delay_out()
                    } else {
                        0
                    })
                    &&& stage@ == (FramedState {
                        processor,
                        down,
                        up,
                        waiting: Seq::empty(),
                        ready: ring::silence(stage.round()),
                    })
                    &&& processor.rate() == ENGINE_SAMPLE_RATE ==> stage.latency()
                        == stage@.ready.len() + processor.delay()
                    &&& stage.round() * processor.rate() == processor.frame() * ENGINE_SAMPLE_RATE
                    &&& processor.rate() < ENGINE_SAMPLE_RATE ==> (stage.latency()
                        - down.delay_in() - up.delay_out()) * processor.rate() == (
                    processor.frame() + processor.delay()) * ENGINE_SAMPLE_RATE
                },
                Err(StageError::Unsupported(reason)) => {
                    &&& processor.rate() == 0 || ENGINE_SAMPLE_RATE % processor.rate() != 0
                    &&& reason@ == rate_message(processor.rate())
                },
                Err(_) => false,
            },
    {
        let native: u32 = processor.sample_rate();
        if native == 0 || ENGINE_SAMPLE_RATE % native != 0 {
            let mut reason = "sample rate ".to_owned();
            push_decimal(&mut reason, native as u64);
            reason.append(" Hz does not divide the 48000 Hz engine rate");
            return Err(StageError::Unsupported(reason));
        }
        let factor: usize = (ENGINE_SAMPLE_RATE / native) as usize;
        let frame_len: usize = processor.frame_len();
        let delay: usize = processor.output_delay();
        proof {
            assert(1 <= factor <= ENGINE_SAMPLE_RATE) by {
                vstd::arithmetic::div_mod::lemma_fundamental_div_mod(
                    ENGINE_SAMPLE_RATE as int,
                    native as int,
                );
                if factor == 0 {
                    assert(native * factor == 0) by (nonlinear_arith)
                        requires
                            factor == 0,
                    ;
                }
                vstd::arithmetic::div_mod::lemma_div_is_ordered_by_denominator(
                    ENGINE_SAMPLE_RATE as int,
                    1,
                    native as int,
                );
            }
            assert(frame_len * factor >= frame_len) by (nonlinear_arith)
                requires
                    factor >= 1,
            ;
            assert(delay * factor >= 0) by (nonlinear_arith);
            vstd::arithmetic::div_mod::lemma_fundamental_div_mod(
                ENGINE_SAMPLE_RATE as int,
                native as int,
            );
            assert((frame_len * factor) * native == frame_len * ENGINE_SAMPLE_RATE)
                by (nonlinear_arith)
                requires
                    ENGINE_SAMPLE_RATE == native * factor,
            ;
            assert((frame_len * factor + delay * factor) * native == (frame_len + delay)
                * ENGINE_SAMPLE_RATE) by (nonlinear_arith)
                requires
                    ENGINE_SAMPLE_RATE == native * factor,
            ;
            if native < ENGINE_SAMPLE_RATE {
                assert(factor > 1) by (nonlinear_arith)
                    requires
                        ENGINE_SAMPLE_RATE == native * factor,
                        native < ENGINE_SAMPLE_RATE,
                        native > 0,
                ;
            }
            if native == ENGINE_SAMPLE_RATE {
                vstd::arithmetic::div_mod::lemma_div_by_self(native as int);
                assert(factor == 1);
                assert(delay * factor == delay) by (nonlinear_arith)
                    requires
                        factor == 1,
                ;
            }
        }
        let round_len: usize = frame_len * factor;
        let filter_delay: usize = if factor > 1 {
            down.group_delay_input_samples() + up.group_delay_output_samples()
        } else {
            0
        };
        let latency: usize = round_len + filter_delay + delay * factor;
        let mut out_fifo: VecDeque<u32> = VecDeque::new();
        push_zeros(&mut out_fifo, round_len);
        assert(out_fifo@ =~= ring::silence(round_len as nat));
        Ok(
            FramedStage {
                processor,
                factor,
                round_len,
                down,
                up,
                in_fifo: VecDeque::new(),
                out_fifo,
                latency,
            },
        )
    }

    /// Access to the wrapped processor.
    pub fn processor(&self) -> (processor: &P)
        ensures
            *processor == self@.processor,
    {
        &self.processor
    }

    /// Mutable access to the wrapped processor, for instance to update an
    /// enrollment. The adapter stays usable as long as the frame length stays.
    pub fn processor_mut(&mut self) -> (processor: &mut P)
        requires
            old(self).wf(),
        ensures
            *processor == old(self)@.processor,
            final(self)@ == (FramedState { processor: *final(processor), ..old(self)@ }),
            final(self).rate_factor() == old(self).rate_factor(),
            final(self).round() == old(self).round(),
            final(self).latency() == old(self).latency(),
            final(processor).frame() == old(self)@.processor.frame() ==> final(self).wf(),
    {
        &mut self.processor
    }

    /// Runs the processor on every complete round.
    fn run_rounds(&mut self) -> (result: Result<(), StageError>)
        requires
            old(self).wf(),
        ensures
            final(self).wf(),
            final(self).rate_factor() == old(self).rate_factor(),
            final(self).round() == old(self).round(),
            final(self).latency() == old(self).latency(),
            final(self)@.processor.name() == old(self)@.processor.name(),
            ({
                let run = rounds(old(self)@, old(self).round(), old(self).rate_factor());
                match run.1 {
                    None => result is Ok && final(self)@ == run.0,
                    Some(error) => {
                        &&& result == Err::<(), StageError>(error)
                        &&& final(self)@ == (FramedState {
                            processor: final(self)@.processor,
                            ..run.0
                        })
                    },
                }
            }),
            result is Ok ==> final(self)@.waiting.len() < final(self).round(),
            result is Ok && old(self).rate_factor() == 1 ==> final(self)@.waiting.len()
                + final(self)@.ready.len() == old(self)@.waiting.len() + old(self)@.ready.len(),
    {
        let round_len: usize = self.round_len;
        while self.in_fifo.len() >= round_len
            invariant
                self.wf(),
                round_len == self.round_len,
                self.round_len == old(self).round_len,
                self.factor == old(self).factor,
                self.latency == old(self).latency,
                self.processor.name() == old(self).processor.name(),
                rounds(self@, round_len as nat, self.factor as nat) == rounds(
                    old(self)@,
                    round_len as nat,
                    self.factor as nat,
                ),
                self.factor == 1 ==> self@.waiting.len() + self@.ready.len()
                    == old(self)@.waiting.len() + old(self)@.ready.len(),
            decreases self.in_fifo@.len(),
        {
            let ghost before = self@;
            let round_in: Vec<u32> = take_front(&mut self.in_fifo, round_len);
            let frame_len: usize = self.processor.frame_len();
            let mut frame_out: Vec<u32> = vec![0; frame_len];
            if self.factor > 1 {
                let mut frame_in: Vec<u32> = Vec::new();
                self.down.process(round_in.as_slice(), &mut frame_in);
                assert(frame_in@ =~= before.down.converted(round_in@));
                let answer = self.processor.process_frame(
                    frame_in.as_slice(),
                    frame_out.as_mut_slice(),
                );
                match answer {
                    Err(error) => {
                        return Err(error);
                    },
                    Ok(()) => {},
                }
                let mut round_out: Vec<u32> = Vec::new();
                self.up.process(frame_out.as_slice(), &mut round_out);
                assert(round_out@ =~= before.up.converted(frame_out@));
                push_all(&mut self.out_fifo, round_out.as_slice());
            } else {
                let answer = self.processor.process_frame(
                    round_in.as_slice(),
                    frame_out.as_mut_slice(),
                );
                match answer {
                    Err(error) => {
                        return Err(error);
                    },
                    Ok(()) => {},
                }
                push_all(&mut self.out_fifo, frame_out.as_slice());
                assert(frame_len * 1 == frame_len);
            }
        }
        Ok(())
    }

    /// Processes one engine-rate block.
    pub fn process_block(&mut self, input: &[u32], output: &mut [u32]) -> (result: Result<
        (),
        StageError,
    >)
        requires
            old(self).wf(),
        ensures
            final(self).wf(),
            final(self).rate_factor() == old(self).rate_factor(),
            final(self).round() == old(self).round(),
            final(self).latency() == old(self).latency(),
            final(self)@.processor.name() == old(self)@.processor.name(),
            final(output)@.len() == old(output)@.len(),
            if input@.len() != old(output)@.len() {
                &&& result == Err::<(), StageError>(
                    StageError::BufferLen {
                        expected: input@.len() as usize,
                        got: old(output)@.len() as usize,
                    },
                )
                &&& *final(self) == *old(self)
                &&& final(output)@ == old(output)@
            } else {
                let fed = FramedState { waiting: old(self)@.waiting + input@, ..old(self)@ };
                let run = rounds(fed, old(self).round(), old(self).rate_factor());
                match run.1 {
                    None => {
                        &&& result is Ok
                        &&& final(output)@ == runner::emitted(run.0.ready, input@.len())
                        &&& final(self)@ == (FramedState {
                            ready: run.0.ready.skip(
                                runner::at_most(run.0.ready.len() as int, input@.len() as int),
                            ),
                            ..run.0
                        })
                    },
                    Some(error) => {
                        &&& result == Err::<(), StageError>(error)
                        &&& final(output)@ == old(output)@
                        &&& final(self)@ == (FramedState {
                            processor: final(self)@.processor,
                            ..run.0
                        })
                    },
                }
            },
            // At the engine's own rate the adapter holds exactly one round at
            // all times, so a block is never padded.
            result is Ok && old(self).rate_factor() == 1 && old(self)@.waiting.len()
                + old(self)@.ready.len() == old(self).round() ==> {
                let fed = FramedState { waiting: old(self)@.waiting + input@, ..old(self)@ };
                &&& rounds(fed, old(self).round(), 1).0.ready.len() >= input@.len()
                &&& final(self)@.waiting.len() + final(self)@.ready.len() == final(self).round()
            },
    {
        if input.len() != output.len() {
            return Err(StageError::BufferLen { expected: input.len(), got: output.len() });
        }
        push_all(&mut self.in_fifo, input);
        let ran = self.run_rounds();
        match ran {
            Err(error) => {
                return Err(error);
            },
            Ok(()) => {},
        }
        let ghost ready = self.out_fifo@;
        let ghost after_rounds = *self;
        let len: usize = output.len();
        let mut i: usize = 0;
        while i < len
            invariant
                i <= len == output@.len(),
                self.out_fifo@ == ready.skip(runner::at_most(i as int, ready.len() as int)),
                self.processor == after_rounds.processor,
                self.down == after_rounds.down,
                self.up == after_rounds.up,
                self.in_fifo == after_rounds.in_fifo,
                self.round_len == after_rounds.round_len,
                self.factor == after_rounds.factor,
                self.latency == after_rounds.latency,
                forall|k: int|
                    0 <= k < i ==> #[trigger] output@[k] == (if k < ready.len() {
                        ready[k]
                    } else {
                        ring::SILENCE
                    }),
            decreases len - i,
        {
            output[i] = match self.out_fifo.pop_front() {
                Some(sample) => sample,
                None => ring::SILENCE,
            };
            i = i + 1;
            assert(self.out_fifo@ =~= ready.skip(runner::at_most(i as int, ready.len() as int)));
        }
        assert(output@ =~= runner::emitted(ready, input@.len()));
        Ok(())
    }

    /// Delay from input to output, in engine samples.
    pub fn latency_samples(&self) -> (latency: usize)
        ensures
            latency == self.latency(),
    {
        self.latency
    }

    /// Restarts the stream: only the silence of one round is ready.
    pub fn reset(&mut self)
        requires
            old(self).wf(),
        ensures
            final(self).wf(),
            final(self).rate_factor() == old(self).rate_factor(),
            final(self).round() == old(self).round(),
            final(self).latency() == old(self).latency(),
            final(self)@.processor.name() == old(self)@.processor.name(),
            final(self)@ == old(self)@.restarted(old(self).round(), old(self).rate_factor()),
    {
        self.processor.reset();
        if self.factor > 1 {
            self.down.reset();
            self.up.reset();
        }
        self.in_fifo.clear();
        self.out_fifo.clear();
        push_zeros(&mut self.out_fifo, self.round_len);
        assert(self.out_fifo@ =~= ring::silence(self.round_len as nat));
    }
}

/// What an adapter remembers: its queues and machines, the samples per round
/// and the rate factor.
pub struct FramedMemory<P, C> {
    /// The machines and queues.
    pub inner: FramedState<P, C>,
    /// Engine samples per frame.
    pub round: nat,
    /// Engine samples per native sample.
    pub factor: nat,
}

impl<P: FrameProcessor, C: RateConverter> FramedMemory<P, C> {
    /// Where running every complete round leads once a block has been queued.
    pub open spec fn run(self, input: Seq<u32>) -> (FramedState<P, C>, Option<StageError>) {
        rounds(
            FramedState { waiting: self.inner.waiting + input, ..self.inner },
            self.round,
            self.factor,
        )
    }
}

impl<P: FrameProcessor, C: RateConverter> BlockStage for FramedStage<P, C> {
    type State = FramedMemory<P, C>;

    open spec fn wf(&self) -> bool {
        FramedStage::wf(self)
    }

    open spec fn state(&self) -> FramedMemory<P, C> {
        FramedMemory { inner: self@, round: self.round(), factor: self.rate_factor() }
    }

    open spec fn name(&self) -> Seq<char> {
        self@.processor.name()
    }

    open spec fn delay(&self) -> usize {
        self.latency()
    }

    open spec fn outcome(state: FramedMemory<P, C>, input: Seq<u32>) -> Result<
        Seq<u32>,
        StageError,
    > {
        match state.run(input).1 {
            None => Ok(stepped(state.inner, input, state.round, state.factor).0),
            Some(error) => Err(error),
        }
    }

    open spec fn next(state: FramedMemory<P, C>, input: Seq<u32>) -> FramedMemory<P, C> {
        FramedMemory {
            inner: stepped(state.inner, input, state.round, state.factor).1,
            ..state
        }
    }

    open spec fn cleared(state: FramedMemory<P, C>) -> FramedMemory<P, C> {
        FramedMemory { inner: state.inner.restarted(state.round, state.factor), ..state }
    }

    fn id(&self) -> (id: String) {
        self.processor.id()
    }

    fn process_block(&mut self, input: &[u32], output: &mut [u32]) -> (result: Result<
        (),
        StageError,
    >) {
        FramedStage::process_block(self, input, output)
    }

    fn latency_samples(&self) -> (latency: usize) {
        self.latency
    }

    fn reset(&mut self) {
        FramedStage::reset(self)
    }
}

/// Appends `count` zeros.
fn push_zeros(fifo: &mut VecDeque<u32>, count: usize)
    ensures
        final(fifo)@ == old(fifo)@ + ring::silence(count as nat),
{
    let mut i: usize = 0;
    assert(fifo@ =~= old(fifo)@ + ring::silence(0));
    while i < count
        invariant
            i <= count,
            fifo@ == old(fifo)@ + ring::silence(i as nat),
        decreases count - i,
    {
        fifo.push_back(ring::SILENCE);
        i = i + 1;
        assert(fifo@ =~= old(fifo)@ + ring::silence(i as nat));
    }
}

/// Appends a block.
pub fn push_all(fifo: &mut VecDeque<u32>, samples: &[u32])
    ensures
        final(fifo)@ == old(fifo)@ + samples@,
{
    let mut i: usize = 0;
    assert(fifo@ =~= old(fifo)@ + samples@.take(0));
    while i < samples.len()
        invariant
            i <= samples@.len(),
            fifo@ == old(fifo)@ + samples@.take(i as int),
        decreases samples@.len() - i,
    {
        fifo.push_back(samples[i]);
        i = i + 1;
        assert(fifo@ =~= old(fifo)@ + samples@.take(i as int));
    }
    assert(samples@.take(i as int) =~= samples@);
}

/// Removes the oldest `count` samples.
pub fn take_front(fifo: &mut VecDeque<u32>, count: usize) -> (taken: Vec<u32>)
    requires
        count <= old(fifo)@.len(),
    ensures
        taken@ == old(fifo)@.take(count as int),
        final(fifo)@ == old(fifo)@.skip(count as int),
{
    let mut taken: Vec<u32> = Vec::with_capacity(count);
    while taken.len() < count
        invariant
            taken@.len() <= count <= old(fifo)@.len(),
            taken@ == old(fifo)@.take(taken@.len() as int),
            fifo@ == old(fifo)@.skip(taken@.len() as int),
        decreases count - taken@.len(),
    {
        match fifo.pop_front() {
            Some(sample) => {
                taken.push(sample);
            },
            None => {
                assert(false);
            },
        }
        assert(taken@ =~= old(fifo)@.take(taken@.len() as int));
        assert(fifo@ =~= old(fifo)@.skip(taken@.len() as int));
    }
    taken
}

/// What an adapter answers to a block that no frame of it fails on, and its
/// state afterwards.
pub open spec fn stepped<P: FrameProcessor, C: RateConverter>(
    state: FramedState<P, C>,
    input: Seq<u32>,
    round_len: nat,
    factor: nat,
) -> (Seq<u32>, FramedState<P, C>) {
    let run = rounds(
        FramedState { waiting: state.waiting + input, ..state },
        round_len,
        factor,
    ).0;
    (
        runner::emitted(run.ready, input.len()),
        FramedState {
            ready: run.ready.skip(runner::at_most(run.ready.len() as int, input.len() as int)),
            ..run
        },
    )
}

/// Whether every complete round is answered by a round of samples.
pub open spec fn steady<P: FrameProcessor, C: RateConverter>(
    state: FramedState<P, C>,
    round_len: nat,
    factor: nat,
) -> bool
    decreases state.waiting.len(),
{
    if round_len == 0 || state.waiting.len() < round_len {
        true
    } else {
        let round = state.waiting.take(round_len as int);
        let frame = frame_of(state, round, factor);
        match state.processor.outcome(frame) {
            Err(_) => true,
            Ok(output) => {
                let answer = if factor > 1 {
                    state.up.converted(output)
                } else {
                    output
                };
                &&& answer.len() == round_len
                &&& steady(
                    FramedState {
                        processor: state.processor.after(frame),
                        down: if factor > 1 {
                            state.down.after(round)
                        } else {
                            state.down
                        },
                        up: if factor > 1 {
                            state.up.after(output)
                        } else {
                            state.up
                        },
                        waiting: state.waiting.skip(round_len as int),
                        ready: state.ready + answer,
                    },
                    round_len,
                    factor,
                )
            },
        }
    }
}

/// Whether an adapter holds exactly one round, of which less than a round
/// waits.
pub open spec fn balanced<P, C>(state: FramedState<P, C>, round_len: nat) -> bool {
    &&& state.waiting.len() < round_len
    &&& state.waiting.len() + state.ready.len() == round_len
}

/// Running steady rounds moves samples and loses none.
proof fn lemma_rounds_keep_count<P: FrameProcessor, C: RateConverter>(
    state: FramedState<P, C>,
    round_len: nat,
    factor: nat,
)
    requires
        round_len > 0,
        steady(state, round_len, factor),
        rounds(state, round_len, factor).1 is None,
    ensures
        ({
            let run = rounds(state, round_len, factor).0;
            &&& run.waiting.len() < round_len
            &&& run.waiting.len() + run.ready.len() == state.waiting.len() + state.ready.len()
        }),
    decreases state.waiting.len(),
{
    if state.waiting.len() >= round_len {
        let round = state.waiting.take(round_len as int);
        let frame = frame_of(state, round, factor);
        let output = state.processor.outcome(frame)->Ok_0;
        let answer = if factor > 1 {
            state.up.converted(output)
        } else {
            output
        };
        let next = FramedState {
            processor: state.processor.after(frame),
            down: if factor > 1 {
                state.down.after(round)
            } else {
                state.down
            },
            up: if factor > 1 {
                state.up.after(output)
            } else {
                state.up
            },
            waiting: state.waiting.skip(round_len as int),
            ready: state.ready + answer,
        };
        lemma_rounds_keep_count(next, round_len, factor);
    }
}

/// The silence of one round is enough priming: an adapter whose rounds are
/// answered in full never runs dry, whatever the blocks' lengths, and holds one
/// round at all times.
pub proof fn law_adapter_never_pads<P: FrameProcessor, C: RateConverter>(
    state: FramedState<P, C>,
    input: Seq<u32>,
    round_len: nat,
    factor: nat,
)
    requires
        balanced(state, round_len),
        steady(FramedState { waiting: state.waiting + input, ..state }, round_len, factor),
        rounds(FramedState { waiting: state.waiting + input, ..state }, round_len, factor).1
            is None,
    ensures
        ({
            let fed = FramedState { waiting: state.waiting + input, ..state };
            &&& rounds(fed, round_len, factor).0.ready.len() >= input.len()
            &&& stepped(state, input, round_len, factor).0 == rounds(
                fed,
                round_len,
                factor,
            ).0.ready.take(input.len() as int)
            &&& balanced(stepped(state, input, round_len, factor).1, round_len)
        }),
{
    let fed = FramedState { waiting: state.waiting + input, ..state };
    lemma_rounds_keep_count(fed, round_len, factor);
    let run = rounds(fed, round_len, factor).0;
    assert(runner::emitted(run.ready, input.len()) =~= run.ready.take(input.len() as int));
}

/// The samples inside an adapter at the engine's own rate, in the order in
/// which they will leave.
pub open spec fn inside<P, C>(state: FramedState<P, C>) -> Seq<u32> {
    state.ready + state.waiting
}

/// Whether processors answer each frame with the frame itself.
pub open spec fn copying<P: FrameProcessor>(frame_len: nat) -> bool {
    forall|processor: P, frame: Seq<u32>|
        frame.len() == frame_len ==> #[trigger] processor.outcome(frame) == Ok::<
            Seq<u32>,
            StageError,
        >(frame)
}

proof fn lemma_copying_keeps_the_stream<P: FrameProcessor, C: RateConverter>(
    state: FramedState<P, C>,
    round_len: nat,
)
    requires
        round_len > 0,
        copying::<P>(round_len),
    ensures
        rounds(state, round_len, 1).1 is None,
        inside(rounds(state, round_len, 1).0) == inside(state),
        rounds(state, round_len, 1).0.waiting.len() < round_len,
    decreases state.waiting.len(),
{
    if state.waiting.len() >= round_len {
        let round = state.waiting.take(round_len as int);
        assert(state.processor.outcome(round) == Ok::<Seq<u32>, StageError>(round));
        let next = FramedState {
            processor: state.processor.after(round),
            waiting: state.waiting.skip(round_len as int),
            ready: state.ready + round,
            ..state
        };
        lemma_copying_keeps_the_stream(next, round_len);
        assert(inside(next) =~= inside(state));
    }
}

/// A processor at the engine's own rate that copies its frames makes the
/// adapter a pure delay line: the block that comes out, followed by what stays
/// inside, is what was inside, followed by the block that went in.
pub proof fn law_native_copy_is_a_delay_line<P: FrameProcessor, C: RateConverter>(
    state: FramedState<P, C>,
    input: Seq<u32>,
    round_len: nat,
)
    requires
        copying::<P>(round_len),
        balanced(state, round_len),
    ensures
        rounds(FramedState { waiting: state.waiting + input, ..state }, round_len, 1).1 is None,
        stepped(state, input, round_len, 1).0.len() == input.len(),
        stepped(state, input, round_len, 1).0 + inside(stepped(state, input, round_len, 1).1)
            == inside(state) + input,
        balanced(stepped(state, input, round_len, 1).1, round_len),
{
    let fed = FramedState { waiting: state.waiting + input, ..state };
    lemma_copying_keeps_the_stream(fed, round_len);
    let run = rounds(fed, round_len, 1).0;
    assert(inside(fed) =~= inside(state) + input);
    assert(inside(run).len() == inside(fed).len());
    let (out, after) = stepped(state, input, round_len, 1);
    assert(out =~= run.ready.take(input.len() as int));
    assert(out + inside(after) =~= inside(run));
}

/// Everything an adapter at the engine's own rate emits while it is fed
/// `blocks`, one after another.
pub open spec fn streamed<P: FrameProcessor, C: RateConverter>(
    state: FramedState<P, C>,
    blocks: Seq<Seq<u32>>,
    round_len: nat,
) -> Seq<u32>
    decreases blocks.len(),
{
    if blocks.len() == 0 {
        Seq::empty()
    } else {
        let step = stepped(state, blocks[0], round_len, 1);
        step.0 + streamed(step.1, blocks.skip(1), round_len)
    }
}

/// However the stream is cut into blocks, a copying processor at the engine's
/// own rate returns what was inside and then the stream itself, sample for
/// sample: from a fresh adapter comes the stream, delayed by one frame.
pub proof fn law_native_copy_delays_the_stream<P: FrameProcessor, C: RateConverter>(
    state: FramedState<P, C>,
    blocks: Seq<Seq<u32>>,
    round_len: nat,
)
    requires
        copying::<P>(round_len),
        balanced(state, round_len),
    ensures
        streamed(state, blocks, round_len).len() == runner::joined(blocks).len(),
        streamed(state, blocks, round_len) == (inside(state) + runner::joined(blocks)).take(
            runner::joined(blocks).len() as int,
        ),
    decreases blocks.len(),
{
    if blocks.len() == 0 {
        assert(streamed(state, blocks, round_len) =~= (inside(state) + runner::joined(
            blocks,
        )).take(0));
    } else {
        let first = blocks[0];
        let rest = blocks.skip(1);
        law_native_copy_is_a_delay_line(state, first, round_len);
        let step = stepped(state, first, round_len, 1);
        law_native_copy_delays_the_stream(step.1, rest, round_len);
        let tail = runner::joined(rest);
        let total = runner::joined(blocks).len() as int;
        assert(runner::joined(blocks) == first + tail);
        assert(inside(state) + runner::joined(blocks) =~= (inside(state) + first) + tail);
        assert((step.0 + inside(step.1)) + tail =~= step.0 + (inside(step.1) + tail));
        assert((step.0 + (inside(step.1) + tail)).take(total) =~= step.0 + (inside(step.1)
            + tail).take(tail.len() as int));
    }
}

/// An adapter that is fresh, or was just reset, is balanced and holds nothing
/// but silence.
pub proof fn law_fresh_adapter_is_balanced<P, C>(state: FramedState<P, C>, round_len: nat)
    requires
        round_len > 0,
        state.waiting == Seq::<u32>::empty(),
        state.ready == ring::silence(round_len),
    ensures
        balanced(state, round_len),
        inside(state) == ring::silence(round_len),
{
    assert(inside(state) =~= ring::silence(round_len));
}

/// The processor and the converters once the first `count` rounds that wait have
/// gone through them.
pub open spec fn machines<P: FrameProcessor, C: RateConverter>(
    state: FramedState<P, C>,
    round_len: nat,
    factor: nat,
    count: nat,
) -> FramedState<P, C>
    decreases count,
{
    if count == 0 {
        state
    } else {
        let before = machines(state, round_len, factor, (count - 1) as nat);
        let round = frames::cut(state.waiting, round_len, count - 1);
        if factor > 1 {
            let frame = before.down.converted(round);
            FramedState {
                processor: before.processor.after(frame),
                down: before.down.after(round),
                up: before.up.after(before.processor.outcome(frame)->Ok_0),
                ..before
            }
        } else {
            FramedState { processor: before.processor.after(round), ..before }
        }
    }
}

/// The answer to the round at `k` of those that wait.
pub open spec fn answer_to<P: FrameProcessor, C: RateConverter>(
    state: FramedState<P, C>,
    round_len: nat,
    factor: nat,
    k: nat,
) -> Result<Seq<u32>, StageError> {
    let before = machines(state, round_len, factor, k);
    let round = frames::cut(state.waiting, round_len, k as int);
    if factor > 1 {
        match before.processor.outcome(before.down.converted(round)) {
            Ok(output) => Ok(before.up.converted(output)),
            Err(error) => Err(error),
        }
    } else {
        before.processor.outcome(round)
    }
}

/// The answers to the first `count` rounds that wait, put in a row.
pub open spec fn answers<P: FrameProcessor, C: RateConverter>(
    state: FramedState<P, C>,
    round_len: nat,
    factor: nat,
    count: nat,
) -> Seq<u32>
    decreases count,
{
    if count == 0 {
        Seq::empty()
    } else {
        answers(state, round_len, factor, (count - 1) as nat) + answer_to(
            state,
            round_len,
            factor,
            (count - 1) as nat,
        )->Ok_0
    }
}

proof fn lemma_rounds_go_on<P: FrameProcessor, C: RateConverter>(
    now: FramedState<P, C>,
    state: FramedState<P, C>,
    round_len: nat,
    factor: nat,
    done: nat,
)
    requires
        round_len > 0,
        done * round_len <= state.waiting.len(),
        now == (FramedState {
            waiting: state.waiting.skip((done * round_len) as int),
            ready: state.ready + answers(state, round_len, factor, done),
            ..machines(state, round_len, factor, done)
        }),
        forall|k: nat| k < done ==> (#[trigger] answer_to(state, round_len, factor, k)) is Ok,
    ensures
        ({
            let (run, refused) = rounds(now, round_len, factor);
            let all = (state.waiting.len() / round_len) as nat;
            match refused {
                None => {
                    &&& forall|k: nat|
                        k < all ==> (#[trigger] answer_to(state, round_len, factor, k)) is Ok
                    &&& run == (FramedState {
                        waiting: state.waiting.skip((all * round_len) as int),
                        ready: state.ready + answers(state, round_len, factor, all),
                        ..machines(state, round_len, factor, all)
                    })
                },
                Some(error) => exists|bad: nat|
                    {
                        &&& bad < all
                        &&& (#[trigger] answer_to(state, round_len, factor, bad)) == Err::<
                            Seq<u32>,
                            StageError,
                        >(error)
                        &&& forall|k: nat|
                            k < bad ==> (#[trigger] answer_to(
                                state,
                                round_len,
                                factor,
                                k,
                            )) is Ok
                        &&& run.ready == state.ready + answers(state, round_len, factor, bad)
                        &&& run.waiting == state.waiting.skip(((bad + 1) * round_len) as int)
                    },
            }
        }),
    decreases now.waiting.len(),
{
    let all = (state.waiting.len() / round_len) as nat;
    if now.waiting.len() < round_len {
        frames::lemma_complete_frames(state.waiting.len(), round_len, done);
    } else {
        frames::lemma_next_frame(done as int, round_len);
        let round = now.waiting.take(round_len as int);
        assert(round =~= frames::cut(state.waiting, round_len, done as int));
        assert(now.waiting.skip(round_len as int) =~= state.waiting.skip(
            ((done + 1) * round_len) as int,
        ));
        let answer = answer_to(state, round_len, factor, done);
        assert(done < all) by {
            frames::lemma_complete_frames_fit(state.waiting.len(), round_len);
            assert(done < all) by (nonlinear_arith)
                requires
                    (done + 1) * round_len <= state.waiting.len(),
                    state.waiting.len() - all * round_len < round_len,
                    round_len > 0,
            ;
        }
        if answer is Ok {
            let next = FramedState {
                waiting: state.waiting.skip(((done + 1) * round_len) as int),
                ready: state.ready + answers(state, round_len, factor, done + 1),
                ..machines(state, round_len, factor, done + 1)
            };
            assert(state.ready + (answers(state, round_len, factor, done) + answer->Ok_0)
                =~= (state.ready + answers(state, round_len, factor, done)) + answer->Ok_0);
            lemma_rounds_go_on(next, state, round_len, factor, done + 1);
        }
    }
}

/// At every rate an adapter answers its rounds in order and keeps its converters in
/// step with them: what becomes ready behind what was ready are the answers to the
/// successive rounds, each of which is the round brought to the processor's rate,
/// processed, and brought back, by machines that have seen exactly the rounds
/// before it. A refusal is that of the first frame that the processor refuses, and
/// keeps what was answered before.
pub proof fn law_rounds_are_answered_in_order<P: FrameProcessor, C: RateConverter>(
    state: FramedState<P, C>,
    round_len: nat,
    factor: nat,
)
    requires
        round_len > 0,
    ensures
        ({
            let (run, refused) = rounds(state, round_len, factor);
            let all = (state.waiting.len() / round_len) as nat;
            match refused {
                None => {
                    &&& forall|k: nat|
                        k < all ==> (#[trigger] answer_to(state, round_len, factor, k)) is Ok
                    &&& run == (FramedState {
                        waiting: state.waiting.skip((all * round_len) as int),
                        ready: state.ready + answers(state, round_len, factor, all),
                        ..machines(state, round_len, factor, all)
                    })
                },
                Some(error) => exists|bad: nat|
                    {
                        &&& bad < all
                        &&& (#[trigger] answer_to(state, round_len, factor, bad)) == Err::<
                            Seq<u32>,
                            StageError,
                        >(error)
                        &&& forall|k: nat|
                            k < bad ==> (#[trigger] answer_to(
                                state,
                                round_len,
                                factor,
                                k,
                            )) is Ok
                        &&& run.ready == state.ready + answers(state, round_len, factor, bad)
                        &&& run.waiting == state.waiting.skip(((bad + 1) * round_len) as int)
                    },
            }
        }),
{
    assert(0 * round_len == 0);
    assert(state.waiting.skip(0) =~= state.waiting);
    assert(state.ready + Seq::<u32>::empty() =~= state.ready);
    lemma_rounds_go_on(state, state, round_len, factor, 0);
}

/// How the stream is cut into blocks changes nothing: feeding two blocks one after
/// the other leads where feeding them as one does.
pub proof fn law_rounds_ignore_block_sizes<P: FrameProcessor, C: RateConverter>(
    state: FramedState<P, C>,
    more: Seq<u32>,
    round_len: nat,
    factor: nat,
)
    requires
        round_len > 0,
        rounds(state, round_len, factor).1 is None,
    ensures
        ({
            let first = rounds(state, round_len, factor).0;
            rounds(
                FramedState { waiting: first.waiting + more, ..first },
                round_len,
                factor,
            ) == rounds(
                FramedState { waiting: state.waiting + more, ..state },
                round_len,
                factor,
            )
        }),
    decreases state.waiting.len(),
{
    if state.waiting.len() >= round_len {
        let all = FramedState { waiting: state.waiting + more, ..state };
        let round = state.waiting.take(round_len as int);
        assert(all.waiting.take(round_len as int) =~= round);
        assert(all.waiting.skip(round_len as int) =~= state.waiting.skip(round_len as int) + more);
        let frame = frame_of(state, round, factor);
        let output = state.processor.outcome(frame)->Ok_0;
        let next = FramedState {
            processor: state.processor.after(frame),
            down: if factor > 1 {
                state.down.after(round)
            } else {
                state.down
            },
            up: if factor > 1 {
                state.up.after(output)
            } else {
                state.up
            },
            waiting: state.waiting.skip(round_len as int),
            ready: state.ready + (if factor > 1 {
                state.up.converted(output)
            } else {
                output
            }),
        };
        law_rounds_ignore_block_sizes(next, more, round_len, factor);
    }
}

/// A restart forgets the stream: whatever waited or was ready before, adapters with the
/// same machines are the same afterwards, and where the machines start over as they
/// were, a restarted adapter is the new one.
pub proof fn law_restart_forgets_the_stream<P: FrameProcessor, C: RateConverter>(
    state: FramedState<P, C>,
    waiting: Seq<u32>,
    ready: Seq<u32>,
    round: nat,
    factor: nat,
)
    requires
        round > 0,
    ensures
        state.restarted(round, factor) == (FramedState { waiting, ready, ..state }).restarted(
            round,
            factor,
        ),
        balanced(state.restarted(round, factor), round),
        inside(state.restarted(round, factor)) == ring::silence(round),
        state.restarted(round, factor).processor == state.processor.cleared(),
        factor > 1 ==> state.restarted(round, factor).down == state.down.cleared()
            && state.restarted(round, factor).up == state.up.cleared(),
{
    law_fresh_adapter_is_balanced(state.restarted(round, factor), round);
}

} // verus!
