//! The engine: adapts stages, hands them to the inference thread, and decides
//! what that thread does with every block.

use std::sync::atomic::{AtomicBool, AtomicU64, Ordering};
use std::sync::Arc;

use rtrb::{Consumer, Producer};
use vstd::prelude::*;
use vstd::string::*;

use crate::engine::bridge;
use crate::engine::bridge::{read_mark, AudioBridge};
use crate::engine::error::Error;
use crate::engine::mailbox;
use crate::engine::mailbox::{Offer, ReadyRunner, RunnerInbox, RunnerOutbox, LOOK_LIMIT};
use crate::engine::status;
use crate::engine::status::{BridgeReport, Snapshot, Status, WorkerReport};
use crate::engine::switch::{Phase, RampGain, RampState, SwitchRamp};
use crate::rings;
use crate::signal;
use crate::signal::ring;
use crate::signal::runner;
use crate::signal::runner::{Direct, RateConverter, RunnerState, StageRunner};
use crate::signal::stage::{copy_samples, Passthrough, Stage};
use crate::text;
use crate::text::push_decimal;

verus! {

/// Rate of the host audio path, in hertz.
pub const HOST_SAMPLE_RATE: u32 = 48000;

/// How an engine is set up.
#[derive(Debug, Clone, Copy, PartialEq, Eq, Structural)]
pub struct EngineConfig {
    /// Host rate in hertz.
    pub sample_rate: u32,
    /// Largest buffer a device delivers.
    pub max_device_block: usize,
    /// Samples per inference step.
    pub inference_block: usize,
    /// Samples in each fade of a switch.
    pub fade_samples: usize,
    /// Samples each ring can hold.
    pub queue_capacity: usize,
}

impl Default for EngineConfig {
    /// 30 ms fades, and a quarter of a second of queue.
    fn default() -> (config: Self)
        ensures
            config == (EngineConfig {
                sample_rate: HOST_SAMPLE_RATE,
                max_device_block: 1024,
                inference_block: 128,
                fade_samples: 1440,
                queue_capacity: 12000,
            }),
            config.complaint() is None,
    {
        EngineConfig {
            sample_rate: HOST_SAMPLE_RATE,
            max_device_block: 1024,
            inference_block: 128,
            fade_samples: 1440,
            queue_capacity: 12000,
        }
    }
}

impl EngineConfig {
    /// What is wrong with the configuration, if anything.
    pub open spec fn complaint(&self) -> Option<Seq<char>> {
        if self.sample_rate == 0 {
            Some("sample_rate must be non-zero"@)
        } else if self.inference_block == 0 || self.max_device_block == 0 {
            Some("block sizes must be non-zero"@)
        } else if self.queue_capacity < self.max_device_block * 2 {
            Some(
                "queue_capacity ("@ + text::decimal(self.queue_capacity as nat)
                    + ") must be at least twice max_device_block ("@ + text::decimal(
                    self.max_device_block as nat,
                ) + ")"@,
            )
        } else {
            None
        }
    }

    /// The largest block a runner gets.
    pub open spec fn largest_block(&self) -> usize {
        if self.inference_block > self.max_device_block {
            self.inference_block
        } else {
            self.max_device_block
        }
    }

    /// The largest block a runner gets.
    pub fn runner_block(&self) -> (block: usize)
        ensures
            block == self.largest_block(),
    {
        if self.inference_block > self.max_device_block {
            self.inference_block
        } else {
            self.max_device_block
        }
    }

    /// Refuses a configuration that cannot work.
    pub fn validate(&self) -> (result: Result<(), Error>)
        ensures
            match self.complaint() {
                None => result is Ok,
                Some(reason) => result matches Err(Error::InvalidConfiguration(text)) && text@
                    == reason,
            },
    {
        if self.sample_rate == 0 {
            return Err(Error::InvalidConfiguration("sample_rate must be non-zero".to_owned()));
        }
        if self.inference_block == 0 || self.max_device_block == 0 {
            return Err(Error::InvalidConfiguration("block sizes must be non-zero".to_owned()));
        }
        if self.queue_capacity / 2 < self.max_device_block {
            let mut reason = "queue_capacity (".to_owned();
            push_decimal(&mut reason, self.queue_capacity as u64);
            reason.append(") must be at least twice max_device_block (");
            push_decimal(&mut reason, self.max_device_block as u64);
            reason.append(")");
            return Err(Error::InvalidConfiguration(reason));
        }
        Ok(())
    }
}

/// The ramp once one sample has passed and a requested swap has been served.
pub open spec fn served(ramp: RampState) -> RampState {
    (RampState { swap_pending: false, ..ramp }).ticked()
}

/// The ramp after `count` samples.
pub open spec fn ramp_after(ramp: RampState, count: nat) -> RampState
    decreases count,
{
    if count == 0 {
        ramp
    } else {
        served(ramp_after(ramp, (count - 1) as nat))
    }
}

/// Whether a swap is served within `count` samples.
pub open spec fn swap_within(ramp: RampState, count: nat) -> bool {
    exists|i: int| 0 <= i < count && (#[trigger] ramp_after(ramp, i as nat)).swap_pending
}

/// What the inference thread decides upon.
pub struct WorkerState<S: Stage, C: RateConverter> {
    /// The active runner.
    pub runner: StageRunner<S, C>,
    /// The runner that is being switched to.
    pub incoming: Option<StageRunner<S, C>>,
    /// The switch ramp.
    pub ramp: RampState,
}

/// The worker once it has looked for a published runner: an idle worker that
/// finds one holds silence for the runner's latency and one block more.
pub open spec fn runner_taken<S: Stage, C: RateConverter>(
    state: WorkerState<S, C>,
    offered: Option<StageRunner<S, C>>,
    block: usize,
) -> WorkerState<S, C> {
    match offered {
        Some(incoming) if state.ramp.phase is Idle && state.incoming is None => WorkerState {
            incoming: Some(incoming),
            ramp: state.ramp.begun(
                runner::at_most(incoming.latency() + block, usize::MAX as int) as usize,
            ),
            ..state
        },
        _ => state,
    }
}

/// The worker once the ramp has run over a block.
pub open spec fn ramp_applied<S: Stage, C: RateConverter>(
    state: WorkerState<S, C>,
    block: usize,
) -> WorkerState<S, C> {
    if state.ramp.phase is Idle {
        state
    } else {
        match state.incoming {
            Some(incoming) if swap_within(state.ramp, block as nat) => WorkerState {
                runner: incoming,
                incoming: None,
                ramp: ramp_after(state.ramp, block as nat),
            },
            _ => WorkerState { ramp: ramp_after(state.ramp, block as nat), ..state },
        }
    }
}

/// What has to be done to a block before it is sent: scale each sample by its
/// point on the ramp, if there are any.
#[derive(Debug)]
pub struct StepPlan {
    /// One point per sample during a switch, none otherwise.
    pub gains: Vec<RampGain>,
}

/// Runners that can wait between the threads.
pub const STAGE_QUEUE_DEPTH: usize = 4;

/// Reads a flag that threads share.
fn read_flag(flag: &Arc<AtomicBool>) -> bool {
    flag.load(Ordering::Relaxed)
}

/// Sets a flag that threads share.
fn write_flag(flag: &Arc<AtomicBool>, value: bool) {
    flag.store(value, Ordering::Relaxed);
}

/// What joins the inference thread's half to the others.
pub struct WorkerLinks {
    /// Which ring comes from the device.
    pub incoming: int,
    /// Which ring leads to the device.
    pub outgoing: int,
    /// The flag that bypasses the model.
    pub bypass: Arc<AtomicBool>,
    /// The mark up to which samples from the device are discarded.
    pub stale: Arc<AtomicU64>,
}

/// The inference thread's half of the engine.
#[verifier::reject_recursive_types(S)]
#[verifier::reject_recursive_types(C)]
pub struct Worker<S: Stage, C: RateConverter> {
    runner: StageRunner<S, C>,
    incoming: Option<StageRunner<S, C>>,
    input: Consumer<u32>,
    output: Producer<u32>,
    pending: RunnerInbox<S, C>,
    retired: RunnerOutbox<S, C>,
    ramp: SwitchRamp,
    bypass: Arc<AtomicBool>,
    stale: Arc<AtomicU64>,
    taken: u64,
    status: Status,
    block: usize,
    input_block: Vec<u32>,
    output_block: Vec<u32>,
}

/// What the model makes of a block: its output if it does not fail and is not
/// bypassed, otherwise the block itself.
pub open spec fn model_output<S: Stage, C: RateConverter>(
    state: RunnerState<S, C>,
    stage_block: nat,
    limit: nat,
    input: Seq<u32>,
    bypassed: bool,
) -> Seq<u32> {
    let run = runner::drained(runner::fed(state, input), stage_block);
    if bypassed || input.len() > limit || run.1 is Some {
        input
    } else {
        runner::emitted(run.0.ready, input.len())
    }
}

/// The microphone is never taken down: a bypassed model, a model that fails and
/// a block that is too long all let the block through, sample for sample, and
/// the answer always has the block's length.
pub proof fn law_the_microphone_survives<S: Stage, C: RateConverter>(
    state: RunnerState<S, C>,
    stage_block: nat,
    limit: nat,
    input: Seq<u32>,
    bypassed: bool,
)
    ensures
        model_output(state, stage_block, limit, input, bypassed).len() == input.len(),
        bypassed ==> model_output(state, stage_block, limit, input, bypassed) == input,
        input.len() > limit ==> model_output(state, stage_block, limit, input, bypassed) == input,
        runner::drained(runner::fed(state, input), stage_block).1 is Some ==> model_output(
            state,
            stage_block,
            limit,
            input,
            bypassed,
        ) == input,
{
}

/// What becomes of the runner when the model runs on a block: a block that is
/// too long leaves it alone, and after a failure only the stage itself is not
/// known.
pub open spec fn runner_ran<S: Stage, C: RateConverter>(
    before: StageRunner<S, C>,
    after: StageRunner<S, C>,
    input: Seq<u32>,
) -> bool {
    let run = runner::drained(runner::fed(before@, input), before.spec_of().block_size as nat);
    &&& after.latency() == before.latency()
    &&& after.spec_of() == before.spec_of()
    &&& after.rate() == before.rate()
    &&& after.block_limit() == before.block_limit()
    &&& if input.len() > before.block_limit() {
        after == before
    } else if run.1 is None {
        after@ == runner::emptied(run.0, input.len())
    } else {
        after@ == (RunnerState { stage: after@.stage, ..run.0 })
    }
}

/// Why a runner fails on a block, if it does.
pub open spec fn model_failure<S: Stage, C: RateConverter>(
    runner: StageRunner<S, C>,
    input: Seq<u32>,
) -> Option<signal::error::Error> {
    if input.len() > runner.block_limit() {
        Some(
            signal::error::Error::BufferLength {
                expected: runner.block_limit(),
                actual: input.len() as usize,
            },
        )
    } else {
        runner::drained(runner::fed(runner@, input), runner.spec_of().block_size as nat).1
    }
}

/// What running the model on the block that was read leads to.
pub open spec fn modelled<S: Stage, C: RateConverter>(
    before: Worker<S, C>,
    after: Worker<S, C>,
    bypassed: bool,
) -> bool {
    &&& after.reply() == model_output(
        before.state().runner@,
        before.state().runner.spec_of().block_size as nat,
        before.state().runner.block_limit() as nat,
        before.heard(),
        bypassed,
    )
    &&& runner_ran(before.state().runner, after.state().runner, before.heard())
    &&& after.state().incoming == before.state().incoming
    &&& after.state().ramp == before.state().ramp
    &&& after.heard() == before.heard()
    &&& after.streams() == before.streams()
    &&& after.noted() == before.noted()
    &&& after.looked() == before.looked()
    &&& after.offered() == before.offered()
}

/// How many of the first `mark` samples are left to discard once `taken` have
/// been taken.
pub open spec fn left_to_discard(mark: u64, taken: u64) -> int {
    if mark > taken {
        mark - taken
    } else {
        0
    }
}

/// What reading a block leads to, given how many samples from the first on are
/// to be discarded: as many as are there go first, and a block is read only when
/// none of them is left.
pub open spec fn block_read<S: Stage, C: RateConverter>(
    before: Worker<S, C>,
    after: Worker<S, C>,
    mark: u64,
    read: bool,
) -> bool {
    let step = before.step_len() as int;
    let stale = left_to_discard(mark, before.taken());
    let grown = after.received().len() - before.received().len();
    let lost = if read {
        grown - step
    } else {
        grown as int
    };
    &&& before.received().is_prefix_of(after.received())
    &&& 0 <= lost <= stale
    &&& lost < stale ==> !read && after.stocked() == 0 && lost >= before.stocked()
    &&& before.stocked() >= stale + step && before.free() >= step ==> read
    &&& after.taken() == bridge::capped(before.taken() + grown)
    &&& after.sent() == before.sent()
    &&& after.free() >= before.free()
    &&& after.stocked() + grown >= before.stocked()
    &&& after.state() == before.state()
    &&& after.reply() == before.reply()
    &&& after.looked() == before.looked()
    &&& after.offered() == before.offered()
    &&& if read {
        &&& after.heard().len() == step
        &&& after.heard() == after.received().skip(after.received().len() - step)
        &&& after.free() >= step
        &&& after.noted() == before.noted()
    } else {
        &&& after.heard() == before.heard()
        &&& !after.can_step()
        &&& after.noted() == (WorkerReport {
            idle_polls: status::counted(before.noted().idle_polls),
            ..before.noted()
        })
    }
}

/// No model hears a sample that was queued before a flush: a flush asks for every
/// sample handed over so far to be discarded, and a block that is read once the
/// request has arrived lies behind all of them.
pub proof fn law_flushed_samples_are_never_heard<S: Stage, C: RateConverter>(
    bridge: AudioBridge,
    before: Worker<S, C>,
    after: Worker<S, C>,
)
    requires
        bridge.in_count(),
        bridge.requested() == bridge.handed(),
        before.in_count(),
        block_read(before, after, bridge.requested(), true),
        bridge.sent().len() <= u64::MAX,
        after.received().len() <= u64::MAX,
    ensures
        after.in_count(),
        after.received().len() - after.heard().len() >= bridge.sent().len(),
        after.heard() == after.received().skip(
            after.received().len() - after.heard().len(),
        ),
{
}

/// Discards the oldest samples of a ring.
fn drop_oldest(consumer: &mut Consumer<u32>, count: usize)
    requires
        rings::stocked(*old(consumer)) >= count,
    ensures
        rings::received(*old(consumer)).is_prefix_of(rings::received(*final(consumer))),
        rings::received(*final(consumer)).len() == rings::received(*old(consumer)).len() + count,
        rings::stocked(*final(consumer)) == rings::stocked(*old(consumer)) - count,
        rings::read_ring(*final(consumer)) == rings::read_ring(*old(consumer)),
{
    let mut dropped: usize = 0;
    while dropped < count
        invariant
            dropped <= count,
            rings::stocked(*old(consumer)) >= count,
            rings::received(*old(consumer)).is_prefix_of(rings::received(*consumer)),
            rings::received(*consumer).len() == rings::received(*old(consumer)).len() + dropped,
            rings::stocked(*consumer) == rings::stocked(*old(consumer)) - dropped,
            rings::read_ring(*consumer) == rings::read_ring(*old(consumer)),
        decreases count - dropped,
    {
        rings::pop_sample(consumer);
        dropped = dropped + 1;
    }
}

/// The sample streams of the inference thread.
pub struct WorkerStreams {
    /// Every sample taken from the device so far.
    pub received: Seq<u32>,
    /// How many samples this half has taken from the device.
    pub taken: u64,
    /// Samples from the device that are known of.
    pub stocked: nat,
    /// Every sample sent to the device so far.
    pub sent: Seq<u32>,
    /// Free slots toward the device that are known of.
    pub free: nat,
}

/// The ends of the rings of runners that a worker had.
#[verifier::reject_recursive_types(S)]
#[verifier::reject_recursive_types(C)]
pub struct RetiredEnds<S: Stage, C: RateConverter> {
    pending: RunnerInbox<S, C>,
    retired: RunnerOutbox<S, C>,
}

impl<S: Stage, C: RateConverter> RetiredEnds<S, C> {
    /// What each look for a published runner has found.
    pub closed spec fn looked(&self) -> Seq<Option<ReadyRunner<S, C>>> {
        self.pending.found()
    }

    /// The runners offered back to the control thread.
    pub closed spec fn offered(&self) -> Seq<StageRunner<S, C>> {
        mailbox::runners_of(self.retired.offers())
    }
}

impl<S: Stage, C: RateConverter> Worker<S, C> {
    /// What the worker decides upon.
    pub closed spec fn state(&self) -> WorkerState<S, C> {
        WorkerState { runner: self.runner, incoming: self.incoming, ramp: self.ramp@ }
    }

    /// Samples per step.
    pub closed spec fn step_len(&self) -> usize {
        self.block
    }

    /// What joins this half to the others.
    pub closed spec fn links(&self) -> WorkerLinks {
        WorkerLinks {
            incoming: rings::read_ring(self.input),
            outgoing: rings::written_ring(self.output),
            bypass: self.bypass,
            stale: self.stale,
        }
    }

    /// The sample streams.
    pub closed spec fn streams(&self) -> WorkerStreams {
        WorkerStreams {
            received: rings::received(self.input),
            taken: self.taken,
            stocked: rings::stocked(self.input),
            sent: rings::sent(self.output),
            free: rings::free(self.output),
        }
    }

    /// Every sample taken from the device so far.
    pub open spec fn received(&self) -> Seq<u32> {
        self.streams().received
    }

    /// How many samples this half has taken from the device.
    pub open spec fn taken(&self) -> u64 {
        self.streams().taken
    }

    /// Whether this half has counted everything that it took from its ring.
    pub open spec fn in_count(&self) -> bool {
        self.taken() == bridge::capped(self.received().len() as int)
    }

    /// Samples from the device that are known of.
    pub open spec fn stocked(&self) -> nat {
        self.streams().stocked
    }

    /// Every sample sent to the device so far.
    pub open spec fn sent(&self) -> Seq<u32> {
        self.streams().sent
    }

    /// Free slots toward the device that are known of.
    pub open spec fn free(&self) -> nat {
        self.streams().free
    }

    /// The block read last.
    pub closed spec fn heard(&self) -> Seq<u32> {
        self.input_block@
    }

    /// The block to be sent.
    pub closed spec fn reply(&self) -> Seq<u32> {
        self.output_block@
    }

    /// What the control thread is to be told.
    pub closed spec fn noted(&self) -> WorkerReport {
        status::worker_part(self.status@)
    }

    /// What each look for a published runner has found.
    pub closed spec fn looked(&self) -> Seq<Option<ReadyRunner<S, C>>> {
        self.pending.found()
    }

    /// The runners offered back to the control thread.
    pub closed spec fn offered(&self) -> Seq<StageRunner<S, C>> {
        mailbox::runners_of(self.retired.offers())
    }

    /// Whether the runners are intact, the ramp lies inside its phase,
    /// and the blocks have the step's length.
    pub closed spec fn wf(&self) -> bool {
        &&& self.runner.wf()
        &&& self.incoming matches Some(incoming) ==> incoming.wf()
        &&& self.ramp.wf()
        &&& self.block > 0
        &&& self.input_block@.len() == self.block
        &&& self.output_block@.len() == self.block
    }

    /// Whether a step can run: a whole block is known to be there, and there
    /// is known to be room for one.
    pub open spec fn can_step(&self) -> bool {
        self.stocked() >= self.step_len() && self.free() >= self.step_len()
    }

    /// Assembles a worker around its ring ends, the flag that bypasses the
    /// model, the mark up to which samples are discarded, and a status to go on
    /// from.
    pub fn new(
        runner: StageRunner<S, C>,
        input: Consumer<u32>,
        output: Producer<u32>,
        pending: Consumer<ReadyRunner<S, C>>,
        retired: Producer<ReadyRunner<S, C>>,
        bypass: Arc<AtomicBool>,
        stale: Arc<AtomicU64>,
        status: Status,
        block: usize,
        fade_samples: usize,
    ) -> (worker: Self)
        requires
            runner.wf(),
            block > 0,
        ensures
            worker.wf(),
            worker.step_len() == block,
            worker.links() == (WorkerLinks {
                incoming: rings::read_ring(input),
                outgoing: rings::written_ring(output),
                bypass,
                stale,
            }),
            worker.taken() == 0,
            worker.received() == rings::received(input),
            worker.stocked() == rings::stocked(input),
            worker.sent() == rings::sent(output),
            worker.free() == rings::free(output),
            worker.noted() == (WorkerReport {
                latency_ms: runner.shown_latency(),
                ..status::worker_part(status@)
            }),
            worker.looked() == Seq::<Option<ReadyRunner<S, C>>>::empty(),
            worker.offered() == Seq::<StageRunner<S, C>>::empty(),
            worker.state() == (WorkerState {
                runner,
                incoming: None,
                ramp: RampState {
                    phase: Phase::Idle,
                    fade: fade_samples,
                    remaining: 0,
                    priming: 0,
                    swap_pending: false,
                },
            }),
    {
        let mut status = status;
        status.set_latency_ms(runner.latency_ms());
        let worker = Worker {
            runner,
            incoming: None,
            input,
            output,
            pending: RunnerInbox::new(pending),
            retired: RunnerOutbox::new(retired),
            ramp: SwitchRamp::new(fade_samples),
            bypass,
            stale,
            taken: 0,
            status,
            block,
            input_block: vec![0; block],
            output_block: vec![0; block],
        };
        assert(worker.offered() =~= Seq::<StageRunner<S, C>>::empty());
        worker
    }

    /// Whether a switch ramp is in progress.
    pub fn is_switching(&self) -> (switching: bool)
        ensures
            switching == !(self.state().ramp.phase is Idle),
    {
        self.ramp.is_switching()
    }

    /// End-to-end delay of the active stage, in host samples.
    pub fn latency_samples(&self) -> (latency: usize)
        ensures
            latency == self.state().runner.latency(),
    {
        self.runner.latency_samples()
    }

    /// The block to be sent, before it is scaled.
    pub fn output_block(&self) -> (block: &[u32])
        ensures
            block@ == self.reply(),
    {
        self.output_block.as_slice()
    }

    /// What the control thread is to be told.
    pub fn report(&self) -> (report: WorkerReport)
        ensures
            report == self.noted(),
    {
        self.status.worker_report()
    }

    /// Reads one block, if a whole one is there and its answer will fit, after
    /// discarding what the audio callback's half asked to discard. Whether there
    /// is a block depends on the device. A poll that finds too little is counted.
    pub fn read_block(&mut self) -> (read: bool)
        requires
            old(self).wf(),
        ensures
            final(self).wf(),
            final(self).step_len() == old(self).step_len(),
            final(self).links() == old(self).links(),
            exists|mark: u64| #[trigger] block_read(*old(self), *final(self), mark, read),
    {
        let mark: u64 = read_mark(&self.stale);
        self.read_block_past(mark)
    }

    /// Reads one block, if a whole one is there and its answer will fit, after
    /// discarding what is left of the first `mark` samples from the device.
    pub fn read_block_past(&mut self, mark: u64) -> (read: bool)
        requires
            old(self).wf(),
        ensures
            final(self).wf(),
            final(self).step_len() == old(self).step_len(),
            final(self).links() == old(self).links(),
            block_read(*old(self), *final(self), mark, read),
    {
        let block: usize = self.block;
        let there: usize = rings::stocked_slots(&mut self.input);
        let room: usize = rings::free_slots(&mut self.output);
        let stale: u64 = if mark > self.taken { mark - self.taken } else { 0 };
        let lost: usize = if stale < there as u64 { stale as usize } else { there };
        drop_oldest(&mut self.input, lost);
        self.taken = self.taken.saturating_add(lost as u64);
        let left: usize = there - lost;
        if left < block || room < block {
            self.status.add_idle_poll();
            return false;
        }
        let mut fresh: Vec<u32> = vec![0; block];
        let ghost before = self.received();
        let count: usize = rings::pop_block(&mut self.input, fresh.as_mut_slice());
        assert(fresh@.take(count as int) =~= fresh@);
        self.taken = self.taken.saturating_add(block as u64);
        self.input_block = fresh;
        assert(self.received().skip(before.len() as int) =~= self.heard());
        true
    }

    /// Runs the active model on the block. A failing model does not take the
    /// microphone down with it: the block passes through. A bypassed model
    /// keeps running, and its output is discarded. Whether the model is bypassed
    /// is up to the control thread. Returns why the model failed, if it did.
    pub fn run_model(&mut self) -> (failure: Option<signal::error::Error>)
        requires
            old(self).wf(),
        ensures
            final(self).wf(),
            final(self).step_len() == old(self).step_len(),
            final(self).links() == old(self).links(),
            failure == model_failure(old(self).state().runner, old(self).heard()),
            exists|bypassed: bool| #[trigger] modelled(*old(self), *final(self), bypassed),
    {
        let bypassed: bool = read_flag(&self.bypass);
        self.run_model_as(bypassed)
    }

    /// Runs the active model on the block, given whether it is bypassed. Returns
    /// why the model failed, if it did.
    pub fn run_model_as(&mut self, bypassed: bool) -> (failure: Option<signal::error::Error>)
        requires
            old(self).wf(),
        ensures
            final(self).wf(),
            final(self).step_len() == old(self).step_len(),
            final(self).links() == old(self).links(),
            failure == model_failure(old(self).state().runner, old(self).heard()),
            modelled(*old(self), *final(self), bypassed),
    {
        let mut produced: Vec<u32> = vec![0; self.block];
        let answer = self.runner.process(self.input_block.as_slice(), produced.as_mut_slice());
        let failure: Option<signal::error::Error> = match answer {
            Ok(()) => None,
            Err(error) => Some(error),
        };
        if failure.is_some() || bypassed {
            copy_samples(self.input_block.as_slice(), self.output_block.as_mut_slice());
        } else {
            self.output_block = produced;
        }
        failure
    }

    /// Looks for a published runner, unless a switch is in progress, and runs
    /// the ramp over one block. What is found depends on the control thread.
    pub fn apply_ramp(&mut self) -> (plan: StepPlan)
        requires
            old(self).wf(),
        ensures
            final(self).wf(),
            final(self).step_len() == old(self).step_len(),
            final(self).links() == old(self).links(),
            final(self).streams() == old(self).streams(),
            final(self).heard() == old(self).heard(),
            final(self).reply() == old(self).reply(),
            if old(self).state().ramp.phase is Idle && old(self).state().incoming is None {
                &&& final(self).looked().len() == old(self).looked().len() + 1
                &&& final(self).looked().drop_last() == old(self).looked()
                &&& ramp_step(
                    *old(self),
                    mailbox::found_runner(final(self).looked().last()),
                    *final(self),
                    plan,
                )
            } else {
                &&& final(self).looked() == old(self).looked()
                &&& ramp_step(*old(self), None, *final(self), plan)
            },
    {
        if self.ramp.is_switching() || self.incoming.is_some() {
            self.apply_ramp_offered(None)
        } else {
            let look = self.pending.look();
            assert(self.looked().drop_last() =~= old(self).looked());
            match look {
                Some(ready) => {
                    let runner = ready.into_runner();
                    self.apply_ramp_offered(Some(runner))
                },
                None => self.apply_ramp_offered(None),
            }
        }
    }

    /// Runs the ramp over one block, given the runner that was found.
    pub fn apply_ramp_offered(&mut self, offered: Option<StageRunner<S, C>>) -> (plan: StepPlan)
        requires
            old(self).wf(),
            offered matches Some(incoming) ==> incoming.wf(),
        ensures
            final(self).wf(),
            final(self).step_len() == old(self).step_len(),
            final(self).links() == old(self).links(),
            final(self).streams() == old(self).streams(),
            final(self).heard() == old(self).heard(),
            final(self).reply() == old(self).reply(),
            final(self).looked() == old(self).looked(),
            ramp_step(*old(self), offered, *final(self), plan),
    {
        let block: usize = self.block;
        match offered {
            Some(runner) => {
                if !self.ramp.is_switching() && self.incoming.is_none() {
                    let priming: usize = runner.latency_samples().saturating_add(block);
                    self.incoming = Some(runner);
                    self.ramp.begin(priming);
                }
            },
            None => {},
        }
        let ghost begun = self.state();
        assert(begun == runner_taken(old(self).state(), offered, block));
        let mut gains: Vec<RampGain> = Vec::new();
        if !self.ramp.is_switching() {
            self.status.set_switching(false);
            return StepPlan { gains };
        }
        let ghost mut swapped = false;
        while gains.len() < block
            invariant
                self.wf(),
                block == self.block,
                gains@.len() <= block,
                self.input == old(self).input,
                self.output == old(self).output,
                self.input_block == old(self).input_block,
                self.output_block == old(self).output_block,
                self.block == old(self).block,
                self.bypass == old(self).bypass,
                self.stale == old(self).stale,
                self.taken == old(self).taken,
                self.pending == old(self).pending,
                self.ramp@ == ramp_after(begun.ramp, gains@.len()),
                swapped == swap_within(begun.ramp, gains@.len()),
                self.runner == (if swapped && begun.incoming is Some {
                    begun.incoming->0
                } else {
                    begun.runner
                }),
                self.incoming == (if swapped {
                    None
                } else {
                    begun.incoming
                }),
                self.offered() == (if swapped && begun.incoming is Some {
                    old(self).offered().push(begun.runner)
                } else {
                    old(self).offered()
                }),
                self.noted() == (if swapped && begun.incoming is Some {
                    WorkerReport {
                        latency_ms: self.runner.shown_latency(),
                        ..old(self).noted()
                    }
                } else {
                    old(self).noted()
                }),
                forall|i: int|
                    0 <= i < gains@.len() ==> #[trigger] gains@[i] == ramp_after(
                        begun.ramp,
                        i as nat,
                    ).gain(),
            decreases block - gains@.len(),
        {
            let ghost at = gains@.len();
            let wanted: bool = self.ramp.wants_swap();
            if wanted {
                self.perform_swap();
            }
            proof {
                if wanted {
                    assert(ramp_after(begun.ramp, at).swap_pending);
                    swapped = true;
                } else if swap_within(begun.ramp, at + 1) {
                    let i = choose|i: int|
                        0 <= i < at + 1 && (#[trigger] ramp_after(
                            begun.ramp,
                            i as nat,
                        )).swap_pending;
                    assert(i < at);
                }
                if swap_within(begun.ramp, at) {
                    let i = choose|i: int|
                        0 <= i < at && (#[trigger] ramp_after(begun.ramp, i as nat)).swap_pending;
                    assert(0 <= i < at + 1);
                }
            }
            let gain = self.ramp.next_gain();
            gains.push(gain);
            assert(ramp_after(begun.ramp, at + 1) == served(ramp_after(begun.ramp, at)));
        }
        self.status.set_switching(self.ramp.is_switching());
        StepPlan { gains }
    }

    /// Makes the incoming runner the active one and retires the other. If the
    /// control thread has not made room, the retired runner is dropped.
    fn perform_swap(&mut self)
        requires
            old(self).wf(),
        ensures
            final(self).wf(),
            final(self).block == old(self).block,
            final(self).ramp == old(self).ramp,
            final(self).input == old(self).input,
            final(self).output == old(self).output,
            final(self).bypass == old(self).bypass,
            final(self).stale == old(self).stale,
            final(self).taken == old(self).taken,
            final(self).pending == old(self).pending,
            final(self).input_block == old(self).input_block,
            final(self).output_block == old(self).output_block,
            final(self).incoming is None,
            match old(self).incoming {
                Some(incoming) => {
                    &&& final(self).runner == incoming
                    &&& final(self).offered() == old(self).offered().push(old(self).runner)
                    &&& final(self).noted() == (WorkerReport {
                        latency_ms: incoming.shown_latency(),
                        ..old(self).noted()
                    })
                },
                None => {
                    &&& final(self).runner == old(self).runner
                    &&& final(self).offered() == old(self).offered()
                    &&& final(self).noted() == old(self).noted()
                },
            },
    {
        match self.incoming.take() {
            Some(mut runner) => {
                std::mem::swap(&mut self.runner, &mut runner);
                self.status.set_latency_ms(self.runner.latency_ms());
                self.retired.offer(runner);
                assert(self.offered() =~= old(self).offered().push(old(self).runner));
            },
            None => {},
        }
    }

    /// Sends the scaled block to the device.
    pub fn send_block(&mut self, scaled: &[u32])
        requires
            old(self).wf(),
            scaled@.len() == old(self).step_len(),
            old(self).free() >= old(self).step_len(),
        ensures
            final(self).wf(),
            final(self).step_len() == old(self).step_len(),
            final(self).links() == old(self).links(),
            final(self).state() == old(self).state(),
            final(self).received() == old(self).received(),
            final(self).taken() == old(self).taken(),
            final(self).stocked() == old(self).stocked(),
            final(self).sent() == old(self).sent() + scaled@,
            final(self).free() == old(self).free() - scaled@.len(),
            final(self).heard() == old(self).heard(),
            final(self).reply() == old(self).reply(),
            final(self).noted() == old(self).noted(),
            final(self).looked() == old(self).looked(),
            final(self).offered() == old(self).offered(),
    {
        let count: usize = rings::push_block(&mut self.output, scaled);
        assert(scaled@.take(count as int) =~= scaled@);
    }

    /// Hands every runner back to the control thread, as far as it has room: the
    /// active one, the one that was being switched to, and those still waiting.
    /// How many wait, and what of the offers the ring keeps, depends on the
    /// control thread. Returns the ring ends with the logs of what was looked for
    /// and offered, for the caller to drop.
    pub fn retire_everything(self) -> (ends: RetiredEnds<S, C>)
        requires
            self.wf(),
        ensures
            self.looked().is_prefix_of(ends.looked()),
            mailbox::emptied_by(ends.looked().skip(self.looked().len() as int)),
            ends.offered() == (self.offered().push(self.state().runner) + (
            match self.state().incoming {
                Some(incoming) => seq![incoming],
                None => Seq::empty(),
            })) + mailbox::runners_found(ends.looked().skip(self.looked().len() as int)),
    {
        let mut retired = self.retired;
        let mut pending = self.pending;
        let ghost before = pending.found();
        retired.offer(self.runner);
        assert(mailbox::runners_of(retired.offers()) =~= self.offered().push(self.state().runner));
        match self.incoming {
            Some(incoming) => {
                retired.offer(incoming);
            },
            None => {},
        }
        let ghost base = self.offered().push(self.state().runner) + (match self.state().incoming {
            Some(incoming) => seq![incoming],
            None => Seq::empty(),
        });
        assert(mailbox::runners_of(retired.offers()) =~= base);
        let mut taken: u64 = 0;
        let mut more: bool = true;
        assert(pending.found().skip(before.len() as int) =~= Seq::empty());
        assert(base + mailbox::runners_found(pending.found().skip(before.len() as int)) =~= base);
        while more && taken < LOOK_LIMIT
            invariant
                taken <= LOOK_LIMIT,
                before.is_prefix_of(pending.found()),
                more ==> pending.found().len() == before.len() + taken,
                more ==> forall|i: int|
                    before.len() <= i < pending.found().len() ==> (#[trigger] pending.found()[i])
                        is Some,
                !more ==> mailbox::emptied_by(pending.found().skip(before.len() as int)),
                mailbox::runners_of(retired.offers()) == base + mailbox::runners_found(
                    pending.found().skip(before.len() as int),
                ),
            decreases
                LOOK_LIMIT - taken + (if more {
                    1int
                } else {
                    0
                }),
        {
            let ghost held = pending.found();
            let ghost offers = retired.offers();
            let look = pending.look();
            let ghost looks = pending.found().skip(before.len() as int);
            proof {
                mailbox::lemma_one_more_look(before, held, look);
                assert(looks.drop_last() =~= held.skip(before.len() as int));
                assert(looks.last() == look);
            }
            match look {
                Some(ready) => {
                    retired.offer(ready.into_runner());
                    taken = taken + 1;
                    let ghost now = mailbox::runners_of(retired.offers());
                    assert(now =~= mailbox::runners_of(offers).push(ready.inner()));
                    assert(now =~= base + mailbox::runners_found(looks));
                },
                None => {
                    more = false;
                },
            }
        }
        proof {
            mailbox::lemma_looks_emptied(before, pending.found(), more, taken);
        }
        RetiredEnds { pending, retired }
    }
}

/// What running the ramp over a block does to the inference thread's half,
/// given what was found: a swap offers the runner that was active back and
/// changes the latency that is shown.
pub open spec fn ramp_step<S: Stage, C: RateConverter>(
    before: Worker<S, C>,
    offered: Option<StageRunner<S, C>>,
    after: Worker<S, C>,
    plan: StepPlan,
) -> bool {
    let begun = runner_taken(before.state(), offered, before.step_len());
    let swapped = !(begun.ramp.phase is Idle) && begun.incoming is Some && swap_within(
        begun.ramp,
        before.step_len() as nat,
    );
    &&& ramp_done(before.state(), offered, before.step_len(), after.state(), plan)
    &&& after.offered() == (if swapped {
        before.offered().push(before.state().runner)
    } else {
        before.offered()
    })
    &&& after.noted() == (WorkerReport {
        switching: !(after.state().ramp.phase is Idle),
        latency_ms: if swapped {
            after.state().runner.shown_latency()
        } else {
            before.noted().latency_ms
        },
        ..before.noted()
    })
}

/// What running the ramp over a block leads to, given what was found.
pub open spec fn ramp_done<S: Stage, C: RateConverter>(
    before: WorkerState<S, C>,
    offered: Option<StageRunner<S, C>>,
    block: usize,
    after: WorkerState<S, C>,
    plan: StepPlan,
) -> bool {
    let begun = runner_taken(before, offered, block);
    &&& after == ramp_applied(begun, block)
    &&& if begun.ramp.phase is Idle {
        plan.gains@.len() == 0
    } else {
        &&& plan.gains@.len() == block
        &&& forall|i: int|
            0 <= i < block ==> #[trigger] plan.gains@[i] == ramp_after(
                begun.ramp,
                i as nat,
            ).gain()
    }
}

/// Successive blocks of an inference thread that finds a runner before the first of
/// them and none later: what it decides upon before and after each block, and how
/// each block is scaled. Between the blocks only the active runner moves on.
pub open spec fn switch_blocks<S: Stage, C: RateConverter>(
    befores: Seq<WorkerState<S, C>>,
    afters: Seq<WorkerState<S, C>>,
    plans: Seq<StepPlan>,
    incoming: StageRunner<S, C>,
    block: usize,
) -> bool {
    &&& befores.len() == afters.len() == plans.len()
    &&& befores.len() > 0 ==> befores[0].ramp.phase is Idle && befores[0].incoming is None
    &&& befores.len() > 0 ==> ramp_done(
        befores[0],
        Some(incoming),
        block,
        afters[0],
        plans[0],
    )
    &&& forall|k: int|
        0 < k < befores.len() ==> #[trigger] ramp_done(
            befores[k],
            None,
            block,
            afters[k],
            plans[k],
        )
    &&& forall|k: int|
        0 < k < befores.len() ==> (#[trigger] befores[k]).ramp == afters[k - 1].ramp
            && befores[k].incoming == afters[k - 1].incoming
}

/// The envelope that a switch puts on the output, over any number of blocks: it
/// falls to silence in one fade, is silent for the latency of the incoming runner
/// and one block more, rises in another fade, and then leaves the blocks alone.
pub proof fn law_a_switch_is_silent_for_the_latency_and_a_block<S: Stage, C: RateConverter>(
    befores: Seq<WorkerState<S, C>>,
    afters: Seq<WorkerState<S, C>>,
    plans: Seq<StepPlan>,
    incoming: StageRunner<S, C>,
    block: usize,
    k: int,
    i: int,
)
    requires
        switch_blocks(befores, afters, plans, incoming, block),
        0 <= k < befores.len(),
        0 <= i < block,
        incoming.latency() + block <= usize::MAX,
    ensures
        ({
            let fade = befores[0].ramp.fade as int;
            let speaks = fade + incoming.latency() + block;
            let count = k * block + i;
            let gain = plans[k].gains@[i];
            if k * block < speaks + fade {
                &&& plans[k].gains@.len() == block
                &&& fade > 0 ==> gain.length == fade
                &&& count < fade ==> gain.position == fade - 1 - count
                &&& fade <= count < speaks ==> gain.position == 0 && gain.length > 0
                &&& speaks <= count < speaks + fade ==> gain.position == count - speaks + 1
                &&& speaks + fade <= count ==> gain.position == gain.length
            } else {
                plans[k].gains@.len() == 0
            }
        }),
{
    lemma_switch_so_far(befores, afters, plans, incoming, block, k);
    let begun = befores[0].ramp.begun((incoming.latency() + block) as usize);
    assert(k * block >= 0) by (nonlinear_arith)
        requires
            k >= 0,
            block >= 0,
    ;
    let at = (k * block) as nat;
    lemma_ramp_goes_on(begun, at, i as nat);
    lemma_ramp_phases(befores[0].ramp, (incoming.latency() + block) as usize, at);
    lemma_ramp_phases(
        befores[0].ramp,
        (incoming.latency() + block) as usize,
        (at + i) as nat,
    );
}

/// The switch swaps once, in the block that holds the first silent sample behind
/// the fade-out; before it the outgoing runner plays on, and the worker is
/// switching until the second fade has ended.
pub proof fn law_a_switch_swaps_where_silence_begins<S: Stage, C: RateConverter>(
    befores: Seq<WorkerState<S, C>>,
    afters: Seq<WorkerState<S, C>>,
    plans: Seq<StepPlan>,
    incoming: StageRunner<S, C>,
    block: usize,
    k: int,
)
    requires
        switch_blocks(befores, afters, plans, incoming, block),
        0 <= k < befores.len(),
        0 < block,
        incoming.latency() + block <= usize::MAX,
    ensures
        ({
            let fade = befores[0].ramp.fade as int;
            let silence = incoming.latency() + block;
            &&& afters[k].runner == (if k * block <= fade < (k + 1) * block {
                incoming
            } else {
                befores[k].runner
            })
            &&& afters[k].incoming == (if fade < (k + 1) * block {
                None
            } else {
                Some(incoming)
            })
            &&& afters[k].ramp.phase is Idle <==> (k + 1) * block >= fade + silence + fade
        }),
{
    lemma_switch_so_far(befores, afters, plans, incoming, block, k);
    assert((k + 1) * block >= 0) by (nonlinear_arith)
        requires
            k >= 0,
            block >= 0,
    ;
    lemma_ramp_phases(
        befores[0].ramp,
        (incoming.latency() + block) as usize,
        ((k + 1) * block) as nat,
    );
}

/// What is heard of an incoming runner is never its silence: the runner is fed from
/// the block behind the one that swapped it in, and wherever a later sample is not
/// scaled to silence, the runner has before answered at least as many samples as
/// its latency.
pub proof fn law_an_incoming_runner_is_heard_past_its_latency<S: Stage, C: RateConverter>(
    befores: Seq<WorkerState<S, C>>,
    afters: Seq<WorkerState<S, C>>,
    plans: Seq<StepPlan>,
    incoming: StageRunner<S, C>,
    block: usize,
    swapped: int,
    k: int,
    i: int,
)
    requires
        switch_blocks(befores, afters, plans, incoming, block),
        incoming.latency() + block <= usize::MAX,
        0 <= swapped <= k < befores.len(),
        0 <= i < block,
        befores[0].ramp.fade >= swapped * block,
        befores[0].ramp.fade <= k * block + i,
        swapped * block + block > befores[0].ramp.fade,
        k < plans.len(),
        plans[k].gains@.len() == 0 || plans[k].gains@[i].position > 0
            || plans[k].gains@[i].length == 0,
    ensures
        afters[swapped].runner == incoming,
        swapped < k,
        (k - swapped - 1) * block + i >= incoming.latency(),
{
    let fade = befores[0].ramp.fade as int;
    law_a_switch_is_silent_for_the_latency_and_a_block(
        befores,
        afters,
        plans,
        incoming,
        block,
        k,
        i,
    );
    law_a_switch_swaps_where_silence_begins(befores, afters, plans, incoming, block, swapped);
    assert((swapped + 1) * block == swapped * block + block) by (nonlinear_arith);
    assert((k - swapped - 1) * block == k * block - swapped * block - block)
        by (nonlinear_arith);
    assert(k * block + i >= fade + incoming.latency() + block);
    if k == swapped {
        assert(k * block == swapped * block);
    }
}

/// A ramp goes on where it was left.
proof fn lemma_ramp_goes_on(ramp: RampState, first: nat, more: nat)
    ensures
        ramp_after(ramp, first + more) == ramp_after(ramp_after(ramp, first), more),
    decreases more,
{
    if more > 0 {
        lemma_ramp_goes_on(ramp, first, (more - 1) as nat);
        assert((first + more - 1) as nat == first + (more - 1) as nat);
    }
}

/// The phase and what remains of it, after `count` samples of a switch that holds
/// some silence.
proof fn lemma_ramp_phases(idle: RampState, silence: usize, count: nat)
    requires
        idle.phase is Idle,
        silence > 0,
    ensures
        ({
            let fade = idle.fade as int;
            let ramp = ramp_after(idle.begun(silence), count);
            &&& ramp.fade == idle.fade
            &&& ramp.priming == silence
            &&& ramp.swap_pending == (count == fade)
            &&& if count < fade {
                ramp.phase is FadingOut && ramp.remaining == fade - count
            } else if count < fade + silence {
                ramp.phase is Priming && ramp.remaining == fade + silence - count
            } else if count < fade + silence + fade {
                ramp.phase is FadingIn && ramp.remaining == fade + silence + fade - count
            } else {
                ramp.phase is Idle && ramp.remaining == 0
            }
        }),
    decreases count,
{
    if count > 0 {
        lemma_ramp_phases(idle, silence, (count - 1) as nat);
    }
}

/// Where a switch stands before and after one of its blocks.
proof fn lemma_switch_so_far<S: Stage, C: RateConverter>(
    befores: Seq<WorkerState<S, C>>,
    afters: Seq<WorkerState<S, C>>,
    plans: Seq<StepPlan>,
    incoming: StageRunner<S, C>,
    block: usize,
    k: int,
)
    requires
        switch_blocks(befores, afters, plans, incoming, block),
        0 <= k < befores.len(),
        0 < block,
        incoming.latency() + block <= usize::MAX,
    ensures
        ({
            let fade = befores[0].ramp.fade as int;
            let begun = befores[0].ramp.begun((incoming.latency() + block) as usize);
            let now = if k == 0 {
                runner_taken(befores[0], Some(incoming), block)
            } else {
                befores[k]
            };
            &&& now.runner == befores[k].runner
            &&& now.ramp == ramp_after(begun, (k * block) as nat)
            &&& now.incoming == (if fade < k * block {
                None
            } else {
                Some(incoming)
            })
            &&& afters[k].ramp == ramp_after(begun, ((k + 1) * block) as nat)
            &&& afters[k].incoming == (if fade < (k + 1) * block {
                None
            } else {
                Some(incoming)
            })
            &&& afters[k].runner == (if k * block <= fade < (k + 1) * block {
                incoming
            } else {
                befores[k].runner
            })
            &&& now == runner_taken(
                befores[k],
                if k == 0 {
                    Some(incoming)
                } else {
                    None
                },
                block,
            )
            &&& ramp_done(
                befores[k],
                if k == 0 {
                    Some(incoming)
                } else {
                    None
                },
                block,
                afters[k],
                plans[k],
            )
        }),
    decreases k,
{
    let fade = befores[0].ramp.fade as int;
    let silence = (incoming.latency() + block) as usize;
    let begun = befores[0].ramp.begun(silence);
    let now = if k == 0 {
        runner_taken(befores[0], Some(incoming), block)
    } else {
        befores[k]
    };
    assert(k * block >= 0 && (k + 1) * block == k * block + block) by (nonlinear_arith)
        requires
            k >= 0,
            block >= 0,
    ;
    let at = (k * block) as nat;
    if k > 0 {
        assert(ramp_done(befores[k], None, block, afters[k], plans[k]));
        assert(befores[k].ramp == afters[k - 1].ramp);
        lemma_switch_so_far(befores, afters, plans, incoming, block, k - 1);
        assert((k - 1 + 1) * block == k * block);
    } else {
        assert(k * block == 0) by (nonlinear_arith)
            requires
                k == 0,
        ;
    }
    assert(now.ramp == ramp_after(begun, at));
    lemma_ramp_goes_on(begun, at, block as nat);
    lemma_ramp_phases(befores[0].ramp, silence, at);
    lemma_ramp_phases(befores[0].ramp, silence, at + block as nat);
    assert forall|i: int| 0 <= i < block implies (#[trigger] ramp_after(
        now.ramp,
        i as nat,
    )).swap_pending == (at + i == fade) by {
        lemma_ramp_goes_on(begun, at, i as nat);
        lemma_ramp_phases(befores[0].ramp, silence, (at + i) as nat);
    }
    if at <= fade < at + block {
        assert(ramp_after(now.ramp, (fade - at) as nat).swap_pending);
    }
    if now.ramp.phase is Idle {
        assert(ramp_after(begun, at + block as nat) == now.ramp);
    }
}

/// The control thread's half of the engine.
#[verifier::reject_recursive_types(S)]
#[verifier::reject_recursive_types(C)]
pub struct Engine<S: Stage, C: RateConverter> {
    config: EngineConfig,
    running: bool,
    status: Status,
    bypass: Arc<AtomicBool>,
    pending_runners: Option<RunnerOutbox<S, C>>,
    retired_runners: Option<RunnerInbox<S, C>>,
}

impl<S: Stage, C: RateConverter> Engine<S, C> {
    /// The configuration.
    pub closed spec fn setup(&self) -> EngineConfig {
        self.config
    }

    /// Whether a worker has been handed out and not been stopped.
    pub closed spec fn started(&self) -> bool {
        self.running
    }

    /// What the user interface is shown.
    pub closed spec fn shown(&self) -> Snapshot {
        self.status@
    }

    /// The flag that bypasses the model.
    pub closed spec fn bypass(&self) -> Arc<AtomicBool> {
        self.bypass
    }

    /// Every runner offered to the inference thread since the engine started.
    pub closed spec fn offered(&self) -> Seq<Offer<S, C>> {
        match self.pending_runners {
            Some(pending) => pending.offers(),
            None => Seq::empty(),
        }
    }

    /// What each look for a returned runner has found since the engine started.
    pub closed spec fn returned(&self) -> Seq<Option<ReadyRunner<S, C>>> {
        match self.retired_runners {
            Some(retired) => retired.found(),
            None => Seq::empty(),
        }
    }

    /// Whether the rings exist exactly while the engine runs, the configuration
    /// works, and the status says whether the engine runs.
    pub closed spec fn wf(&self) -> bool {
        &&& self.config.complaint() is None
        &&& self.status@.running == self.running
        &&& self.running == (self.pending_runners is Some)
        &&& self.running == (self.retired_runners is Some)
    }

    /// Creates a stopped engine.
    pub fn new(config: EngineConfig) -> (result: Result<Self, Error>)
        ensures
            match config.complaint() {
                None => {
                    &&& result matches Ok(engine)
                    &&& engine.wf()
                    &&& engine.setup() == config
                    &&& !engine.started()
                    &&& engine.returned() == Seq::<Option<ReadyRunner<S, C>>>::empty()
                    &&& engine.offered() == Seq::<Offer<S, C>>::empty()
                    &&& engine.shown() == status::cleared()
                },
                Some(reason) => result matches Err(Error::InvalidConfiguration(text)) && text@
                    == reason,
            },
    {
        match config.validate() {
            Err(error) => Err(error),
            Ok(()) => Ok(
                Engine {
                    config,
                    running: false,
                    status: Status::new(),
                    bypass: Arc::new(AtomicBool::new(false)),
                    pending_runners: None,
                    retired_runners: None,
                },
            ),
        }
    }

    /// The configuration.
    pub fn config(&self) -> (config: EngineConfig)
        ensures
            config == self.setup(),
    {
        self.config
    }

    /// Whether the inference thread is running.
    pub fn is_running(&self) -> (running: bool)
        ensures
            running == self.started(),
    {
        self.running
    }

    /// A view of what the engine is doing. Reading it clears the peak meters.
    pub fn snapshot(&mut self) -> (snapshot: Snapshot)
        requires
            old(self).wf(),
        ensures
            final(self).wf(),
            final(self).setup() == old(self).setup(),
            final(self).started() == old(self).started(),
            final(self).returned() == old(self).returned(),
            final(self).offered() == old(self).offered(),
            final(self).bypass() == old(self).bypass(),
            snapshot.in_range(),
            snapshot == old(self).shown(),
            snapshot.running == old(self).started(),
            final(self).shown() == (Snapshot {
                input_peak: 0,
                output_peak: 0,
                ..old(self).shown()
            }),
    {
        self.status.snapshot()
    }

    /// Bypasses or re-enables the active model, also while the engine runs: the
    /// flag is the one that the inference thread reads. The model keeps running
    /// while bypassed, so that its state stays current; only its output is
    /// discarded.
    pub fn set_bypass(&mut self, bypassed: bool)
        requires
            old(self).wf(),
        ensures
            final(self).wf(),
            final(self).setup() == old(self).setup(),
            final(self).started() == old(self).started(),
            final(self).returned() == old(self).returned(),
            final(self).offered() == old(self).offered(),
            final(self).bypass() == old(self).bypass(),
            final(self).shown() == (Snapshot { bypassed, ..old(self).shown() }),
    {
        write_flag(&self.bypass, bypassed);
        self.status.set_bypassed(bypassed);
    }

    /// Takes in what the audio callback's half reported.
    pub fn observe_bridge(&mut self, report: BridgeReport)
        requires
            old(self).wf(),
        ensures
            final(self).wf(),
            final(self).setup() == old(self).setup(),
            final(self).started() == old(self).started(),
            final(self).returned() == old(self).returned(),
            final(self).offered() == old(self).offered(),
            final(self).bypass() == old(self).bypass(),
            final(self).shown() == status::bridge_observed(old(self).shown(), report),
    {
        self.status.observe_bridge(report);
    }

    /// Takes in what the inference thread's half reported.
    pub fn observe_worker(&mut self, report: WorkerReport)
        requires
            old(self).wf(),
        ensures
            final(self).wf(),
            final(self).setup() == old(self).setup(),
            final(self).started() == old(self).started(),
            final(self).returned() == old(self).returned(),
            final(self).offered() == old(self).offered(),
            final(self).bypass() == old(self).bypass(),
            final(self).shown() == status::worker_observed(old(self).shown(), report),
    {
        self.status.observe_worker(report);
    }

    /// Adapts a stage to the host format.
    fn adapt(&self, stage: S, to_stage: C, from_stage: C) -> (result: Result<
        StageRunner<S, C>,
        Error,
    >)
        requires
            self.wf(),
            runner::adaptable(
                stage,
                to_stage,
                from_stage,
                self.setup().sample_rate,
                self.setup().largest_block(),
            ),
        ensures
            adapted(stage, to_stage, from_stage, self.setup(), result),
    {
        match StageRunner::new(
            stage,
            to_stage,
            from_stage,
            self.config.sample_rate,
            self.config.runner_block(),
        ) {
            Ok(runner) => Ok(runner),
            Err(error) => Err(Error::Core(error)),
        }
    }

    /// Starts with `stage` active, and returns the half that the inference
    /// thread runs and the bridge that the audio callback uses. The queues must
    /// fit into an allocation each.
    pub fn start(&mut self, stage: S, to_stage: C, from_stage: C) -> (result: Result<
        (Worker<S, C>, AudioBridge),
        Error,
    >)
        requires
            old(self).wf(),
            old(self).setup().queue_capacity * 4 <= isize::MAX,
            runner::adaptable(
                stage,
                to_stage,
                from_stage,
                old(self).setup().sample_rate,
                old(self).setup().largest_block(),
            ),
        ensures
            final(self).wf(),
            final(self).setup() == old(self).setup(),
            final(self).bypass() == old(self).bypass(),
            final(self).shown() == (Snapshot {
                running: final(self).started(),
                latency_ms: match result {
                    Ok(halves) => halves.0.state().runner.shown_latency(),
                    Err(_) => old(self).shown().latency_ms,
                },
                ..old(self).shown()
            }),
            if old(self).started() {
                &&& result matches Err(Error::AlreadyRunning)
                &&& final(self).started()
                &&& final(self).returned() == old(self).returned()
                &&& final(self).offered() == old(self).offered()
            } else {
                match result {
                    Err(error) => {
                        &&& !final(self).started()
                        &&& adapted(
                            stage,
                            to_stage,
                            from_stage,
                            old(self).setup(),
                            Err::<StageRunner<S, C>, Error>(error),
                        )
                    },
                    Ok(halves) => {
                        &&& final(self).started()
                        &&& final(self).returned() == Seq::<Option<ReadyRunner<S, C>>>::empty()
                        &&& final(self).offered() == Seq::<Offer<S, C>>::empty()
                        &&& halves.0.links() == (WorkerLinks {
                            incoming: halves.1.outgoing(),
                            outgoing: halves.1.incoming(),
                            bypass: final(self).bypass(),
                            stale: halves.1.stale_mark(),
                        })
                        &&& halves.0.taken() == 0
                        &&& halves.0.in_count()
                        &&& halves.1.handed() == 0
                        &&& halves.1.requested() == 0
                        &&& halves.1.in_count()
                        &&& halves.0.looked() == Seq::<Option<ReadyRunner<S, C>>>::empty()
                        &&& halves.0.offered() == Seq::<StageRunner<S, C>>::empty()
                        &&& halves.0.noted() == status::worker_part(final(self).shown())
                        &&& halves.1.counted() == status::bridge_part(
                            status::forked(final(self).shown()),
                        )
                        &&& halves.0.wf()
                        &&& halves.0.step_len() == old(self).setup().inference_block
                        &&& adapted(
                            stage,
                            to_stage,
                            from_stage,
                            old(self).setup(),
                            Ok::<StageRunner<S, C>, Error>(halves.0.state().runner),
                        )
                        &&& halves.0.state().incoming is None
                        &&& halves.0.state().ramp.phase is Idle
                        &&& halves.0.state().ramp.fade == old(self).setup().fade_samples
                        &&& halves.0.received() == Seq::<u32>::empty()
                        &&& halves.0.sent() == Seq::<u32>::empty()
                        &&& halves.0.free() == old(self).setup().queue_capacity
                        &&& halves.1.sent() == Seq::<u32>::empty()
                        &&& halves.1.received() == Seq::<u32>::empty()
                        &&& halves.1.free() == old(self).setup().queue_capacity
                    },
                }
            },
    {
        if self.running {
            return Err(Error::AlreadyRunning);
        }
        let runner = match self.adapt(stage, to_stage, from_stage) {
            Err(error) => {
                return Err(error);
            },
            Ok(runner) => runner,
        };
        let capacity: usize = self.config.queue_capacity;
        let (to_inference, inference_input) = rings::sample_ring(capacity);
        let (inference_output, from_inference) = rings::sample_ring(capacity);
        let (pending_producer, pending_consumer) = rings::item_ring(STAGE_QUEUE_DEPTH);
        let (retired_producer, retired_consumer) = rings::item_ring(STAGE_QUEUE_DEPTH);
        self.status.set_running(true);
        self.status.set_latency_ms(runner.latency_ms());
        let stale: Arc<AtomicU64> = Arc::new(AtomicU64::new(0));
        let worker = Worker::new(
            runner,
            inference_input,
            inference_output,
            pending_consumer,
            retired_producer,
            self.bypass.clone(),
            stale.clone(),
            self.status.fork(),
            self.config.inference_block,
            self.config.fade_samples,
        );
        self.pending_runners = Some(RunnerOutbox::new(pending_producer));
        self.retired_runners = Some(RunnerInbox::new(retired_consumer));
        self.running = true;
        let bridge = AudioBridge::new(to_inference, from_inference, self.status.fork(), stale);
        Ok((worker, bridge))
    }

    /// Marks the engine stopped and disposes of the runners that the
    /// inference thread has returned.
    pub fn stop(&mut self)
        requires
            old(self).wf(),
        ensures
            final(self).wf(),
            final(self).setup() == old(self).setup(),
            !final(self).started(),
            final(self).returned() == Seq::<Option<ReadyRunner<S, C>>>::empty(),
            final(self).offered() == Seq::<Offer<S, C>>::empty(),
            final(self).bypass() == old(self).bypass(),
            final(self).shown() == (Snapshot {
                running: false,
                switching: false,
                ..old(self).shown()
            }),
    {
        self.drain_retired();
        self.running = false;
        self.status.set_running(false);
        self.status.set_switching(false);
        self.pending_runners = None;
        self.retired_runners = None;
    }

    /// Switches to `stage`, ramping so that the change does not click. Whether
    /// there is room for the switch depends on the inference thread.
    pub fn set_stage(&mut self, stage: S, to_stage: C, from_stage: C) -> (result: Result<(), Error>)
        requires
            old(self).wf(),
            runner::adaptable(
                stage,
                to_stage,
                from_stage,
                old(self).setup().sample_rate,
                old(self).setup().largest_block(),
            ),
        ensures
            final(self).wf(),
            final(self).setup() == old(self).setup(),
            final(self).started() == old(self).started(),
            final(self).shown() == old(self).shown(),
            mailbox::retired_drained(
                old(self).started(),
                old(self).returned(),
                final(self).returned(),
            ),
            final(self).bypass() == old(self).bypass(),
            if !old(self).started() {
                &&& result matches Err(Error::NotRunning)
                &&& final(self).offered() == old(self).offered()
            } else if stage.description().block_size == 0 {
                &&& result matches Err(error)
                &&& adapted(
                    stage,
                    to_stage,
                    from_stage,
                    old(self).setup(),
                    Err::<StageRunner<S, C>, Error>(error),
                )
                &&& final(self).offered() == old(self).offered()
            } else {
                let offer = final(self).offered().last();
                &&& final(self).offered() == old(self).offered().push(offer)
                &&& adapted(
                    stage,
                    to_stage,
                    from_stage,
                    old(self).setup(),
                    Ok::<StageRunner<S, C>, Error>(offer.runner),
                )
                &&& offer.taken ==> result is Ok
                &&& !offer.taken ==> result matches Err(Error::SwitchInFlight)
            },
    {
        self.drain_retired();
        if self.pending_runners.is_none() {
            return Err(Error::NotRunning);
        }
        let runner = match self.adapt(stage, to_stage, from_stage) {
            Err(error) => {
                return Err(error);
            },
            Ok(runner) => runner,
        };
        let pushed: bool = match self.pending_runners.take() {
            None => false,
            Some(mut pending) => {
                let taken: bool = pending.offer(runner);
                self.pending_runners = Some(pending);
                taken
            },
        };
        switch_outcome(pushed)
    }

    /// Disposes of the runners that the inference thread has returned: takes
    /// them out of the ring until it finds none. How many there are depends on
    /// the inference thread.
    pub fn drain_retired(&mut self)
        requires
            old(self).wf(),
        ensures
            final(self).wf(),
            final(self).setup() == old(self).setup(),
            final(self).started() == old(self).started(),
            final(self).shown() == old(self).shown(),
            final(self).offered() == old(self).offered(),
            final(self).bypass() == old(self).bypass(),
            mailbox::retired_drained(
                old(self).started(),
                old(self).returned(),
                final(self).returned(),
            ),
    {
        match self.retired_runners.take() {
            None => {},
            Some(mut retired) => {
                let ghost before = retired.found();
                let mut taken: u64 = 0;
                let mut more: bool = true;
                while more && taken < LOOK_LIMIT
                    invariant
                        taken <= LOOK_LIMIT,
                        before.is_prefix_of(retired.found()),
                        more ==> retired.found().len() == before.len() + taken,
                        more ==> forall|i: int|
                            before.len() <= i < retired.found().len() ==> (
                            #[trigger] retired.found()[i]) is Some,
                        !more ==> mailbox::emptied_by(retired.found().skip(before.len() as int)),
                    decreases
                        LOOK_LIMIT - taken + (if more {
                            1int
                        } else {
                            0
                        }),
                {
                    let ghost held = retired.found();
                    let look = retired.look();
                    proof {
                        mailbox::lemma_one_more_look(before, held, look);
                    }
                    match look {
                        Some(_runner) => {
                            taken = taken + 1;
                        },
                        None => {
                            more = false;
                        },
                    }
                }
                proof {
                    mailbox::lemma_looks_emptied(before, retired.found(), more, taken);
                }
                self.retired_runners = Some(retired);
            },
        }
    }
}

/// What a request to switch is answered, given whether there was room for it.
pub fn switch_outcome(pushed: bool) -> (result: Result<(), Error>)
    ensures
        pushed ==> result is Ok,
        !pushed ==> result matches Err(Error::SwitchInFlight),
{
    if pushed {
        Ok(())
    } else {
        Err(Error::SwitchInFlight)
    }
}

/// The outcome of adapting a stage to the host format.
pub open spec fn adapted<S: Stage, C: RateConverter>(
    stage: S,
    to_stage: C,
    from_stage: C,
    config: EngineConfig,
    result: Result<StageRunner<S, C>, Error>,
) -> bool {
    match result {
        Ok(adapted) => {
            &&& stage.description().block_size > 0
            &&& adapted.wf()
            &&& adapted.spec_of() == stage.description()
            &&& adapted.rate() == config.sample_rate
            &&& adapted.block_limit() == config.largest_block()
            &&& adapted.latency() == runner::end_to_end(
                stage.description(),
                config.sample_rate,
                to_stage,
                from_stage,
            )
            &&& adapted@ == runner::fresh(
                stage,
                to_stage,
                from_stage,
                config.sample_rate,
                config.largest_block(),
            )
        },
        Err(error) => {
            &&& stage.description().block_size == 0
            &&& error matches Error::Core(signal::error::Error::InvalidConfiguration(reason))
            &&& reason@ == "stage block size must be non-zero"@
        },
    }
}

/// A model that is neither bypassed nor failing is what is heard, not the microphone: a
/// bypass stage at the host rate, which changes no sample, still comes out behind
/// what was inside its runner.
pub proof fn law_the_model_is_heard(
    state: RunnerState<Passthrough, Direct>,
    stage_block: nat,
    limit: nat,
    input: Seq<u32>,
)
    requires
        runner::in_step(state, stage_block, limit),
        input.len() <= limit,
    ensures
        model_output(state, stage_block, limit, input, false) + runner::inside(
            runner::emptied(
                runner::drained(runner::fed(state, input), stage_block).0,
                input.len(),
            ),
        ) == runner::inside(state) + input,
{
    runner::law_bypass_is_a_delay_line(state, input, stage_block, limit);
}

/// Bypassing changes what is heard and nothing else: a model that does not fail stays
/// as warm as if it were heard.
pub proof fn law_a_bypassed_model_stays_warm<S: Stage, C: RateConverter>(
    before: Worker<S, C>,
    heard: Worker<S, C>,
    bypassed: Worker<S, C>,
)
    requires
        modelled(before, heard, false),
        modelled(before, bypassed, true),
        model_failure(before.state().runner, before.heard()) is None,
    ensures
        bypassed.state().runner@ == heard.state().runner@,
        bypassed.state().ramp == heard.state().ramp,
        bypassed.state().incoming == heard.state().incoming,
        bypassed.noted() == heard.noted(),
        bypassed.reply() == before.heard(),
{
}

/// A configuration is accepted exactly where it has a rate and blocks and its queues
/// hold two device blocks; the standard one is. A runner gets blocks as long as the
/// longer of the two kinds.
pub proof fn law_accepted_configurations_work(config: EngineConfig)
    ensures
        config.complaint() is None <==> {
            &&& config.sample_rate > 0
            &&& config.inference_block > 0
            &&& config.max_device_block > 0
            &&& config.queue_capacity >= config.max_device_block + config.max_device_block
        },
        config.largest_block() >= config.inference_block,
        config.largest_block() >= config.max_device_block,
        config.largest_block() == config.inference_block || config.largest_block()
            == config.max_device_block,
{
}

/// A block of the ramp either leaves the active runner alone or exchanges it, once: the
/// runner that was waiting takes over, the one that was active is handed back, and the
/// latency that is shown is that of the new one. While nothing is exchanged, nothing is
/// handed back and the latency stays; a switch shows until the ramp is idle.
pub proof fn law_an_exchange_hands_the_old_runner_back<S: Stage, C: RateConverter>(
    before: Worker<S, C>,
    offered: Option<StageRunner<S, C>>,
    after: Worker<S, C>,
    plan: StepPlan,
)
    requires
        ramp_step(before, offered, after, plan),
    ensures
        ({
            let waiting = match before.state().incoming {
                Some(runner) => Some(runner),
                None => offered,
            };
            ||| {
                &&& after.offered() == before.offered()
                &&& after.state().runner == before.state().runner
                &&& after.noted().latency_ms == before.noted().latency_ms
            }
            ||| {
                &&& waiting is Some
                &&& after.offered() == before.offered().push(before.state().runner)
                &&& Some(after.state().runner) == waiting
                &&& after.state().incoming is None
                &&& after.noted().latency_ms == after.state().runner.shown_latency()
            }
        }),
        after.noted().switching <==> !(after.state().ramp.phase is Idle),
        after.noted().idle_polls == before.noted().idle_polls,
        offered is None && before.state().ramp.phase is Idle ==> after.state() == before.state()
            && plan.gains@.len() == 0,
{
}

/// The latency that an engine's runner reports is real: a bypass at the engine's rate
/// without a delay of its own holds exactly that much silence when it is new, and
/// from then on gives back what it is given behind it, in blocks of either kind.
pub proof fn law_reported_latency_is_real(
    stage: Passthrough,
    config: EngineConfig,
    runner: StageRunner<Passthrough, Direct>,
    input: Seq<u32>,
)
    requires
        adapted(
            stage,
            Direct,
            Direct,
            config,
            Ok::<StageRunner<Passthrough, Direct>, Error>(runner),
        ),
        stage.description().sample_rate == config.sample_rate,
        stage.description().latency_samples == 0,
        input.len() == config.inference_block || input.len() == config.max_device_block,
    ensures
        ({
            let block = stage.description().block_size as nat;
            let limit = config.largest_block() as nat;
            let run = runner::drained(runner::fed(runner@, input), block).0;
            &&& runner::inside(runner@) == ring::silence(runner.latency() as nat)
            &&& model_output(runner@, block, limit, input, false) + runner::inside(
                runner::emptied(run, input.len()),
            ) == ring::silence(runner.latency() as nat) + input
        }),
{
    runner::law_fresh_bypass_is_in_step(stage, config.sample_rate, config.largest_block());
    law_the_model_is_heard(
        runner@,
        stage.description().block_size as nat,
        config.largest_block() as nat,
        input,
    );
}

/// A queue that is too short is told with its own capacity first and the device block
/// that it must hold twice last.
pub proof fn law_short_queues_are_told_in_order(config: EngineConfig)
    requires
        config.sample_rate > 0,
        config.inference_block > 0,
        config.max_device_block > 0,
        config.queue_capacity < config.max_device_block * 2,
    ensures
        ({
            let told = config.complaint()->0;
            &&& config.complaint() is Some
            &&& text::stands_behind(
                told,
                Seq::empty(),
                "queue_capacity ("@,
                text::decimal(config.queue_capacity as nat),
            )
            &&& text::ends_with(
                told,
                text::decimal(config.max_device_block as nat) + ")"@,
            )
        }),
{
    let told = config.complaint()->0;
    let opening = "queue_capacity ("@;
    let capacity = text::decimal(config.queue_capacity as nat);
    let last = text::decimal(config.max_device_block as nat) + ")"@;
    assert(told.take(opening.len() as int) =~= Seq::<char>::empty() + opening);
    assert(told.subrange(opening.len() as int, opening.len() as int + capacity.len())
        =~= capacity);
    assert(told.skip(told.len() - last.len()) =~= last);
}

} // verus!
