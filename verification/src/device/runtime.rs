//! The control plane of a running transport and its preview monitor.

use rtrb::{Consumer, Producer};
use vstd::prelude::*;
use vstd::string::*;

use super::error::CoreAudioError;
use super::lifecycle;
use super::lifecycle::{Cleanup, Startup, Transport};
use super::monitor;
use super::monitor::{
    classify_monitor_target, MonitorState, MonitorTee, MONITOR_RING_CAPACITY,
};
use super::observe;
use super::observe::WorkerBlockStats;
use crate::rings;
use crate::signal::block::StageError;
use crate::signal::capture;
use crate::signal::capture::{InputResampler, MAX_NATIVE_RATE, MIN_NATIVE_RATE};

verus! {

/// Control-plane owner of the preview monitor.
///
/// Exactly one end is populated: the ring consumer is parked here while the
/// preview is off, and lent to the monitor unit while it runs. A feedback trip
/// disarms the tee and leaves the unit up until the next toggle.
pub struct MonitorControl {
    enabled: bool,
    tripped: bool,
    consumer: Option<Consumer<u32>>,
    device: Option<u32>,
}

/// What enabling the preview takes.
#[derive(Debug, Clone, Copy, PartialEq, Eq, Structural)]
pub enum EnableStep {
    /// The monitor unit was still up; the preview is armed again.
    Rearmed,
    /// A monitor unit must be started.
    StartUnit,
}

/// Creates the two halves of the preview monitor around one ring: the control
/// half, with the consumer parked, and the worker half, disarmed.
pub fn monitor_pair() -> (halves: (MonitorControl, MonitorTee))
    ensures
        halves.0.wf(),
        halves.0.lent() is None,
        !halves.0.armed(),
        !halves.0.has_tripped(),
        halves.1.wf(),
        halves.1.sent() == Seq::<u32>::empty(),
        halves.1.free() == MONITOR_RING_CAPACITY,
        !halves.1.armed(),
        !halves.1.has_tripped(),
        halves.1.run() == 0,
        halves.0.parked_ring() == Some(halves.1.ring()),
        halves.0.parked() == Some(Seq::<u32>::empty()),
{
    let (producer, consumer): (Producer<u32>, Consumer<u32>) = rings::sample_ring(
        MONITOR_RING_CAPACITY,
    );
    let control = MonitorControl {
        enabled: false,
        tripped: false,
        consumer: Some(consumer),
        device: None,
    };
    (control, MonitorTee::new(producer, false, false))
}

impl MonitorControl {
    /// Exactly one end is populated.
    pub closed spec fn wf(&self) -> bool {
        self.consumer is Some <==> self.device is None
    }

    /// Whether the consumer has been taken and neither a unit nor the parking
    /// place has it yet.
    pub closed spec fn lending(&self) -> bool {
        self.consumer is None && self.device is None
    }

    /// The device the monitor unit plays on, while it is up.
    pub closed spec fn lent(&self) -> Option<u32> {
        self.device
    }

    /// The parked consumer's history, while there is one.
    pub closed spec fn parked(&self) -> Option<Seq<u32>> {
        match self.consumer {
            Some(consumer) => Some(rings::received(consumer)),
            None => None,
        }
    }

    /// Which ring the parked consumer reads, while there is one.
    pub closed spec fn parked_ring(&self) -> Option<int> {
        match self.consumer {
            Some(consumer) => Some(rings::read_ring(consumer)),
            None => None,
        }
    }

    /// Whether the tee is armed.
    pub closed spec fn armed(&self) -> bool {
        self.enabled
    }

    /// Whether a trip is pending.
    pub closed spec fn has_tripped(&self) -> bool {
        self.tripped
    }

    /// A trip that the worker's guard reported: the tee has disarmed itself.
    pub fn trip(&mut self)
        requires
            old(self).wf(),
        ensures
            final(self).wf(),
            !final(self).armed(),
            final(self).has_tripped(),
            final(self).lent() == old(self).lent(),
            final(self).parked() == old(self).parked(),
            final(self).parked_ring() == old(self).parked_ring(),
    {
        self.enabled = false;
        self.tripped = true;
    }

    /// Begins to enable the preview: clears a pending trip, and arms a monitor
    /// unit that is still up.
    pub fn begin_enable(&mut self) -> (step: EnableStep)
        requires
            old(self).wf(),
        ensures
            final(self).wf(),
            !final(self).has_tripped(),
            final(self).lent() == old(self).lent(),
            final(self).parked() == old(self).parked(),
            final(self).parked_ring() == old(self).parked_ring(),
            if old(self).lent() is Some {
                step == EnableStep::Rearmed && final(self).armed()
            } else {
                step == EnableStep::StartUnit && final(self).armed() == old(self).armed()
            },
    {
        self.tripped = false;
        if self.device.is_some() {
            self.enabled = true;
            EnableStep::Rearmed
        } else {
            EnableStep::StartUnit
        }
    }

    /// Hands the ring consumer out for a new monitor unit, without what was
    /// left in the ring by an earlier preview. How much that was depends on
    /// the worker.
    pub fn lend(&mut self) -> (result: Result<Consumer<u32>, CoreAudioError>)
        requires
            old(self).wf(),
        ensures
            final(self).armed() == old(self).armed(),
            final(self).has_tripped() == old(self).has_tripped(),
            final(self).lent() == old(self).lent(),
            final(self).parked() is None,
            match result {
                Ok(consumer) => {
                    &&& old(self).parked() is Some
                    &&& final(self).lending()
                    &&& emptied(old(self).parked()->0, consumer)
                    &&& old(self).parked_ring() == Some(rings::read_ring(consumer))
                },
                Err(CoreAudioError::Monitor(reason)) => {
                    &&& old(self).parked() is None
                    &&& final(self).wf()
                    &&& reason@ == "the monitor ring consumer is unavailable"@
                },
                Err(_) => false,
            },
    {
        match self.consumer.take() {
            Some(consumer) => {
                let mut consumer = consumer;
                let ghost before = rings::received(consumer);
                assert(old(self).parked() == Some(before));
                rings::discard_all(&mut consumer);
                Ok(consumer)
            },
            None => Err(
                CoreAudioError::Monitor("the monitor ring consumer is unavailable".to_owned()),
            ),
        }
    }

    /// The monitor unit runs on `device`: the preview is armed.
    pub fn started(&mut self, device: u32)
        requires
            old(self).lending(),
        ensures
            final(self).wf(),
            final(self).lent() == Some(device),
            final(self).armed(),
            final(self).has_tripped() == old(self).has_tripped(),
            final(self).parked() is None,
    {
        self.device = Some(device);
        self.enabled = true;
    }

    /// The monitor unit did not start, or has been stopped: the consumer is
    /// parked for the next time.
    pub fn park(&mut self, consumer: Consumer<u32>)
        requires
            old(self).lending(),
        ensures
            final(self).wf(),
            final(self).lent() is None,
            final(self).parked() == Some(rings::received(consumer)),
            final(self).parked_ring() == Some(rings::read_ring(consumer)),
            final(self).armed() == old(self).armed(),
            final(self).has_tripped() == old(self).has_tripped(),
    {
        self.consumer = Some(consumer);
    }

    /// Disables the preview: disarms the tee first, so that the worker stops
    /// feeding the ring before the unit goes away. Returns whether a unit must
    /// be stopped and its consumer parked. Disabling twice changes nothing.
    pub fn disable(&mut self) -> (stop_unit: bool)
        requires
            old(self).wf(),
        ensures
            !final(self).armed(),
            !final(self).has_tripped(),
            final(self).lent() is None,
            stop_unit == (old(self).lent() is Some),
            if stop_unit {
                final(self).lending()
            } else {
                &&& final(self).wf()
                &&& final(self).parked() == old(self).parked()
                &&& final(self).parked_ring() == old(self).parked_ring()
            },
    {
        self.enabled = false;
        self.tripped = false;
        let stop_unit: bool = self.device.is_some();
        self.device = None;
        stop_unit
    }

    /// Whether the monitor unit is up, also while a feedback trip has disarmed
    /// the tee.
    pub fn is_active(&self) -> (active: bool)
        ensures
            active == (self.lent() is Some),
    {
        self.device.is_some()
    }

    /// The device the monitor unit plays on, or `None` while it is down.
    pub fn active_device(&self) -> (device: Option<u32>)
        ensures
            device == self.lent(),
    {
        self.device
    }

    /// What the worker's echo canceller and the status line go by.
    pub fn state(&self) -> (state: MonitorState)
        ensures
            state == (if self.has_tripped() {
                MonitorState::Tripped
            } else if self.armed() {
                MonitorState::Playing
            } else {
                MonitorState::Off
            }),
    {
        if self.tripped {
            MonitorState::Tripped
        } else if self.enabled {
            MonitorState::Playing
        } else {
            MonitorState::Off
        }
    }
}

/// Whether a ring's reader went on from `before` until it found the ring empty.
pub open spec fn emptied(before: Seq<u32>, consumer: Consumer<u32>) -> bool {
    before.is_prefix_of(rings::received(consumer)) && rings::stocked(consumer) == 0
}

/// Vets the system default output for the preview: there must be one, and it
/// must not be refused. What could not be read counts as unknown.
pub fn monitor_target_device(
    device: u32,
    transport: Option<u32>,
    uid: &str,
    data_source: Option<u32>,
) -> (result: Result<u32, CoreAudioError>)
    ensures
        if device == 0 {
            result matches Err(CoreAudioError::Monitor(reason)) && reason@
                == "no default output device is configured"@
        } else {
            let known = match transport {
                Some(kind) => kind,
                None => 0,
            };
            let loopback = monitor::loopback_uid(uid@, monitor::lowercase(uid@));
            match result {
                Ok(vetted) => vetted == device && monitor::verdict(
                    known,
                    uid@,
                    loopback,
                    data_source,
                    Ok(()),
                ),
                Err(refusal) => monitor::verdict(
                    known,
                    uid@,
                    loopback,
                    data_source,
                    Err(refusal),
                ),
            }
        },
{
    if device == 0 {
        return Err(CoreAudioError::Monitor("no default output device is configured".to_owned()));
    }
    let known: u32 = match transport {
        Some(kind) => kind,
        None => 0,
    };
    match classify_monitor_target(known, uid, data_source) {
        Ok(()) => Ok(device),
        Err(refusal) => Err(refusal),
    }
}

/// What `String::from_utf8_lossy` makes of bytes.
pub uninterp spec fn lossy_text(bytes: Seq<u8>) -> Seq<char>;

/// `String::from_utf8_lossy` reads bytes as UTF-8 and replaces what is not; the
/// text depends on the bytes alone.
#[verifier::external_body]
fn from_utf8_lossy(bytes: &[u8]) -> (read: String)
    ensures
        read@ == lossy_text(bytes@),
{
    String::from_utf8_lossy(bytes).into_owned()
}

/// The bytes before the first zero byte.
pub open spec fn before_zero(bytes: Seq<u8>) -> Seq<u8>
    decreases bytes.len(),
{
    if bytes.len() == 0 || bytes[0] == 0 {
        Seq::empty()
    } else {
        seq![bytes[0]] + before_zero(bytes.skip(1))
    }
}

/// How many bytes stand before the first zero byte.
pub fn length_before_zero(bytes: &[u8]) -> (length: usize)
    ensures
        length <= bytes@.len(),
        bytes@.take(length as int) == before_zero(bytes@),
        forall|i: int| 0 <= i < length ==> bytes@[i] != 0,
        length < bytes@.len() ==> bytes@[length as int] == 0,
{
    let mut length: usize = 0;
    assert(bytes@.take(0) + before_zero(bytes@.skip(0)) =~= before_zero(bytes@)) by {
        assert(bytes@.skip(0) =~= bytes@);
    }
    while length < bytes.len() && bytes[length] != 0
        invariant
            length <= bytes@.len(),
            forall|i: int| 0 <= i < length ==> bytes@[i] != 0,
            bytes@.take(length as int) + before_zero(bytes@.skip(length as int)) == before_zero(
                bytes@,
            ),
        decreases bytes@.len() - length,
    {
        proof {
            let rest = bytes@.skip(length as int);
            assert(rest[0] == bytes@[length as int]);
            assert(rest.skip(1) =~= bytes@.skip(length + 1));
            assert(bytes@.take(length + 1) + before_zero(bytes@.skip(length + 1)) =~= bytes@.take(
                length as int,
            ) + before_zero(rest));
        }
        length = length + 1;
    }
    assert(before_zero(bytes@.skip(length as int)) =~= Seq::<u8>::empty());
    assert(bytes@.take(length as int) =~= before_zero(bytes@));
    length
}

/// The UID of a device, from the buffer it was converted into; empty when it
/// could not be converted.
pub fn device_uid(converted: bool, buffer: &[u8]) -> (uid: String)
    ensures
        uid@ == (if converted {
            lossy_text(before_zero(buffer@))
        } else {
            Seq::empty()
        }),
{
    if !converted {
        let empty: String = "".to_owned();
        proof {
            reveal_strlit("");
        }
        assert(empty@ =~= Seq::<char>::empty());
        return empty;
    }
    let length: usize = length_before_zero(buffer);
    from_utf8_lossy(vstd::slice::slice_subrange(buffer, 0, length))
}

/// A running transport, as the control plane sees it.
pub struct Runtime {
    transport: Transport,
    running: bool,
    faulted: bool,
    frames: u64,
    underruns: u64,
    block_stats: WorkerBlockStats,
    worker_realtime: bool,
    monitor: MonitorControl,
    routing: String,
}

/// What to take down, preview first.
#[derive(Debug)]
pub struct StopPlan {
    /// Whether the monitor unit is up and must be stopped.
    pub stop_monitor: bool,
    /// What takes the transport down.
    pub cleanup: Vec<Cleanup>,
}

/// The counters a runtime shows.
pub struct Counters {
    /// Whether a callback or an inference call has failed.
    pub faulted: bool,
    /// Input frames delivered since start.
    pub frames: u64,
    /// Output callbacks that were starved.
    pub underruns: u64,
    /// What the worker's blocks took.
    pub blocks: observe::BlockTimes,
}

impl Runtime {
    /// The monitor control is whole: no consumer is being lent.
    pub closed spec fn wf(&self) -> bool {
        self.monitor.wf()
    }

    /// The transport.
    pub closed spec fn kind(&self) -> Transport {
        self.transport
    }

    /// Whether the transport has started and has not been stopped.
    pub closed spec fn up(&self) -> bool {
        self.running
    }

    /// The counters.
    pub closed spec fn counters(&self) -> Counters {
        Counters {
            faulted: self.faulted,
            frames: self.frames,
            underruns: self.underruns,
            blocks: self.block_stats.times(),
        }
    }

    /// The preview control.
    pub closed spec fn preview(&self) -> MonitorControl {
        self.monitor
    }

    /// Begins to start a transport on an aggregate device.
    pub fn start() -> (startup: Startup)
        ensures
            startup.wf(),
            startup.plan() == lifecycle::aggregate_steps(),
            startup.progress() == 0,
    {
        Startup::aggregate()
    }

    /// Begins to start a transport for a microphone that runs at its own rate.
    /// The rate is checked, and the converter set up, before any audio object
    /// is touched.
    pub fn start_native(capture_rate: u32) -> (result: Result<
        (Startup, InputResampler),
        CoreAudioError,
    >)
        ensures
            match result {
                Ok((startup, converter)) => {
                    &&& MIN_NATIVE_RATE <= capture_rate <= MAX_NATIVE_RATE
                    &&& startup.wf()
                    &&& startup.plan() == lifecycle::split_steps()
                    &&& startup.progress() == 1
                    &&& converter.wf()
                    &&& converter.rate() == capture_rate
                },
                Err(CoreAudioError::Worker(reason)) => {
                    &&& !(MIN_NATIVE_RATE <= capture_rate <= MAX_NATIVE_RATE)
                    &&& reason@ == capture::range_message(capture_rate)
                },
                Err(_) => false,
            },
    {
        match InputResampler::new(capture_rate) {
            Ok(converter) => {
                let mut startup = Startup::split();
                startup.advance();
                Ok((startup, converter))
            },
            Err(StageError::Unsupported(reason)) => Err(CoreAudioError::Worker(reason)),
            Err(StageError::BufferLen { .. }) => Err(CoreAudioError::UnsupportedPlatform),
        }
    }

    /// Takes over a transport that has just started.
    pub fn new(transport: Transport, monitor: MonitorControl, routing: String) -> (runtime: Self)
        requires
            monitor.wf(),
        ensures
            runtime.wf(),
            runtime.kind() == transport,
            runtime.up(),
            runtime.preview() == monitor,
            !runtime.promoted(),
            runtime.described() == routing@,
            runtime.counters() == (Counters {
                faulted: false,
                frames: 0,
                underruns: 0,
                blocks: observe::BlockTimes { blocks: 0, over_budget: 0, max_ns: 0 },
            }),
    {
        Runtime {
            transport,
            running: true,
            faulted: false,
            frames: 0,
            underruns: 0,
            block_stats: WorkerBlockStats::new(),
            worker_realtime: false,
            monitor,
            routing,
        }
    }

    /// Stops the transport: the preview is disabled first, then the units stop,
    /// the worker is joined, and everything is disposed of. Stopping twice does
    /// nothing the second time.
    pub fn stop(&mut self) -> (plan: StopPlan)
        requires
            old(self).wf(),
        ensures
            !final(self).up(),
            final(self).kind() == old(self).kind(),
            final(self).described() == old(self).described(),
            final(self).promoted() == old(self).promoted(),
            final(self).counters() == old(self).counters(),
            if old(self).up() {
                &&& plan.stop_monitor == (old(self).preview().lent() is Some)
                &&& plan.cleanup@ == old(self).kind().takedown()
                &&& !final(self).preview().armed()
                &&& !final(self).preview().has_tripped()
                &&& final(self).preview().lent() is None
                &&& if plan.stop_monitor {
                    final(self).preview().lending()
                } else {
                    &&& final(self).wf()
                    &&& final(self).preview().parked() == old(self).preview().parked()
                    &&& final(self).preview().parked_ring() == old(self).preview().parked_ring()
                }
            } else {
                &&& !plan.stop_monitor
                &&& plan.cleanup@ == Seq::<Cleanup>::empty()
                &&& final(self).preview() == old(self).preview()
                &&& final(self).wf()
            },
    {
        if !self.running {
            return StopPlan { stop_monitor: false, cleanup: Vec::new() };
        }
        let stop_monitor: bool = self.monitor.disable();
        let cleanup: Vec<Cleanup> = self.transport.take_down();
        self.running = false;
        StopPlan { stop_monitor, cleanup }
    }

    /// Whether the transport has started and has not been stopped.
    pub fn is_running(&self) -> (running: bool)
        ensures
            running == self.up(),
    {
        self.running
    }

    /// Whether a callback or an inference call has failed.
    pub fn is_faulted(&self) -> (faulted: bool)
        ensures
            faulted == self.counters().faulted,
    {
        self.faulted
    }

    /// Total input frames the callback has delivered since start. A value that
    /// stops advancing while running means that the device stopped calling
    /// back.
    pub fn frames_processed(&self) -> (frames: u64)
        ensures
            frames == self.counters().frames,
    {
        self.frames
    }

    /// Output callbacks that were fully starved after the ring first produced
    /// audio.
    pub fn output_underruns(&self) -> (underruns: u64)
        ensures
            underruns == self.counters().underruns,
    {
        self.underruns
    }

    /// Engine blocks the worker has processed.
    pub fn worker_blocks(&self) -> (blocks: u64)
        ensures
            blocks == self.counters().blocks.blocks,
    {
        self.block_stats.blocks()
    }

    /// Worker blocks that exceeded the time budget.
    pub fn worker_blocks_over_budget(&self) -> (blocks: u64)
        ensures
            blocks == self.counters().blocks.over_budget,
    {
        self.block_stats.over_budget()
    }

    /// The longest single worker block, in nanoseconds.
    pub fn worker_block_max_ns(&self) -> (max_ns: u64)
        ensures
            max_ns == self.counters().blocks.max_ns,
    {
        self.block_stats.max_ns()
    }

    /// Whether the worker's real-time promotion succeeded when it started.
    pub fn worker_realtime(&self) -> (realtime: bool)
        ensures
            realtime == self.promoted(),
    {
        self.worker_realtime
    }

    /// Whether the worker's real-time promotion succeeded when it started.
    pub closed spec fn promoted(&self) -> bool {
        self.worker_realtime
    }

    /// Notes what the callbacks and the worker have counted.
    pub fn observe(&mut self, faulted: bool, frames: u64, underruns: u64, realtime: bool)
        requires
            old(self).wf(),
        ensures
            final(self).wf(),
            final(self).up() == old(self).up(),
            final(self).kind() == old(self).kind(),
            final(self).described() == old(self).described(),
            final(self).preview() == old(self).preview(),
            final(self).promoted() == realtime,
            final(self).counters() == (Counters {
                faulted,
                frames,
                underruns,
                blocks: old(self).counters().blocks,
            }),
    {
        self.faulted = faulted;
        self.frames = frames;
        self.underruns = underruns;
        self.worker_realtime = realtime;
    }

    /// Notes how long a worker block took.
    pub fn record_block(&mut self, elapsed_ns: u64)
        requires
            old(self).wf(),
        ensures
            final(self).wf(),
            final(self).up() == old(self).up(),
            final(self).kind() == old(self).kind(),
            final(self).described() == old(self).described(),
            final(self).preview() == old(self).preview(),
            final(self).promoted() == old(self).promoted(),
            final(self).counters() == (Counters {
                blocks: observe::timed(old(self).counters().blocks, elapsed_ns),
                ..old(self).counters()
            }),
    {
        self.block_stats.record(elapsed_ns);
    }

    /// Zeroes the diagnostic counters, so that a model switch can be measured
    /// in isolation.
    pub fn reset_debug_stats(&mut self)
        requires
            old(self).wf(),
        ensures
            final(self).wf(),
            final(self).up() == old(self).up(),
            final(self).kind() == old(self).kind(),
            final(self).described() == old(self).described(),
            final(self).preview() == old(self).preview(),
            final(self).promoted() == old(self).promoted(),
            final(self).counters() == (Counters {
                underruns: 0,
                blocks: observe::BlockTimes { blocks: 0, over_budget: 0, max_ns: 0 },
                ..old(self).counters()
            }),
    {
        self.underruns = 0;
        self.block_stats.reset();
    }

    /// Begins to enable or disable the preview. Enabling needs a running
    /// transport; `Some(step)` says what enabling takes. Disabling gives
    /// `None`, and `true` when a monitor unit must be stopped.
    pub fn set_monitor(&mut self, enabled: bool) -> (result: Result<
        (Option<EnableStep>, bool),
        CoreAudioError,
    >)
        requires
            old(self).wf(),
        ensures
            final(self).up() == old(self).up(),
            final(self).kind() == old(self).kind(),
            final(self).described() == old(self).described(),
            final(self).promoted() == old(self).promoted(),
            final(self).counters() == old(self).counters(),
            match result {
                Err(CoreAudioError::NotRunning) => {
                    &&& enabled && !old(self).up()
                    &&& final(self).preview() == old(self).preview()
                    &&& final(self).wf()
                },
                Err(_) => false,
                Ok((Some(step), stop_unit)) => {
                    &&& enabled && old(self).up() && !stop_unit
                    &&& final(self).wf()
                    &&& !final(self).preview().has_tripped()
                    &&& final(self).preview().lent() == old(self).preview().lent()
                    &&& final(self).preview().parked() == old(self).preview().parked()
                    &&& final(self).preview().parked_ring() == old(self).preview().parked_ring()
                    &&& if old(self).preview().lent() is Some {
                        step == EnableStep::Rearmed && final(self).preview().armed()
                    } else {
                        step == EnableStep::StartUnit && final(self).preview().armed()
                            == old(self).preview().armed()
                    }
                },
                Ok((None, stop_unit)) => {
                    &&& !enabled
                    &&& stop_unit == (old(self).preview().lent() is Some)
                    &&& !final(self).preview().armed()
                    &&& !final(self).preview().has_tripped()
                    &&& final(self).preview().lent() is None
                    &&& if stop_unit {
                        final(self).preview().lending()
                    } else {
                        &&& final(self).wf()
                        &&& final(self).preview().parked() == old(self).preview().parked()
                        &&& final(self).preview().parked_ring() == old(
                            self,
                        ).preview().parked_ring()
                    }
                },
            },
    {
        if enabled {
            if !self.running {
                return Err(CoreAudioError::NotRunning);
            }
            let step: EnableStep = self.monitor.begin_enable();
            Ok((Some(step), false))
        } else {
            let stop_unit: bool = self.monitor.disable();
            Ok((None, stop_unit))
        }
    }

    /// Lends the monitor ring's consumer out for a new monitor unit.
    pub fn lend_monitor(&mut self) -> (result: Result<Consumer<u32>, CoreAudioError>)
        requires
            old(self).wf(),
        ensures
            final(self).up() == old(self).up(),
            final(self).kind() == old(self).kind(),
            final(self).described() == old(self).described(),
            final(self).promoted() == old(self).promoted(),
            final(self).counters() == old(self).counters(),
            final(self).preview().lent() == old(self).preview().lent(),
            final(self).preview().armed() == old(self).preview().armed(),
            final(self).preview().has_tripped() == old(self).preview().has_tripped(),
            match result {
                Ok(consumer) => {
                    &&& old(self).preview().parked() is Some
                    &&& final(self).preview().lending()
                    &&& emptied(old(self).preview().parked()->0, consumer)
                    &&& old(self).preview().parked_ring() == Some(rings::read_ring(consumer))
                },
                Err(CoreAudioError::Monitor(reason)) => {
                    &&& old(self).preview().parked() is None
                    &&& final(self).wf()
                    &&& reason@ == "the monitor ring consumer is unavailable"@
                },
                Err(_) => false,
            },
    {
        self.monitor.lend()
    }

    /// The monitor unit has started on `device`.
    pub fn monitor_started(&mut self, device: u32)
        requires
            old(self).preview().lending(),
        ensures
            final(self).wf(),
            final(self).up() == old(self).up(),
            final(self).kind() == old(self).kind(),
            final(self).described() == old(self).described(),
            final(self).promoted() == old(self).promoted(),
            final(self).counters() == old(self).counters(),
            final(self).preview().lent() == Some(device),
            final(self).preview().armed(),
            final(self).preview().has_tripped() == old(self).preview().has_tripped(),
    {
        self.monitor.started(device);
    }

    /// The monitor unit did not start, or has been stopped.
    pub fn monitor_parked(&mut self, consumer: Consumer<u32>)
        requires
            old(self).preview().lending(),
        ensures
            final(self).wf(),
            final(self).up() == old(self).up(),
            final(self).kind() == old(self).kind(),
            final(self).described() == old(self).described(),
            final(self).promoted() == old(self).promoted(),
            final(self).counters() == old(self).counters(),
            final(self).preview().lent() is None,
            final(self).preview().parked() == Some(rings::received(consumer)),
            final(self).preview().parked_ring() == Some(rings::read_ring(consumer)),
            final(self).preview().armed() == old(self).preview().armed(),
            final(self).preview().has_tripped() == old(self).preview().has_tripped(),
    {
        self.monitor.park(consumer);
    }

    /// Whether the preview's unit is up.
    pub fn is_monitoring(&self) -> (monitoring: bool)
        ensures
            monitoring == (self.preview().lent() is Some),
    {
        self.monitor.is_active()
    }

    /// Device the preview plays on, or `None` while it is down.
    pub fn monitor_device(&self) -> (device: Option<u32>)
        ensures
            device == self.preview().lent(),
    {
        self.monitor.active_device()
    }

    /// How the render stream is routed into the device.
    pub closed spec fn described(&self) -> Seq<char> {
        self.routing@
    }

    /// How the render stream is routed into the device, for the start-time log.
    pub fn routing_description(&self) -> (description: &str)
        ensures
            description@ == self.described(),
    {
        self.routing.as_str()
    }
}

} // verus!
