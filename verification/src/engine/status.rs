//! What the audio and inference threads publish for the user interface.

use vstd::prelude::*;

use crate::signal::level;
use crate::signal::level::{block_peak, FULL_SCALE};

verus! {

/// A view of the engine, for display. Levels and the delay are bit patterns.
#[derive(Debug, Clone, Copy, PartialEq, Eq, Structural)]
pub struct Snapshot {
    /// Whether the audio callback is delivering samples.
    pub running: bool,
    /// Whether the active model is bypassed.
    pub bypassed: bool,
    /// Times the audio callback found the output queue short and emitted
    /// silence. Any non-zero value is audible.
    pub dropouts: u64,
    /// Times the inference thread found less input than it needed.
    pub idle_polls: u64,
    /// Peak input level since the last read, from zero to full scale.
    pub input_peak: u32,
    /// Peak output level since the last read, from zero to full scale.
    pub output_peak: u32,
    /// End-to-end delay of the active stage, in milliseconds.
    pub latency_ms: u32,
    /// Whether a switch ramp is in progress.
    pub switching: bool,
}

impl Snapshot {
    /// Whether both peaks lie between zero and full scale.
    pub open spec fn in_range(self) -> bool {
        self.input_peak <= FULL_SCALE && self.output_peak <= FULL_SCALE
    }
}

/// What the audio callback's half tells the control thread.
#[derive(Debug, Clone, Copy, PartialEq, Eq, Structural)]
pub struct BridgeReport {
    /// Times the output queue was found short.
    pub dropouts: u64,
    /// Peak input level since the last report.
    pub input_peak: u32,
    /// Peak output level since the last report.
    pub output_peak: u32,
}

/// What the inference thread's half tells the control thread.
#[derive(Debug, Clone, Copy, PartialEq, Eq, Structural)]
pub struct WorkerReport {
    /// Times less input was found than needed.
    pub idle_polls: u64,
    /// End-to-end delay of the active stage, in milliseconds.
    pub latency_ms: u32,
    /// Whether a switch ramp is in progress.
    pub switching: bool,
}

/// The part of a status that the audio callback counts.
pub open spec fn bridge_part(snapshot: Snapshot) -> BridgeReport {
    BridgeReport {
        dropouts: snapshot.dropouts,
        input_peak: snapshot.input_peak,
        output_peak: snapshot.output_peak,
    }
}

/// The part of a status that the inference thread notes.
pub open spec fn worker_part(snapshot: Snapshot) -> WorkerReport {
    WorkerReport {
        idle_polls: snapshot.idle_polls,
        latency_ms: snapshot.latency_ms,
        switching: snapshot.switching,
    }
}

/// A status that another thread's half goes on from.
pub open spec fn forked(snapshot: Snapshot) -> Snapshot {
    Snapshot { input_peak: 0, output_peak: 0, ..snapshot }
}

/// The larger of two levels, where the second counts as full scale at most.
pub open spec fn louder_of(peak: u32, reported: u32) -> u32 {
    let shown = if reported > FULL_SCALE {
        FULL_SCALE
    } else {
        reported
    };
    if peak >= shown {
        peak
    } else {
        shown
    }
}

/// The larger of two levels, where the second counts as full scale at most.
fn louder(peak: u32, reported: u32) -> (level: u32)
    ensures
        level == louder_of(peak, reported),
{
    let shown: u32 = if reported > FULL_SCALE { FULL_SCALE } else { reported };
    if peak >= shown {
        peak
    } else {
        shown
    }
}

/// A status once the audio callback's report has been taken in.
pub open spec fn bridge_observed(snapshot: Snapshot, report: BridgeReport) -> Snapshot {
    Snapshot {
        dropouts: report.dropouts,
        input_peak: louder_of(snapshot.input_peak, report.input_peak),
        output_peak: louder_of(snapshot.output_peak, report.output_peak),
        ..snapshot
    }
}

/// A status once the inference thread's report has been taken in.
pub open spec fn worker_observed(snapshot: Snapshot, report: WorkerReport) -> Snapshot {
    Snapshot {
        idle_polls: report.idle_polls,
        latency_ms: report.latency_ms,
        switching: report.switching,
        ..snapshot
    }
}

/// What one callback adds to a report.
pub open spec fn cycle_reported(
    report: BridgeReport,
    input: Seq<u32>,
    output: Seq<u32>,
    complete: bool,
) -> BridgeReport {
    BridgeReport {
        input_peak: raised(report.input_peak, input),
        output_peak: raised(report.output_peak, output),
        dropouts: if complete {
            report.dropouts
        } else {
            counted(report.dropouts)
        },
    }
}

/// What one callback does to a status.
pub open spec fn callback_noted(
    snapshot: Snapshot,
    input: Seq<u32>,
    output: Seq<u32>,
    complete: bool,
) -> Snapshot {
    let report = cycle_reported(bridge_part(snapshot), input, output, complete);
    Snapshot {
        input_peak: report.input_peak,
        output_peak: report.output_peak,
        dropouts: report.dropouts,
        ..snapshot
    }
}

/// What the callbacks do to a status, one after another: for each its input,
/// its output and whether that was complete.
pub open spec fn callbacks_noted(
    snapshot: Snapshot,
    cycles: Seq<(Seq<u32>, Seq<u32>, bool)>,
) -> Snapshot
    decreases cycles.len(),
{
    if cycles.len() == 0 {
        snapshot
    } else {
        let last = cycles.last();
        callback_noted(callbacks_noted(snapshot, cycles.drop_last()), last.0, last.1, last.2)
    }
}

/// Reporting is as good as sharing: whatever the audio callback does to its own
/// status, and whatever the control thread sets of its own in the meantime, once
/// the report is taken in the engine shows what one shared status would.
pub proof fn law_reporting_is_sharing(
    snapshot: Snapshot,
    cycles: Seq<(Seq<u32>, Seq<u32>, bool)>,
    running: bool,
    bypassed: bool,
)
    requires
        snapshot.in_range(),
    ensures
        ({
            let own = Snapshot { running, bypassed, ..snapshot };
            bridge_observed(own, bridge_part(callbacks_noted(forked(snapshot), cycles)))
                == callbacks_noted(own, cycles)
        }),
{
    lemma_noted(snapshot, cycles, running, bypassed);
}

proof fn lemma_noted(
    snapshot: Snapshot,
    cycles: Seq<(Seq<u32>, Seq<u32>, bool)>,
    running: bool,
    bypassed: bool,
)
    requires
        snapshot.in_range(),
    ensures
        ({
            let own = Snapshot { running, bypassed, ..snapshot };
            let far = callbacks_noted(forked(snapshot), cycles);
            let near = callbacks_noted(own, cycles);
            &&& far.in_range()
            &&& near == (Snapshot {
                dropouts: far.dropouts,
                input_peak: louder_of(own.input_peak, far.input_peak),
                output_peak: louder_of(own.output_peak, far.output_peak),
                ..own
            })
        }),
    decreases cycles.len(),
{
    if cycles.len() > 0 {
        lemma_noted(snapshot, cycles.drop_last(), running, bypassed);
    }
}

/// The larger of a level and the peak of a block, where the peak counts as full
/// scale at most.
pub open spec fn raised(peak: u32, block: Seq<u32>) -> u32 {
    louder_of(peak, level::peak_of(block))
}

/// A status with everything cleared.
pub open spec fn cleared() -> Snapshot {
    Snapshot {
        running: false,
        bypassed: false,
        dropouts: 0,
        idle_polls: 0,
        input_peak: 0,
        output_peak: 0,
        latency_ms: 0,
        switching: false,
    }
}

/// A counter after one more event.
pub open spec fn counted(count: u64) -> u64 {
    if count == u64::MAX {
        0
    } else {
        (count + 1) as u64
    }
}

/// Status of the engine. Its peaks stay between zero and full scale.
#[derive(Debug)]
pub struct Status {
    state: Snapshot,
}

impl View for Status {
    type V = Snapshot;

    closed spec fn view(&self) -> Snapshot {
        self.state
    }
}

impl Status {
    #[verifier::type_invariant]
    spec fn ranged(self) -> bool {
        self.state.in_range()
    }

    /// Creates a status with everything cleared.
    pub fn new() -> (status: Self)
        ensures
            status@ == cleared(),
    {
        Status {
            state: Snapshot {
                running: false,
                bypassed: false,
                dropouts: 0,
                idle_polls: 0,
                input_peak: 0,
                output_peak: 0,
                latency_ms: 0,
                        switching: false,
            },
        }
    }

    /// Reads the status, resetting the peak meters.
    ///
    /// Peaks are read-and-clear so that a reader polling at its own rate sees
    /// the loudest sample since it last looked.
    pub fn snapshot(&mut self) -> (snapshot: Snapshot)
        ensures
            snapshot == old(self)@,
            snapshot.in_range(),
            final(self)@ == (Snapshot { input_peak: 0, output_peak: 0, ..old(self)@ }),
    {
        proof {
            use_type_invariant(&*self);
        }
        let snapshot = self.state;
        self.state.input_peak = 0;
        self.state.output_peak = 0;
        snapshot
    }

    /// Marks the engine running or stopped.
    pub fn set_running(&mut self, running: bool)
        ensures
            final(self)@ == (Snapshot { running, ..old(self)@ }),
    {
        proof {
            use_type_invariant(&*self);
        }
        self.state.running = running;
    }

    /// Whether the engine is running.
    pub fn is_running(&self) -> (running: bool)
        ensures
            running == self@.running,
    {
        self.state.running
    }

    /// Sets whether the active model is bypassed.
    pub fn set_bypassed(&mut self, bypassed: bool)
        ensures
            final(self)@ == (Snapshot { bypassed, ..old(self)@ }),
    {
        proof {
            use_type_invariant(&*self);
        }
        self.state.bypassed = bypassed;
    }

    /// Whether the active model is bypassed.
    pub fn is_bypassed(&self) -> (bypassed: bool)
        ensures
            bypassed == self@.bypassed,
    {
        self.state.bypassed
    }

    /// Sets whether a switch ramp is in progress.
    pub fn set_switching(&mut self, switching: bool)
        ensures
            final(self)@ == (Snapshot { switching, ..old(self)@ }),
    {
        proof {
            use_type_invariant(&*self);
        }
        self.state.switching = switching;
    }

    /// Records the active stage's end-to-end delay.
    pub fn set_latency_ms(&mut self, latency_ms: u32)
        ensures
            final(self)@ == (Snapshot { latency_ms, ..old(self)@ }),
    {
        proof {
            use_type_invariant(&*self);
        }
        self.state.latency_ms = latency_ms;
    }

    /// A status for another thread's half that goes on from here: the same, but
    /// for the peak meters, which start at silence.
    pub fn fork(&self) -> (status: Self)
        ensures
            status@ == forked(self@),
    {
        Status { state: Snapshot { input_peak: 0, output_peak: 0, ..self.state } }
    }

    /// What the audio callback has counted since it was last asked. Resets the
    /// peak meters.
    pub fn bridge_report(&mut self) -> (report: BridgeReport)
        ensures
            report == bridge_part(old(self)@),
            final(self)@ == (Snapshot { input_peak: 0, output_peak: 0, ..old(self)@ }),
    {
        let snapshot = self.snapshot();
        BridgeReport {
            dropouts: snapshot.dropouts,
            input_peak: snapshot.input_peak,
            output_peak: snapshot.output_peak,
        }
    }

    /// What the inference thread has noted.
    pub fn worker_report(&self) -> (report: WorkerReport)
        ensures
            report == worker_part(self@),
    {
        WorkerReport {
            idle_polls: self.state.idle_polls,
            latency_ms: self.state.latency_ms,
            switching: self.state.switching,
        }
    }

    /// Takes in what the audio callback reported.
    pub fn observe_bridge(&mut self, report: BridgeReport)
        ensures
            final(self)@ == bridge_observed(old(self)@, report),
    {
        proof {
            use_type_invariant(&*self);
        }
        self.state = Snapshot {
            dropouts: report.dropouts,
            input_peak: louder(self.state.input_peak, report.input_peak),
            output_peak: louder(self.state.output_peak, report.output_peak),
            ..self.state
        };
    }

    /// Takes in what the inference thread reported.
    pub fn observe_worker(&mut self, report: WorkerReport)
        ensures
            final(self)@ == worker_observed(old(self)@, report),
    {
        proof {
            use_type_invariant(&*self);
        }
        self.state = Snapshot {
            idle_polls: report.idle_polls,
            latency_ms: report.latency_ms,
                switching: report.switching,
            ..self.state
        };
    }

    /// Counts one audio-callback dropout.
    pub fn add_dropout(&mut self)
        ensures
            final(self)@ == (Snapshot { dropouts: counted(old(self)@.dropouts), ..old(self)@ }),
    {
        proof {
            use_type_invariant(&*self);
        }
        self.state.dropouts = if self.state.dropouts == u64::MAX {
            0
        } else {
            self.state.dropouts + 1
        };
    }

    /// Counts one inference-thread poll that found nothing to do.
    pub fn add_idle_poll(&mut self)
        ensures
            final(self)@ == (Snapshot { idle_polls: counted(old(self)@.idle_polls), ..old(self)@ }),
    {
        proof {
            use_type_invariant(&*self);
        }
        self.state.idle_polls = if self.state.idle_polls == u64::MAX {
            0
        } else {
            self.state.idle_polls + 1
        };
    }

    /// Raises the input peak meter if `samples` contains anything louder.
    pub fn observe_input(&mut self, samples: &[u32])
        ensures
            final(self)@ == (Snapshot {
                input_peak: raised(old(self)@.input_peak, samples@),
                ..old(self)@
            }),
    {
        proof {
            use_type_invariant(&*self);
        }
        self.state.input_peak = louder(self.state.input_peak, block_peak(samples));
    }

    /// Raises the output peak meter if `samples` contains anything louder.
    pub fn observe_output(&mut self, samples: &[u32])
        ensures
            final(self)@ == (Snapshot {
                output_peak: raised(old(self)@.output_peak, samples@),
                ..old(self)@
            }),
    {
        proof {
            use_type_invariant(&*self);
        }
        self.state.output_peak = louder(self.state.output_peak, block_peak(samples));
    }
}

/// The meter keeps the loudest sample of all blocks seen since it was read:
/// observing two blocks is observing them as one. It never leaves the range
/// from zero to full scale.
pub proof fn law_meter_keeps_the_loudest(peak: u32, first: Seq<u32>, second: Seq<u32>)
    ensures
        raised(raised(peak, first), second) == raised(peak, first + second),
        peak <= FULL_SCALE ==> raised(peak, first) <= FULL_SCALE,
    decreases second.len(),
{
    if second.len() == 0 {
        assert(first + second =~= first);
        assert(level::peak_of(second) == 0);
    } else {
        let rest = second.drop_last();
        law_meter_keeps_the_loudest(peak, first, rest);
        assert((first + second).drop_last() =~= first + rest);
        assert((first + second).last() == second.last());
    }
}

/// How many of some callbacks were not complete.
pub open spec fn incomplete(cycles: Seq<(Seq<u32>, Seq<u32>, bool)>) -> int
    decreases cycles.len(),
{
    if cycles.len() == 0 {
        0
    } else {
        incomplete(cycles.drop_last()) + (if cycles.last().2 {
            0int
        } else {
            1
        })
    }
}

/// A level as it is shown: full scale at most.
pub open spec fn shown(magnitude: u32) -> u32 {
    if magnitude > FULL_SCALE {
        FULL_SCALE
    } else {
        magnitude
    }
}

/// The callbacks move what they are about and nothing else: each callback that was
/// not complete counts as a dropout, the input meter is the loudest of all inputs
/// and the output meter the loudest of all outputs.
pub proof fn law_callbacks_are_metered(
    snapshot: Snapshot,
    cycles: Seq<(Seq<u32>, Seq<u32>, bool)>,
)
    requires
        snapshot.in_range(),
        snapshot.dropouts + incomplete(cycles) <= u64::MAX,
    ensures
        ({
            let after = callbacks_noted(snapshot, cycles);
            &&& after.dropouts == snapshot.dropouts + incomplete(cycles)
            &&& after == (Snapshot {
                dropouts: after.dropouts,
                input_peak: after.input_peak,
                output_peak: after.output_peak,
                ..snapshot
            })
            &&& after.input_peak >= snapshot.input_peak
            &&& after.output_peak >= snapshot.output_peak
            &&& forall|c: int|
                0 <= c < cycles.len() ==> after.input_peak >= shown(
                    level::peak_of(#[trigger] cycles[c].0),
                )
            &&& forall|c: int|
                0 <= c < cycles.len() ==> after.output_peak >= shown(
                    level::peak_of(#[trigger] cycles[c].1),
                )
            &&& after.input_peak == snapshot.input_peak || exists|c: int|
                0 <= c < cycles.len() && after.input_peak == shown(
                    level::peak_of(#[trigger] cycles[c].0),
                )
            &&& after.output_peak == snapshot.output_peak || exists|c: int|
                0 <= c < cycles.len() && after.output_peak == shown(
                    level::peak_of(#[trigger] cycles[c].1),
                )
        }),
    decreases cycles.len(),
{
    if cycles.len() > 0 {
        let fewer = cycles.drop_last();
        lemma_incomplete_is_natural(fewer);
        law_callbacks_are_metered(snapshot, fewer);
        let before = callbacks_noted(snapshot, fewer);
        let after = callbacks_noted(snapshot, cycles);
        let last = cycles.len() - 1;
        assert(cycles[last] == cycles.last());
        assert forall|c: int| 0 <= c < cycles.len() implies after.input_peak >= shown(
            level::peak_of(#[trigger] cycles[c].0),
        ) by {
            if c < last {
                assert(fewer[c].0 == cycles[c].0);
            }
        }
        assert forall|c: int| 0 <= c < cycles.len() implies after.output_peak >= shown(
            level::peak_of(#[trigger] cycles[c].1),
        ) by {
            if c < last {
                assert(fewer[c].1 == cycles[c].1);
            }
        }
        if after.input_peak == before.input_peak {
            if after.input_peak != snapshot.input_peak {
                let c = choose|c: int|
                    0 <= c < fewer.len() && before.input_peak == shown(
                        level::peak_of(#[trigger] fewer[c].0),
                    );
                assert(cycles[c].0 == fewer[c].0);
            }
        } else {
            assert(after.input_peak == shown(level::peak_of(cycles[last].0)));
        }
        if after.output_peak == before.output_peak {
            if after.output_peak != snapshot.output_peak {
                let c = choose|c: int|
                    0 <= c < fewer.len() && before.output_peak == shown(
                        level::peak_of(#[trigger] fewer[c].1),
                    );
                assert(cycles[c].1 == fewer[c].1);
            }
        } else {
            assert(after.output_peak == shown(level::peak_of(cycles[last].1)));
        }
    }
}

proof fn lemma_incomplete_is_natural(cycles: Seq<(Seq<u32>, Seq<u32>, bool)>)
    ensures
        0 <= incomplete(cycles) <= cycles.len(),
    decreases cycles.len(),
{
    if cycles.len() > 0 {
        lemma_incomplete_is_natural(cycles.drop_last());
    }
}

/// Each half of the engine owns its part of what is shown: a report of one half shows
/// as it was made and leaves the other's part alone, whichever comes first, and
/// neither says whether the engine runs or is bypassed.
pub proof fn law_reports_show_as_they_were_made(
    snapshot: Snapshot,
    bridge: BridgeReport,
    worker: WorkerReport,
)
    requires
        bridge.input_peak <= FULL_SCALE,
        bridge.output_peak <= FULL_SCALE,
    ensures
        ({
            let read = forked(snapshot);
            let both = worker_observed(bridge_observed(read, bridge), worker);
            &&& bridge_part(both) == bridge
            &&& worker_part(both) == worker
            &&& both == bridge_observed(worker_observed(read, worker), bridge)
            &&& both.running == snapshot.running
            &&& both.bypassed == snapshot.bypassed
            &&& worker_part(bridge_observed(snapshot, bridge)) == worker_part(snapshot)
            &&& bridge_part(worker_observed(snapshot, worker)) == bridge_part(snapshot)
        }),
{
}

} // verus!
