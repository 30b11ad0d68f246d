//! What the audio callback is allowed to touch.
//!
//! The device callback gets one of these and nothing else. Both methods are
//! wait-free: they move samples through single-producer, single-consumer
//! rings.

use std::sync::atomic::{AtomicU64, Ordering};
use std::sync::Arc;

use rtrb::{Consumer, Producer};
use vstd::prelude::*;

use crate::engine::status;
use crate::engine::status::{BridgeReport, Status};
use crate::rings;
use crate::signal::ring;
use crate::signal::stage::fill_silence;

verus! {

/// A count that stops at the largest number its type holds.
pub open spec fn capped(count: int) -> u64 {
    if count > u64::MAX {
        u64::MAX
    } else {
        count as u64
    }
}

/// Reads a mark that threads share.
pub(crate) fn read_mark(mark: &Arc<AtomicU64>) -> u64 {
    mark.load(Ordering::Acquire)
}

/// Sets a mark that threads share.
fn write_mark(mark: &Arc<AtomicU64>, value: u64) {
    mark.store(value, Ordering::Release);
}

/// The audio callback's half of the engine.
pub struct AudioBridge {
    to_inference: Producer<u32>,
    from_inference: Consumer<u32>,
    status: Status,
    handed: u64,
    asked: u64,
    stale: Arc<AtomicU64>,
}

impl AudioBridge {
    /// Every sample handed to the inference thread so far.
    pub closed spec fn sent(&self) -> Seq<u32> {
        rings::sent(self.to_inference)
    }

    /// Free slots toward the inference thread that are known of.
    pub closed spec fn free(&self) -> nat {
        rings::free(self.to_inference)
    }

    /// Every sample taken from the inference thread so far.
    pub closed spec fn received(&self) -> Seq<u32> {
        rings::received(self.from_inference)
    }

    /// Samples from the inference thread that are known of.
    pub closed spec fn stocked(&self) -> nat {
        rings::stocked(self.from_inference)
    }

    /// Which ring leads to the inference thread.
    pub closed spec fn outgoing(&self) -> int {
        rings::written_ring(self.to_inference)
    }

    /// Which ring comes from the inference thread.
    pub closed spec fn incoming(&self) -> int {
        rings::read_ring(self.from_inference)
    }

    /// How many samples this bridge has handed to the inference thread.
    pub closed spec fn handed(&self) -> u64 {
        self.handed
    }

    /// How many of them, from the first on, the inference thread was last asked
    /// to discard.
    pub closed spec fn requested(&self) -> u64 {
        self.asked
    }

    /// Where the inference thread reads that request.
    pub closed spec fn stale_mark(&self) -> Arc<AtomicU64> {
        self.stale
    }

    /// Whether the bridge has counted everything that its ring was handed.
    pub open spec fn in_count(&self) -> bool {
        self.handed() == capped(self.sent().len() as int)
    }

    /// What has been counted since the last report.
    pub closed spec fn counted(&self) -> BridgeReport {
        status::bridge_part(self.status@)
    }

    /// Assembles a bridge from the ring ends the engine created, and the mark
    /// up to which the inference thread discards what it was handed.
    pub fn new(
        to_inference: Producer<u32>,
        from_inference: Consumer<u32>,
        status: Status,
        stale: Arc<AtomicU64>,
    ) -> (bridge: Self)
        ensures
            bridge.sent() == rings::sent(to_inference),
            bridge.free() == rings::free(to_inference),
            bridge.received() == rings::received(from_inference),
            bridge.stocked() == rings::stocked(from_inference),
            bridge.outgoing() == rings::written_ring(to_inference),
            bridge.incoming() == rings::read_ring(from_inference),
            bridge.counted() == status::bridge_part(status@),
            bridge.handed() == 0,
            bridge.requested() == 0,
            bridge.stale_mark() == stale,
    {
        AudioBridge { to_inference, from_inference, status, handed: 0, asked: 0, stale }
    }

    /// What the control thread is to be told. Resets the peak meters.
    pub fn report(&mut self) -> (report: BridgeReport)
        ensures
            report == old(self).counted(),
            final(self).counted() == (BridgeReport {
                input_peak: 0,
                output_peak: 0,
                ..old(self).counted()
            }),
            final(self).outgoing() == old(self).outgoing(),
            final(self).incoming() == old(self).incoming(),
            final(self).stale_mark() == old(self).stale_mark(),
            final(self).handed() == old(self).handed(),
            final(self).requested() == old(self).requested(),
            final(self).sent() == old(self).sent(),
            final(self).free() == old(self).free(),
            final(self).received() == old(self).received(),
            final(self).stocked() == old(self).stocked(),
    {
        self.status.bridge_report()
    }

    /// Moves one device buffer through the engine.
    ///
    /// `input` is what the microphone delivered; `output` receives what the
    /// virtual device should emit. They may be different lengths.
    ///
    /// A full input ring means the inference thread has fallen behind; the
    /// newest samples are dropped. Returns `false` if the output ring was
    /// short and silence had to be emitted. How full the rings are depends on
    /// the inference thread.
    pub fn process(&mut self, input: &[u32], output: &mut [u32]) -> (complete: bool)
        ensures
            final(output)@.len() == old(output)@.len(),
            bridge_moved(
                old(self).sent(),
                final(self).sent(),
                old(self).free(),
                input@,
            ),
            bridge_filled(
                old(self).received(),
                final(self).received(),
                old(self).stocked(),
                final(output)@,
                complete,
            ),
            final(self).counted() == status::cycle_reported(
                old(self).counted(),
                input@,
                final(output)@,
                complete,
            ),
            final(self).outgoing() == old(self).outgoing(),
            final(self).incoming() == old(self).incoming(),
            final(self).stale_mark() == old(self).stale_mark(),
            final(self).requested() == old(self).requested(),
            final(self).handed() == capped(
                old(self).handed() + final(self).sent().len() - old(self).sent().len(),
            ),
            old(self).in_count() ==> final(self).in_count(),
            final(self).sent() != old(self).sent() + input@ ==> final(self).free() == 0,
            !complete ==> final(self).stocked() == 0,
            final(self).free() + input@.len() >= old(self).free(),
            final(self).stocked() + old(output)@.len() >= old(self).stocked(),
    {
        self.status.observe_input(input);
        let written: usize = rings::push_block(&mut self.to_inference, input);
        assert(input@.take(input@.len() as int) =~= input@);
        self.handed = self.handed.saturating_add(written as u64);
        assert(bridge_moved(old(self).sent(), self.sent(), old(self).free(), input@)) by {
            assert(moved_prefix(input@, written as int, old(self).sent(), self.sent()));
        }
        let ghost before = rings::received(self.from_inference);
        let taken: usize = rings::pop_block(&mut self.from_inference, output);
        let ghost delivered = output@.take(taken as int);
        let complete: bool = taken == output.len();
        if !complete {
            fill_silence(output, taken);
            self.status.add_dropout();
        }
        assert(output@.take(taken as int) =~= delivered);
        assert(bridge_filled(
            before,
            self.received(),
            old(self).stocked(),
            output@,
            complete,
        )) by {
            assert(output@.skip(taken as int) =~= ring::silence((output@.len() - taken) as nat));
            assert(moved_prefix(output@, taken as int, before, self.received()));
        }
        self.status.observe_output(output);
        complete
    }

    /// Discards everything queued in both directions.
    ///
    /// For use when the device restarts and the buffered audio is stale. What
    /// is queued toward the device is taken out here. What is queued toward the
    /// inference thread can only be taken out at its reading end, so that thread
    /// is asked to: it discards every sample handed over before this call before
    /// it reads another block, and no model hears one of them.
    pub fn flush(&mut self)
        ensures
            final(self).stocked() == 0,
            old(self).received().is_prefix_of(final(self).received()),
            final(self).received().len() >= old(self).received().len() + old(self).stocked(),
            final(self).requested() == old(self).handed(),
            final(self).handed() == old(self).handed(),
            final(self).stale_mark() == old(self).stale_mark(),
            final(self).sent() == old(self).sent(),
            final(self).free() == old(self).free(),
            final(self).counted() == old(self).counted(),
            final(self).outgoing() == old(self).outgoing(),
            final(self).incoming() == old(self).incoming(),
    {
        rings::discard_all(&mut self.from_inference);
        self.asked = self.handed;
        write_mark(&self.stale, self.asked);
    }
}

/// Whether a ring end moved the first `count` samples of a block, in order,
/// and nothing else.
pub open spec fn moved_prefix(
    block: Seq<u32>,
    count: int,
    before: Seq<u32>,
    after: Seq<u32>,
) -> bool {
    0 <= count <= block.len() && after == before + block.take(count)
}

/// What a callback hands to the inference thread: a prefix of its input, and
/// all of it if the slots known to be free suffice.
pub open spec fn bridge_moved(
    before: Seq<u32>,
    after: Seq<u32>,
    known: nat,
    input: Seq<u32>,
) -> bool {
    exists|count: int|
        #[trigger] moved_prefix(input, count, before, after) && (count == input.len() || count
            >= known)
}

/// What a callback emits: samples from the inference thread, in order, then
/// silence. It is complete when no silence was needed, which it is when the
/// samples known to be there suffice.
pub open spec fn bridge_filled(
    before: Seq<u32>,
    after: Seq<u32>,
    known: nat,
    output: Seq<u32>,
    complete: bool,
) -> bool {
    &&& known >= output.len() ==> complete
    &&& exists|count: int|
        #[trigger] moved_prefix(output, count, before, after) && output.skip(count)
            == ring::silence((output.len() - count) as nat) && complete == (count == output.len())
            && (complete || count >= known)
}

/// What a callback hands over comes behind what was handed over before, in its order
/// and from its beginning, and is whole where the slots known to be free suffice.
pub proof fn law_bridge_hands_over_in_order(
    before: Seq<u32>,
    after: Seq<u32>,
    known: nat,
    input: Seq<u32>,
)
    requires
        bridge_moved(before, after, known, input),
    ensures
        before.len() <= after.len() <= before.len() + input.len(),
        after.take(before.len() as int) == before,
        after.skip(before.len() as int) == input.take(after.len() - before.len()),
        known >= input.len() ==> after == before + input,
        after.len() >= before.len() + known || after == before + input,
{
    let count = choose|count: int|
        #[trigger] moved_prefix(input, count, before, after) && (count == input.len() || count
            >= known);
    assert(after.take(before.len() as int) =~= before);
    assert(after.skip(before.len() as int) =~= input.take(count));
    assert(input.take(input.len() as int) =~= input);
}

/// What a callback emits is what it took from the inference thread, in its order, and
/// then silence, of which there is none exactly where the callback was complete.
pub proof fn law_bridge_plays_what_it_received(
    before: Seq<u32>,
    after: Seq<u32>,
    known: nat,
    output: Seq<u32>,
    complete: bool,
)
    requires
        bridge_filled(before, after, known, output, complete),
    ensures
        before.len() <= after.len() <= before.len() + output.len(),
        after.take(before.len() as int) == before,
        output == after.skip(before.len() as int) + ring::silence(
            (output.len() - (after.len() - before.len())) as nat,
        ),
        complete <==> after == before + output,
        known >= output.len() ==> after == before + output,
        !complete ==> after.len() - before.len() >= known,
{
    let count = choose|count: int|
        #[trigger] moved_prefix(output, count, before, after) && output.skip(count)
            == ring::silence((output.len() - count) as nat) && complete == (count
            == output.len()) && (complete || count >= known);
    assert(after.take(before.len() as int) =~= before);
    assert(after.skip(before.len() as int) =~= output.take(count));
    assert(output =~= output.take(count) + output.skip(count));
    assert(output.take(output.len() as int) =~= output);
}

} // verus!
