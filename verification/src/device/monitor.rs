//! Preview (self-monitor) policy and the worker's half of the monitor.
//!
//! The preview plays the processed voice back to the speaker. It must not
//! reach the meeting a second time, and it must not feed back into the
//! microphone: [`classify_monitor_target`] refuses the outputs that would, and
//! the [`HowlGuard`] stops the preview where that check cannot tell.

use rtrb::Producer;
use vstd::prelude::*;
use vstd::string::*;

use super::callback;
use super::callback::push_each;
use super::error::CoreAudioError;
use crate::rings;
use crate::signal::level;
use crate::signal::level::block_peak;
use crate::text;
use crate::text::{contains_text, matches_at};

verus! {

/// Monitor ring capacity: 100 ms at 48 kHz.
///
/// A small ring caps the preview latency and turns clock drift into an
/// occasional discarded block.
pub const MONITOR_RING_CAPACITY: usize = 4800;

/// Bit pattern of 0.98, the peak level a teed block must reach to count toward
/// a trip.
pub const HOWL_PEAK_THRESHOLD: u32 = 0x3f7a_e148;

/// Consecutive near-clipping blocks (10 ms each) before a trip: 500 ms.
pub const HOWL_TRIP_BLOCKS: usize = 50;

/// Four-character Core Audio code as a big-endian number.
pub fn fourcc(bytes: [u8; 4]) -> (code: u32)
    ensures
        code == bytes@[0] * 0x100_0000 + bytes@[1] * 0x1_0000 + bytes@[2] * 0x100 + bytes@[3],
{
    bytes[0] as u32 * 0x100_0000 + bytes[1] as u32 * 0x1_0000 + bytes[2] as u32 * 0x100
        + bytes[3] as u32
}

/// Transport type `virt`: loopback drivers.
pub const TRANSPORT_TYPE_VIRTUAL: u32 = 0x7669_7274;

/// Transport type `grup`: aggregate and Multi-Output devices.
pub const TRANSPORT_TYPE_AGGREGATE: u32 = 0x6772_7570;

/// Transport type `bltn`: the machine's own output.
pub const TRANSPORT_TYPE_BUILT_IN: u32 = 0x626c_746e;

/// Data source `ispk` of the built-in output: the internal speakers.
pub const DATA_SOURCE_INTERNAL_SPEAKER: u32 = 0x6973_706b;

/// What `str::to_lowercase` makes of a text.
pub uninterp spec fn lowercase(given: Seq<char>) -> Seq<char>;

/// `str::to_lowercase` gives the lowercase equivalent of a text, which depends
/// on the text alone.
#[verifier::external_body]
fn to_lowercase(given: &str) -> (lowered: String)
    ensures
        lowered@ == lowercase(given@),
{
    given.to_lowercase()
}

/// Whether a device UID names a loopback, given the UID in lower case too.
pub open spec fn loopback_uid(uid: Seq<char>, lowered: Seq<char>) -> bool {
    text::contained(uid, "BlackHole"@) || text::stands_at(lowered, 0, "com.lightsound.noican."@)
}

/// Whether a device UID names a loopback, given the UID in lower case too: it
/// contains `BlackHole`, or starts with the Noican prefix whatever its case.
pub fn is_loopback_uid(uid: &str, lowered: &str) -> (loopback: bool)
    ensures
        loopback == loopback_uid(uid@, lowered@),
{
    contains_text(uid, "BlackHole") || matches_at(lowered, 0, "com.lightsound.noican.")
}

/// Whether a device UID names a loopback.
pub fn is_noican_loopback_uid(uid: &str) -> (loopback: bool)
    ensures
        loopback == loopback_uid(uid@, lowercase(uid@)),
{
    let lowered: String = to_lowercase(uid);
    is_loopback_uid(uid, lowered.as_str())
}

/// The verdict on an output device, given whether its UID names a loopback.
pub open spec fn verdict(
    transport: u32,
    uid: Seq<char>,
    loopback: bool,
    data_source: Option<u32>,
    result: Result<(), CoreAudioError>,
) -> bool {
    if transport == TRANSPORT_TYPE_VIRTUAL || loopback {
        result matches Err(CoreAudioError::MonitorLoopbackOutput { uid: refused }) && refused@
            == uid
    } else if transport == TRANSPORT_TYPE_AGGREGATE {
        result matches Err(CoreAudioError::MonitorAggregateOutput { uid: refused }) && refused@
            == uid
    } else if transport == TRANSPORT_TYPE_BUILT_IN && data_source == Some(
        DATA_SOURCE_INTERNAL_SPEAKER,
    ) {
        result matches Err(CoreAudioError::MonitorSpeakerOutput)
    } else {
        result is Ok
    }
}

/// The verdict on an output device, given whether its UID names a loopback.
pub fn judge_monitor_target(
    transport: u32,
    uid: &str,
    loopback: bool,
    data_source: Option<u32>,
) -> (result: Result<(), CoreAudioError>)
    ensures
        verdict(transport, uid@, loopback, data_source, result),
{
    if transport == TRANSPORT_TYPE_VIRTUAL || loopback {
        return Err(CoreAudioError::MonitorLoopbackOutput { uid: uid.to_owned() });
    }
    if transport == TRANSPORT_TYPE_AGGREGATE {
        return Err(CoreAudioError::MonitorAggregateOutput { uid: uid.to_owned() });
    }
    match data_source {
        Some(source) => {
            if transport == TRANSPORT_TYPE_BUILT_IN && source == DATA_SOURCE_INTERNAL_SPEAKER {
                return Err(CoreAudioError::MonitorSpeakerOutput);
            }
        },
        None => {},
    }
    Ok(())
}

/// Decides whether an output device may receive the preview.
///
/// Virtual loopbacks would carry the voice into the meeting a second time,
/// aggregates can hide a loopback, and the internal speakers feed straight
/// back into the microphone: all three are refused. Everything else, and what
/// cannot be read (`transport` zero, no data source), is allowed; the
/// [`HowlGuard`] is the safety net there.
pub fn classify_monitor_target(transport: u32, uid: &str, data_source: Option<u32>) -> (result:
    Result<(), CoreAudioError>)
    ensures
        verdict(transport, uid@, loopback_uid(uid@, lowercase(uid@)), data_source, result),
{
    let loopback: bool = is_noican_loopback_uid(uid);
    judge_monitor_target(transport, uid, loopback, data_source)
}

/// Whether a block counts toward a trip.
pub open spec fn howls(block: Seq<u32>) -> bool {
    level::peak_of(block) >= HOWL_PEAK_THRESHOLD
}

/// The run of loud blocks after one more, and whether it trips.
pub open spec fn observed(run: nat, block: Seq<u32>) -> (nat, bool) {
    if !howls(block) {
        (0, false)
    } else if run + 1 >= HOWL_TRIP_BLOCKS {
        (0, true)
    } else {
        (run + 1, false)
    }
}

/// Last-resort feedback killswitch for the preview monitor.
///
/// Trips when the teed output holds near clipping for [`HOWL_TRIP_BLOCKS`]
/// consecutive blocks, the signature of the preview playing through speakers
/// back into the microphone.
#[derive(Debug)]
pub struct HowlGuard {
    consecutive: usize,
}

impl HowlGuard {
    /// The run is always shorter than a trip.
    pub closed spec fn wf(&self) -> bool {
        self.consecutive < HOWL_TRIP_BLOCKS
    }

    /// Consecutive loud blocks so far.
    pub closed spec fn run(&self) -> nat {
        self.consecutive as nat
    }

    /// Creates a guard with no accumulated run.
    pub fn new() -> (guard: Self)
        ensures
            guard.wf(),
            guard.run() == 0,
    {
        HowlGuard { consecutive: 0 }
    }

    /// Observes one teed block. Returns `true` when the guard trips. The run
    /// resets on any block below the threshold and after a trip.
    pub fn observe(&mut self, block: &[u32]) -> (tripped: bool)
        requires
            old(self).wf(),
        ensures
            final(self).wf(),
            (final(self).run(), tripped) == observed(old(self).run(), block@),
    {
        if block_peak(block) >= HOWL_PEAK_THRESHOLD {
            self.consecutive = self.consecutive + 1;
            if self.consecutive >= HOWL_TRIP_BLOCKS {
                self.consecutive = 0;
                return true;
            }
        } else {
            self.consecutive = 0;
        }
        false
    }

    /// Clears the accumulated run (monitoring is disabled).
    pub fn reset(&mut self)
        ensures
            final(self).wf(),
            final(self).run() == 0,
    {
        self.consecutive = 0;
    }
}

impl Default for HowlGuard {
    fn default() -> (guard: Self)
        ensures
            guard.wf(),
            guard.run() == 0,
    {
        HowlGuard::new()
    }
}

/// The run of loud blocks after a stream of them, and whether the last one
/// tripped.
pub open spec fn observed_all(run: nat, blocks: Seq<Seq<u32>>) -> (nat, bool)
    decreases blocks.len(),
{
    if blocks.len() == 0 {
        (run, false)
    } else {
        observed(observed_all(run, blocks.drop_last()).0, blocks.last())
    }
}

/// A fresh guard does not trip before the trip length, and trips exactly at it
/// when every block was loud.
pub proof fn law_guard_trips_at_the_trip_length(blocks: Seq<Seq<u32>>)
    requires
        0 < blocks.len() <= HOWL_TRIP_BLOCKS,
    ensures
        observed_all(0, blocks).1 == (blocks.len() == HOWL_TRIP_BLOCKS && forall|i: int|
            0 <= i < blocks.len() ==> #[trigger] howls(blocks[i])),
        blocks.len() < HOWL_TRIP_BLOCKS ==> observed_all(0, blocks).0 <= blocks.len(),
{
    lemma_run_counts(blocks);
}

/// The run never exceeds the number of blocks, and equals it exactly when all
/// were loud.
proof fn lemma_run_counts(blocks: Seq<Seq<u32>>)
    requires
        blocks.len() <= HOWL_TRIP_BLOCKS,
    ensures
        blocks.len() < HOWL_TRIP_BLOCKS ==> {
            &&& !observed_all(0, blocks).1
            &&& observed_all(0, blocks).0 <= blocks.len()
            &&& observed_all(0, blocks).0 == blocks.len() <==> forall|i: int|
                0 <= i < blocks.len() ==> #[trigger] howls(blocks[i])
        },
        blocks.len() == HOWL_TRIP_BLOCKS ==> observed_all(0, blocks).1 == (forall|i: int|
            0 <= i < blocks.len() ==> #[trigger] howls(blocks[i])),
    decreases blocks.len(),
{
    if blocks.len() > 0 {
        let rest = blocks.drop_last();
        lemma_run_counts(rest);
        let all = forall|i: int| 0 <= i < blocks.len() ==> #[trigger] howls(blocks[i]);
        let most = forall|i: int| 0 <= i < rest.len() ==> #[trigger] howls(rest[i]);
        assert(all == (most && howls(blocks.last()))) by {
            if all {
                assert forall|i: int| 0 <= i < rest.len() implies #[trigger] howls(rest[i]) by {
                    assert(howls(blocks[i]));
                }
                assert(howls(blocks[blocks.len() - 1]));
            }
            if most && howls(blocks.last()) {
                assert forall|i: int| 0 <= i < blocks.len() implies #[trigger] howls(
                    blocks[i],
                ) by {
                    if i < rest.len() {
                        assert(howls(rest[i]));
                    }
                }
            }
        }
    }
}

/// A quiet block starts the run over, so speech with dips never trips.
pub proof fn law_quiet_block_restarts_the_run(run: nat, block: Seq<u32>)
    requires
        !howls(block),
    ensures
        observed(run, block) == (0nat, false),
{
}

/// The inference worker's half of the preview monitor: the writing end of the
/// monitor ring, the flags shared with the control plane, and the guard.
pub struct MonitorTee {
    producer: Producer<u32>,
    enabled: bool,
    tripped: bool,
    howl: HowlGuard,
}

impl MonitorTee {
    /// The guard's run is shorter than a trip.
    pub closed spec fn wf(&self) -> bool {
        self.howl.wf()
    }

    /// Every sample teed so far.
    pub closed spec fn sent(&self) -> Seq<u32> {
        rings::sent(self.producer)
    }

    /// Free slots of the monitor ring that are known of.
    pub closed spec fn free(&self) -> nat {
        rings::free(self.producer)
    }

    /// Which ring the tee writes.
    pub closed spec fn ring(&self) -> int {
        rings::written_ring(self.producer)
    }

    /// Whether the tee is armed.
    pub closed spec fn armed(&self) -> bool {
        self.enabled
    }

    /// Whether the guard has tripped since the last toggle.
    pub closed spec fn has_tripped(&self) -> bool {
        self.tripped
    }

    /// Consecutive loud blocks so far.
    pub closed spec fn run(&self) -> nat {
        self.howl.run()
    }

    /// Bundles the worker half around the writing end of the monitor ring.
    pub fn new(producer: Producer<u32>, enabled: bool, tripped: bool) -> (tee: Self)
        ensures
            tee.wf(),
            tee.sent() == rings::sent(producer),
            tee.free() == rings::free(producer),
            tee.ring() == rings::written_ring(producer),
            tee.armed() == enabled,
            tee.has_tripped() == tripped,
            tee.run() == 0,
    {
        MonitorTee { producer, enabled, tripped, howl: HowlGuard::new() }
    }

    /// Whether the tee is armed.
    pub fn enabled(&self) -> (enabled: bool)
        ensures
            enabled == self.armed(),
    {
        self.enabled
    }

    /// Whether the guard has tripped since the last toggle.
    pub fn tripped(&self) -> (tripped: bool)
        ensures
            tripped == self.has_tripped(),
    {
        self.tripped
    }

    /// Sets the flags that the control plane shares with the tee.
    pub fn set_flags(&mut self, enabled: bool, tripped: bool)
        requires
            old(self).wf(),
        ensures
            final(self).wf(),
            final(self).armed() == enabled,
            final(self).has_tripped() == tripped,
            final(self).sent() == old(self).sent(),
            final(self).free() == old(self).free(),
            final(self).ring() == old(self).ring(),
            final(self).run() == old(self).run(),
    {
        self.enabled = enabled;
        self.tripped = tripped;
    }

    /// Feeds one processed block into the monitor ring when armed.
    ///
    /// Samples that find the ring full are discarded: the preview must never
    /// push back on the meeting-facing path. When the guard trips, the tee
    /// disarms itself and raises the tripped flag. While disarmed the ring is
    /// not touched at all. Returns whether the block was teed.
    pub fn feed(&mut self, block: &[u32]) -> (teed: bool)
        requires
            old(self).wf(),
        ensures
            final(self).wf(),
            teed == old(self).armed(),
            final(self).ring() == old(self).ring(),
            if !old(self).armed() {
                &&& final(self).sent() == old(self).sent()
                &&& final(self).free() == old(self).free()
                &&& final(self).run() == 0
                &&& !final(self).armed()
                &&& final(self).has_tripped() == old(self).has_tripped()
            } else {
                &&& exists|kept: Seq<bool>|
                    #[trigger] callback::pushed_from(
                        old(self).sent(),
                        final(self).sent(),
                        old(self).free(),
                        block@,
                        kept,
                    )
                &&& final(self).free() + block@.len() >= old(self).free()
                &&& final(self).run() == observed(old(self).run(), block@).0
                &&& final(self).armed() == !observed(old(self).run(), block@).1
                &&& final(self).has_tripped() == (old(self).has_tripped() || observed(
                    old(self).run(),
                    block@,
                ).1)
            },
    {
        if !self.enabled {
            self.howl.reset();
            return false;
        }
        push_each(&mut self.producer, block);
        let ghost kept = choose|kept: Seq<bool>| #[trigger]
            callback::pushed_from(old(self).sent(), self.sent(), old(self).free(), block@, kept);
        if self.howl.observe(block) {
            self.enabled = false;
            self.tripped = true;
        }
        assert(callback::pushed_from(
            old(self).sent(),
            self.sent(),
            old(self).free(),
            block@,
            kept,
        ));
        true
    }
}

/// What the control plane and the worker share about the preview.
#[derive(Debug, Clone, Copy, PartialEq, Eq, Structural)]
pub enum MonitorState {
    /// No preview.
    Off,
    /// The preview plays.
    Playing,
    /// The feedback guard has stopped it.
    Tripped,
}

/// One sample that is loud enough makes a block count, whatever its sign, and without
/// one no block counts.
pub proof fn law_one_loud_sample_howls(block: Seq<u32>)
    ensures
        howls(block) <==> exists|i: int|
            0 <= i < block.len() && HOWL_PEAK_THRESHOLD <= level::magnitude_of(
                #[trigger] block[i],
            ) <= level::INFINITE,
{
    level::law_peak_is_the_largest_magnitude(block);
    if howls(block) {
        let i = choose|i: int|
            0 <= i < block.len() && level::magnitude_of(#[trigger] block[i]) == level::peak_of(
                block,
            );
        assert(HOWL_PEAK_THRESHOLD <= level::magnitude_of(block[i]) <= level::INFINITE);
    }
}

/// After a trip the guard starts over: it trips again only after as many loud blocks
/// as the first time.
pub proof fn law_guard_starts_over(run: nat, block: Seq<u32>, more: Seq<Seq<u32>>)
    requires
        observed(run, block).1,
        0 < more.len() < HOWL_TRIP_BLOCKS,
    ensures
        observed(run, block).0 == 0,
        !observed_all(observed(run, block).0, more).1,
{
    law_guard_trips_at_the_trip_length(more);
}

/// The preview reaches no output that would carry it back: what is allowed is
/// neither virtual nor a loopback nor an aggregate nor the built-in speaker, and
/// everything else is allowed, also where nothing could be read.
pub proof fn law_preview_reaches_no_loopback(
    transport: u32,
    uid: Seq<char>,
    loopback: bool,
    data_source: Option<u32>,
)
    ensures
        verdict(transport, uid, loopback, data_source, Ok(())) <==> {
            &&& transport != TRANSPORT_TYPE_VIRTUAL
            &&& transport != TRANSPORT_TYPE_AGGREGATE
            &&& !loopback
            &&& !(transport == TRANSPORT_TYPE_BUILT_IN && data_source == Some(
                DATA_SOURCE_INTERNAL_SPEAKER,
            ))
        },
        verdict(0, uid, false, None, Ok(())),
        verdict(
            transport,
            uid,
            loopback,
            data_source,
            Err(CoreAudioError::MonitorSpeakerOutput),
        ) ==> transport == TRANSPORT_TYPE_BUILT_IN,
{
}

/// A UID that holds the name of the loopback driver anywhere, or that starts with the
/// product's own prefix once it is in lower case, names a loopback.
pub proof fn law_loopbacks_are_recognised(before: Seq<char>, after: Seq<char>, lowered: Seq<char>)
    ensures
        loopback_uid(before + "BlackHole"@ + after, lowered),
        loopback_uid(before, "com.lightsound.noican."@ + after),
{
    let uid = before + "BlackHole"@ + after;
    assert(text::stands_at(uid, before.len() as int, "BlackHole"@)) by {
        assert(uid.subrange(
            before.len() as int,
            before.len() as int + "BlackHole"@.len(),
        ) =~= "BlackHole"@);
    }
    let own = "com.lightsound.noican."@ + after;
    assert(own.subrange(0, "com.lightsound.noican."@.len() as int)
        =~= "com.lightsound.noican."@);
}

} // verus!
