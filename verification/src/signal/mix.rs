//! Dry/wet intensity with a latency-compensated dry path.
//!
//! The intensity control blends the processed signal (wet) with the raw input
//! (dry). The wet signal carries the stage's latency, so the dry signal is
//! delayed by the same amount before the two are summed; [`DryLine`] is that
//! delay.

use std::sync::atomic::{AtomicU32, Ordering};
use std::sync::Arc;

use vstd::prelude::*;

use crate::signal::level;
use crate::signal::level::{is_finite, magnitude, FULL_SCALE, SIGN_BIT};
use crate::signal::ring;
use crate::signal::ring::SILENCE;

verus! {

/// Capacity of the dry-compensation ring in samples at the engine rate,
/// about 1.37 s. Larger reported latencies are clamped to this bound.
pub const DRY_RING_CAPACITY: usize = 65536;

/// The control plane's hold on the dry/wet intensity: full scale is fully
/// processed output, zero the raw microphone.
///
/// What it publishes, every [`IntensityReader`] that was taken from it reads: the
/// two share one value, so moving the intensity rebuilds and locks nothing.
#[derive(Debug)]
pub struct IntensityControl {
    bits: u32,
    cell: Arc<AtomicU32>,
}

/// A reader of the intensity, for the inference thread. Clones read the same
/// value.
#[derive(Debug)]
pub struct IntensityReader {
    cell: Arc<AtomicU32>,
}

/// A finite intensity moved into the range from zero to full scale.
pub open spec fn clamped(intensity: u32) -> u32 {
    if intensity >= SIGN_BIT {
        if level::magnitude_of(intensity) == 0 {
            intensity
        } else {
            0
        }
    } else if intensity > FULL_SCALE {
        FULL_SCALE
    } else {
        intensity
    }
}

/// What publishing an intensity stores, if anything: values that are not finite
/// are ignored, so that the previous intensity stays.
pub open spec fn published(intensity: u32) -> Option<u32> {
    if level::finite(intensity) {
        Some(clamped(intensity))
    } else {
        None
    }
}

/// A finite intensity moved into the range from zero to full scale.
fn clamp(intensity: u32) -> (inside: u32)
    ensures
        inside == clamped(intensity),
{
    if intensity >= SIGN_BIT {
        if magnitude(intensity) == 0 {
            intensity
        } else {
            0
        }
    } else if intensity > FULL_SCALE {
        FULL_SCALE
    } else {
        intensity
    }
}

/// What publishing an intensity stores, if anything.
fn to_publish(intensity: u32) -> (stored: Option<u32>)
    ensures
        stored == published(intensity),
{
    if is_finite(intensity) {
        Some(clamp(intensity))
    } else {
        None
    }
}

impl View for IntensityControl {
    type V = u32;

    /// The intensity published last.
    closed spec fn view(&self) -> u32 {
        self.bits
    }
}

impl IntensityControl {
    /// The shared value.
    pub closed spec fn cell(&self) -> Arc<AtomicU32> {
        self.cell
    }

    /// Creates a control set to `initial`, clamped; a value that is not finite
    /// falls back to fully processed.
    pub fn new(initial: u32) -> (control: Self)
        ensures
            control@ == (match published(initial) {
                Some(intensity) => intensity,
                None => FULL_SCALE,
            }),
    {
        let bits: u32 = match to_publish(initial) {
            Some(intensity) => intensity,
            None => FULL_SCALE,
        };
        IntensityControl { bits, cell: Arc::new(AtomicU32::new(bits)) }
    }

    /// Publishes a new intensity, clamped, to every reader. Values that are not
    /// finite are ignored: the previous intensity stays.
    pub fn set(&mut self, intensity: u32)
        ensures
            final(self).cell() == old(self).cell(),
            final(self)@ == (match published(intensity) {
                Some(stored) => stored,
                None => old(self)@,
            }),
    {
        match to_publish(intensity) {
            Some(stored) => {
                self.bits = stored;
                self.cell.store(stored, Ordering::Relaxed);
            },
            None => {},
        }
    }

    /// The intensity published last.
    pub fn get(&self) -> (intensity: u32)
        ensures
            intensity == self@,
    {
        self.bits
    }

    /// A reader that shares this control's value.
    pub fn reader(&self) -> (reader: IntensityReader)
        ensures
            reader.follows(*self),
    {
        IntensityReader { cell: self.cell.clone() }
    }
}

impl Default for IntensityControl {
    /// Fully processed.
    fn default() -> (control: Self)
        ensures
            control@ == FULL_SCALE,
    {
        IntensityControl::new(FULL_SCALE)
    }
}

impl Clone for IntensityReader {
    /// Another reader of the same value.
    fn clone(&self) -> (reader: Self)
        ensures
            reader == *self,
    {
        IntensityReader { cell: self.cell.clone() }
    }
}

impl IntensityReader {
    /// Whether this reader reads what `control` publishes.
    pub closed spec fn follows(&self, control: IntensityControl) -> bool {
        self.cell == control.cell()
    }

    /// Reads the intensity. Which of the published ones it is depends on the
    /// control plane's thread; it is always in range.
    pub fn get(&self) -> (intensity: u32)
        ensures
            clamped(intensity) == intensity,
            level::magnitude_of(intensity) <= FULL_SCALE,
    {
        clamp(self.cell.load(Ordering::Relaxed))
    }
}

/// Whatever is published, the intensity lies between zero (of either sign)
/// and full scale, and reading it back gives what was published: a read changes
/// nothing. What is in range stays as it is, what is above becomes full scale, what
/// is below becomes zero, and nothing but a finite value is published.
pub proof fn law_intensity_stays_in_range(intensity: u32)
    ensures
        level::magnitude_of(clamped(intensity)) <= FULL_SCALE,
        clamped(intensity) >= SIGN_BIT ==> level::magnitude_of(clamped(intensity)) == 0,
        intensity <= FULL_SCALE ==> clamped(intensity) == intensity,
        clamped(clamped(intensity)) == clamped(intensity),
        published(intensity) matches Some(stored) ==> clamped(stored) == stored,
        FULL_SCALE < intensity < SIGN_BIT ==> clamped(intensity) == FULL_SCALE,
        intensity > SIGN_BIT ==> clamped(intensity) == 0,
        published(intensity) is Some <==> level::finite(intensity),
        intensity <= FULL_SCALE ==> published(intensity) == Some(intensity),
{
}

/// The last [`DRY_RING_CAPACITY`] dry samples.
#[derive(Debug)]
pub struct DryLine {
    ring: Vec<u32>,
    write: usize,
}

/// The ring index `age + 1` slots before `write`.
spec fn past_slot(write: int, age: int) -> int {
    if age < write {
        write - 1 - age
    } else {
        write - 1 - age + DRY_RING_CAPACITY
    }
}

/// The delay that is applied when a stage reports `delay` samples of latency.
pub open spec fn applied_delay(delay: usize) -> int {
    if delay >= DRY_RING_CAPACITY {
        DRY_RING_CAPACITY - 1
    } else {
        delay as int
    }
}

/// A block behind a history, delayed: the samples fed `delay` before each of
/// the block's.
pub open spec fn delayed_block(history: Seq<u32>, block: Seq<u32>, delay: int) -> Seq<u32> {
    (history + block).subrange(history.len() - delay, history.len() - delay + block.len())
}

/// The history once a block has been fed: the oldest samples are forgotten.
pub open spec fn history_after(history: Seq<u32>, block: Seq<u32>) -> Seq<u32> {
    (history + block).skip(block.len() as int)
}

impl DryLine {
    /// Whether the ring has its full size and the index lies inside it.
    pub closed spec fn wf(&self) -> bool {
        &&& self.ring@.len() == DRY_RING_CAPACITY
        &&& self.write < DRY_RING_CAPACITY
    }

    /// The sample fed `age` samples before the newest one.
    closed spec fn heard(&self, age: int) -> u32 {
        self.ring@[past_slot(self.write as int, age)]
    }

    /// The last [`DRY_RING_CAPACITY`] samples fed, oldest first; silence
    /// stands for what was never fed.
    pub closed spec fn history(&self) -> Seq<u32> {
        Seq::new(
            DRY_RING_CAPACITY as nat,
            |i: int| self.heard(DRY_RING_CAPACITY - 1 - i),
        )
    }

    /// Creates a line with a silent history.
    pub fn new() -> (line: Self)
        ensures
            line.wf(),
            line.history() == ring::silence(DRY_RING_CAPACITY as nat),
    {
        let line = DryLine { ring: vec![SILENCE; DRY_RING_CAPACITY], write: 0 };
        assert(line.history() =~= ring::silence(DRY_RING_CAPACITY as nat));
        line
    }

    /// Feeds one sample and returns the one fed `delay` samples earlier.
    fn step(&mut self, sample: u32, delay: usize) -> (delayed: u32)
        requires
            old(self).wf(),
            delay < DRY_RING_CAPACITY,
        ensures
            final(self).wf(),
            final(self).heard(0) == sample,
            forall|age: int|
                0 <= age < DRY_RING_CAPACITY - 1 ==> #[trigger] final(self).heard(age + 1)
                    == old(self).heard(age),
            delayed == final(self).heard(delay as int),
    {
        let at: usize = self.write;
        self.ring[at] = sample;
        let from: usize = if delay <= at {
            at - delay
        } else {
            at + DRY_RING_CAPACITY - delay
        };
        let delayed: u32 = self.ring[from];
        self.write = if at + 1 == DRY_RING_CAPACITY { 0 } else { at + 1 };
        proof {
            assert forall|age: int| 0 <= age < DRY_RING_CAPACITY - 1 implies #[trigger] self.heard(
                age + 1,
            ) == old(self).heard(age) by {
                assert(past_slot(self.write as int, age + 1) == past_slot(at as int, age));
                assert(past_slot(at as int, age) != at);
            }
        }
        delayed
    }

    /// Feeds a block and returns it delayed by the active stage's latency, so
    /// that dry and wet paths line up.
    pub fn delay_block(&mut self, dry: &[u32], dry_delay: usize) -> (delayed: Vec<u32>)
        requires
            old(self).wf(),
        ensures
            final(self).wf(),
            delayed@ == delayed_block(old(self).history(), dry@, applied_delay(dry_delay)),
            final(self).history() == history_after(old(self).history(), dry@),
    {
        let delay: usize = if dry_delay < DRY_RING_CAPACITY {
            dry_delay
        } else {
            DRY_RING_CAPACITY - 1
        };
        let mut delayed: Vec<u32> = Vec::with_capacity(dry.len());
        let mut i: usize = 0;
        while i < dry.len()
            invariant
                self.wf(),
                i <= dry@.len(),
                delay == applied_delay(dry_delay),
                0 <= delay < DRY_RING_CAPACITY,
                delayed@.len() == i,
                forall|k: int|
                    0 <= k < i ==> #[trigger] delayed@[k] == (if delay <= k {
                        dry@[k - delay]
                    } else {
                        old(self).heard(delay - k - 1)
                    }),
                forall|age: int|
                    0 <= age < DRY_RING_CAPACITY ==> #[trigger] self.heard(age) == (if age < i {
                        dry@[i - 1 - age]
                    } else {
                        old(self).heard(age - i)
                    }),
            decreases dry@.len() - i,
        {
            let ghost before = *self;
            let sample: u32 = self.step(dry[i], delay);
            proof {
                assert forall|age: int| 0 <= age < DRY_RING_CAPACITY implies #[trigger] self.heard(
                    age,
                ) == (if age < i + 1 {
                    dry@[i - age]
                } else {
                    old(self).heard(age - i - 1)
                }) by {
                    if age > 0 {
                        assert(self.heard((age - 1) + 1) == before.heard(age - 1));
                    }
                }
            }
            delayed.push(sample);
            i = i + 1;
        }
        assert(delayed@ =~= delayed_block(old(self).history(), dry@, applied_delay(dry_delay)));
        assert(self.history() =~= history_after(old(self).history(), dry@));
        delayed
    }
}

/// Feeding a stream in two blocks delays it exactly as feeding it in one.
pub proof fn law_block_sizes_do_not_matter(
    history: Seq<u32>,
    first: Seq<u32>,
    second: Seq<u32>,
    delay: int,
)
    requires
        history.len() == DRY_RING_CAPACITY,
        0 <= delay < DRY_RING_CAPACITY,
    ensures
        delayed_block(history, first + second, delay) == delayed_block(history, first, delay)
            + delayed_block(history_after(history, first), second, delay),
        history_after(history, first + second) == history_after(
            history_after(history, first),
            second,
        ),
{
    assert(delayed_block(history, first + second, delay) =~= delayed_block(history, first, delay)
        + delayed_block(history_after(history, first), second, delay));
    assert(history_after(history, first + second) =~= history_after(
        history_after(history, first),
        second,
    ));
}

/// A fresh line turns a stream into silence for the length of the delay, then
/// the stream itself.
pub proof fn law_fresh_line_delays_the_stream(stream: Seq<u32>, delay: int)
    requires
        0 <= delay < DRY_RING_CAPACITY,
    ensures
        delayed_block(ring::silence(DRY_RING_CAPACITY as nat), stream, delay) == (ring::silence(delay as nat)
            + stream).take(stream.len() as int),
{
    assert(delayed_block(ring::silence(DRY_RING_CAPACITY as nat), stream, delay) =~= (ring::silence(
        delay as nat,
    ) + stream).take(stream.len() as int));
}

/// The dry path lines up with a stage: behind a silent history it gives the stream
/// delayed by exactly the latency that the stage reports, as far as the line is long
/// enough, and by as much as the line holds where it is not.
pub proof fn law_dry_path_lines_up(stream: Seq<u32>, latency: usize)
    ensures
        ({
            let dry = delayed_block(
                ring::silence(DRY_RING_CAPACITY as nat),
                stream,
                applied_delay(latency),
            );
            &&& dry.len() == stream.len()
            &&& latency < DRY_RING_CAPACITY ==> dry == (ring::silence(latency as nat)
                + stream).take(stream.len() as int)
            &&& latency >= DRY_RING_CAPACITY ==> dry == (ring::silence(
                (DRY_RING_CAPACITY - 1) as nat,
            ) + stream).take(stream.len() as int)
        }),
{
    law_fresh_line_delays_the_stream(stream, applied_delay(latency));
}

/// The history is what was heard last, in its order.
pub proof fn law_history_is_what_was_heard_last(history: Seq<u32>, block: Seq<u32>)
    ensures
        history_after(history, block).len() == history.len(),
        block.len() <= history.len() ==> history_after(history, block) == history.skip(
            block.len() as int,
        ) + block,
        block.len() > history.len() ==> history_after(history, block) == block.skip(
            block.len() - history.len(),
        ),
{
    if block.len() <= history.len() {
        assert(history_after(history, block) =~= history.skip(block.len() as int) + block);
    } else {
        assert(history_after(history, block) =~= block.skip(block.len() - history.len()));
    }
}

} // verus!
