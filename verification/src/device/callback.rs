//! Buffer geometry of the real-time callbacks, and what they move.
//!
//! A callback never allocates, so the capture buffer is sized once at start
//! from [`MAX_CALLBACK_FRAMES`], and a callback asking for more frames than
//! that is refused rather than served from a fresh allocation.

use rtrb::{Consumer, Producer};
use vstd::prelude::*;
use vstd::slice::slice_subrange;

use crate::rings;
use crate::signal::ring::SILENCE;

verus! {

/// Largest callback a unit may deliver, in frames, and the length of each
/// preallocated capture landing buffer.
pub const MAX_CALLBACK_FRAMES: usize = 4096;

/// Status of a callback that did its work.
pub const NO_ERR: i32 = 0;

/// Status of a callback that was handed something it cannot use.
pub const PARAM_ERR: i32 = -50;

/// Byte size of a mono capture landing buffer holding `frames`, or `None` when
/// `frames` exceeds `capacity`: the callback must then fault instead of
/// rendering past the buffer.
pub fn capture_byte_size(frames: usize, capacity: usize) -> (bytes: Option<u32>)
    ensures
        bytes == (if frames > capacity || 4 * frames > u32::MAX {
            None
        } else {
            Some((4 * frames) as u32)
        }),
{
    if frames > capacity || frames as u64 > (u32::MAX / 4) as u64 {
        return None;
    }
    Some((frames * 4) as u32)
}

/// How much of a render buffer a callback may write: the interleaved channel
/// count and the number of whole frames that fit.
#[derive(Debug, Clone, Copy, PartialEq, Eq, Structural)]
pub struct RenderGeometry {
    /// Interleaved channels per frame (at least 1).
    pub channels: usize,
    /// Whole frames the callback writes: the frames requested, capped by what
    /// the buffer can hold.
    pub frames: usize,
}

impl RenderGeometry {
    /// Total samples the callback writes.
    pub fn samples(self) -> (samples: usize)
        requires
            self.frames * self.channels <= usize::MAX,
        ensures
            samples == self.frames * self.channels,
    {
        self.frames * self.channels
    }
}

/// Bounds a render request to the buffer that was handed over.
///
/// `frame_count` frames of `number_channels` interleaved channels, never more
/// than `data_byte_size` bytes. A zero channel count is treated as mono so a
/// malformed buffer still yields silence.
pub fn render_geometry(data_byte_size: u32, number_channels: u32, frame_count: u32) -> (geometry:
    RenderGeometry)
    ensures
        geometry.channels == (if number_channels == 0 {
            1
        } else {
            number_channels as int
        }),
        ({
            let fit = (data_byte_size as int / 4) / (geometry.channels as int);
            geometry.frames == (if frame_count <= fit {
                frame_count as int
            } else {
                fit
            })
        }),
        geometry.frames * geometry.channels * 4 <= data_byte_size,
        geometry.frames <= frame_count,
        geometry.frames == frame_count || (geometry.frames + 1) * geometry.channels * 4
            > data_byte_size,
{
    let available: usize = (data_byte_size / 4) as usize;
    let channels: usize = if number_channels == 0 { 1 } else { number_channels as usize };
    let fit: usize = available / channels;
    let requested: usize = frame_count as usize;
    let frames: usize = if requested < fit { requested } else { fit };
    proof {
        let n = available as int;
        let c = channels as int;
        vstd::arithmetic::div_mod::lemma_fundamental_div_mod(n, c);
        assert(frames * c <= n) by (nonlinear_arith)
            requires
                frames <= n / c,
                n == c * (n / c) + n % c,
                n % c >= 0,
                c > 0,
        ;
        vstd::arithmetic::div_mod::lemma_mod_bound(n, c);
        assert((n / c + 1) * c > n) by (nonlinear_arith)
            requires
                n == c * (n / c) + n % c,
                n % c < c,
        ;
    }
    RenderGeometry { channels, frames }
}

/// The sample a frame gets: what was popped, or silence.
pub open spec fn or_silence(popped: Option<u32>) -> u32 {
    match popped {
        Some(sample) => sample,
        None => SILENCE,
    }
}

/// The samples that were popped, in order.
pub open spec fn popped_samples(values: Seq<Option<u32>>) -> Seq<u32>
    decreases values.len(),
{
    if values.len() == 0 {
        Seq::empty()
    } else {
        match values.last() {
            Some(sample) => popped_samples(values.drop_last()).push(sample),
            None => popped_samples(values.drop_last()),
        }
    }
}

/// Whether an interleaved buffer holds each frame's sample in every channel.
pub open spec fn duplicated(
    samples: Seq<u32>,
    values: Seq<Option<u32>>,
    channels: int,
    frames: int,
) -> bool {
    &&& values.len() == frames
    &&& forall|f: int, c: int|
        0 <= f < frames && 0 <= c < channels ==> #[trigger] samples[f * channels + c]
            == or_silence(values[f])
}

/// Writes one sample into every channel of frame `index`.
fn write_frame(samples: &mut [u32], index: usize, channels: usize, value: u32)
    requires
        channels > 0,
        (index + 1) * channels <= old(samples)@.len(),
    ensures
        final(samples)@.len() == old(samples)@.len(),
        forall|k: int|
            0 <= k < old(samples)@.len() ==> #[trigger] final(samples)@[k] == (if index * channels
                <= k < (index + 1) * channels {
                value
            } else {
                old(samples)@[k]
            }),
{
    proof {
        assert((index + 1) * channels == index * channels + channels) by (nonlinear_arith);
        assert(index * channels >= 0) by (nonlinear_arith);
    }
    let total: usize = samples.len();
    let start: usize = index * channels;
    let mut c: usize = 0;
    while c < channels
        invariant
            c <= channels,
            start == index * channels,
            start + channels <= total,
            samples@.len() == total,
            samples@.len() == old(samples)@.len(),
            forall|k: int|
                0 <= k < samples@.len() ==> #[trigger] samples@[k] == (if start <= k < start + c {
                    value
                } else {
                    old(samples)@[k]
                }),
        decreases channels - c,
    {
        samples[start + c] = value;
        c = c + 1;
    }
}

/// An index names one frame and one channel.
proof fn lemma_frame_of_index(f: int, c: int, g: int, channels: int)
    requires
        0 <= c < channels,
        g * channels <= f * channels + c < (g + 1) * channels,
    ensures
        f == g,
{
    assert(f == g) by (nonlinear_arith)
        requires
            0 <= c < channels,
            g * channels <= f * channels + c < (g + 1) * channels,
    ;
}

/// Fills a render buffer from a ring: each frame gets the next sample in every
/// channel, or silence when the ring is empty at that moment, which depends on
/// the producer.
pub fn render_from_ring(output: &mut Consumer<u32>, samples: &mut [u32], geometry: RenderGeometry)
    -> (popped_any: bool)
    requires
        geometry.channels > 0,
        geometry.frames * geometry.channels == old(samples)@.len(),
    ensures
        final(samples)@.len() == old(samples)@.len(),
        rings::read_ring(*final(output)) == rings::read_ring(*old(output)),
        rings::stocked(*final(output)) + geometry.frames >= rings::stocked(*old(output)),
        exists|values: Seq<Option<u32>>|
            #[trigger] rendered_from(
                rings::received(*old(output)),
                rings::received(*final(output)),
                rings::stocked(*old(output)),
                final(samples)@,
                values,
                geometry,
                popped_any,
            ),
{
    let channels: usize = geometry.channels;
    let mut popped_any: bool = false;
    let mut frame: usize = 0;
    let ghost mut values = Seq::<Option<u32>>::empty();
    let ghost first = rings::received(*output);
    let ghost known = rings::stocked(*output);
    assert(first + popped_samples(values) =~= first);
    while frame < geometry.frames
        invariant
            frame <= geometry.frames,
            channels == geometry.channels,
            channels > 0,
            geometry.frames * channels <= samples@.len(),
            samples@.len() == old(samples)@.len(),
            rings::received(*output) == first + popped_samples(values),
            duplicated(samples@, values, channels as int, frame as int),
            popped_any == (popped_samples(values).len() > 0),
            rings::stocked(*output) + frame >= known,
            rings::read_ring(*output) == rings::read_ring(*old(output)),
            forall|i: int| 0 <= i < frame && i < known ==> (#[trigger] values[i]) is Some,
        decreases geometry.frames - frame,
    {
        proof {
            assert((frame + 1) * channels <= geometry.frames * channels) by (nonlinear_arith)
                requires
                    frame + 1 <= geometry.frames,
                    channels > 0,
            ;
        }
        let ghost before = samples@;
        let ghost held = values;
        let popped: Option<u32> = rings::pop_sample(output);
        let value: u32 = match popped {
            Some(sample) => {
                popped_any = true;
                sample
            },
            None => SILENCE,
        };
        write_frame(samples, frame, channels, value);
        proof {
            values = held.push(popped);
            assert(values.drop_last() =~= held);
            assert(rings::received(*output) =~= first + popped_samples(values));
            assert forall|f: int, c: int|
                0 <= f < frame + 1 && 0 <= c < channels implies #[trigger] samples@[f * channels
                + c] == or_silence(values[f]) by {
                lemma_index_in_frame(f, c, channels as int, geometry.frames as int);
                if f < frame {
                    if frame * channels <= f * channels + c < (frame + 1) * channels {
                        lemma_frame_of_index(f, c, frame as int, channels as int);
                    }
                    assert(before[f * channels + c] == or_silence(held[f]));
                }
            }
        }
        frame = frame + 1;
    }
    assert(rendered_from(
        first,
        rings::received(*output),
        known,
        samples@,
        values,
        geometry,
        popped_any,
    ));
    popped_any
}

/// The index of a frame's channel lies inside that frame, and inside the
/// buffer of all frames.
proof fn lemma_index_in_frame(f: int, c: int, channels: int, frames: int)
    requires
        0 <= f < frames,
        0 <= c < channels,
    ensures
        f * channels <= f * channels + c < (f + 1) * channels,
        0 <= f * channels + c < frames * channels,
{
    assert(f * channels <= f * channels + c < (f + 1) * channels) by (nonlinear_arith)
        requires
            0 <= c < channels,
    ;
    assert(0 <= f * channels + c < frames * channels) by (nonlinear_arith)
        requires
            0 <= f < frames,
            0 <= c < channels,
    ;
}

/// What a render buffer holds and what was taken from the ring for it, given
/// what was popped for each frame. As many frames as samples were known to be
/// there get one.
pub open spec fn rendered_from(
    before: Seq<u32>,
    after: Seq<u32>,
    known: nat,
    samples: Seq<u32>,
    values: Seq<Option<u32>>,
    geometry: RenderGeometry,
    popped_any: bool,
) -> bool {
    &&& duplicated(samples, values, geometry.channels as int, geometry.frames as int)
    &&& after == before + popped_samples(values)
    &&& popped_any == (popped_samples(values).len() > 0)
    &&& forall|i: int| 0 <= i < values.len() && i < known ==> (#[trigger] values[i]) is Some
}

/// The samples that a ring accepted, in order.
pub open spec fn selected(block: Seq<u32>, kept: Seq<bool>) -> Seq<u32>
    decreases block.len(),
{
    if block.len() == 0 {
        Seq::empty()
    } else if kept.last() {
        selected(block.drop_last(), kept.drop_last()).push(block.last())
    } else {
        selected(block.drop_last(), kept.drop_last())
    }
}

/// Whether a ring got samples of a block in their order, and all of them if
/// the slots known to be free suffice.
pub open spec fn pushed_from(
    before: Seq<u32>,
    after: Seq<u32>,
    known: nat,
    block: Seq<u32>,
    kept: Seq<bool>,
) -> bool {
    &&& kept.len() == block.len()
    &&& after == before + selected(block, kept)
    &&& forall|i: int| 0 <= i < block.len() && i < known ==> #[trigger] kept[i]
}

/// A block that fits is handed over whole.
pub proof fn law_room_means_no_loss(
    before: Seq<u32>,
    after: Seq<u32>,
    known: nat,
    block: Seq<u32>,
    kept: Seq<bool>,
)
    requires
        pushed_from(before, after, known, block, kept),
        known >= block.len(),
    ensures
        after == before + block,
{
    lemma_all_selected(block, kept);
}

/// Room lasts: where the slots known to be free suffice for two blocks, both are
/// handed over whole, one after the other.
pub proof fn law_room_lasts(
    before: Seq<u32>,
    between: Seq<u32>,
    after: Seq<u32>,
    known: nat,
    left: nat,
    first: Seq<u32>,
    second: Seq<u32>,
    kept_first: Seq<bool>,
    kept_second: Seq<bool>,
)
    requires
        pushed_from(before, between, known, first, kept_first),
        left + first.len() >= known,
        pushed_from(between, after, left, second, kept_second),
        known >= first.len() + second.len(),
    ensures
        after == before + first + second,
{
    law_room_means_no_loss(before, between, known, first, kept_first);
    law_room_means_no_loss(between, after, left, second, kept_second);
}

proof fn lemma_all_selected(block: Seq<u32>, kept: Seq<bool>)
    requires
        kept.len() == block.len(),
        forall|i: int| 0 <= i < block.len() ==> #[trigger] kept[i],
    ensures
        selected(block, kept) == block,
    decreases block.len(),
{
    if block.len() > 0 {
        assert(kept[kept.len() - 1]);
        assert forall|i: int| 0 <= i < block.drop_last().len() implies #[trigger]
            kept.drop_last()[i] by {
            assert(kept[i]);
        }
        lemma_all_selected(block.drop_last(), kept.drop_last());
        assert(selected(block, kept) =~= block);
    } else {
        assert(selected(block, kept) =~= block);
    }
}

/// Pushes every sample of a block on its own; the ones that find the ring full
/// are dropped, which depends on the consumer.
pub fn push_each(ring: &mut Producer<u32>, block: &[u32])
    ensures
        exists|kept: Seq<bool>|
            #[trigger] pushed_from(
                rings::sent(*old(ring)),
                rings::sent(*final(ring)),
                rings::free(*old(ring)),
                block@,
                kept,
            ),
        rings::ring_size(*final(ring)) == rings::ring_size(*old(ring)),
        rings::written_ring(*final(ring)) == rings::written_ring(*old(ring)),
        rings::free(*final(ring)) + block@.len() >= rings::free(*old(ring)),
{
    let mut i: usize = 0;
    let ghost mut kept = Seq::<bool>::empty();
    let ghost first = rings::sent(*ring);
    let ghost known = rings::free(*ring);
    assert(first + selected(block@.take(0), kept) =~= first);
    while i < block.len()
        invariant
            i <= block@.len(),
            kept.len() == i,
            rings::sent(*ring) == first + selected(block@.take(i as int), kept),
            rings::free(*ring) + i >= known,
            rings::ring_size(*ring) == rings::ring_size(*old(ring)),
            rings::written_ring(*ring) == rings::written_ring(*old(ring)),
            forall|k: int| 0 <= k < i && k < known ==> #[trigger] kept[k],
        decreases block@.len() - i,
    {
        let pushed: bool = rings::push_sample(ring, block[i]);
        proof {
            let held = kept;
            kept = held.push(pushed);
            assert(kept.drop_last() =~= held);
            assert(block@.take(i + 1).drop_last() =~= block@.take(i as int));
            assert(rings::sent(*ring) =~= first + selected(block@.take(i + 1), kept));
        }
        i = i + 1;
    }
    assert(block@.take(i as int) =~= block@);
    assert(pushed_from(first, rings::sent(*ring), known, block@, kept));
}

/// What an aggregate callback keeps between cycles.
#[derive(Debug, Clone, Copy, PartialEq, Eq, Structural)]
pub struct CallbackCounters {
    /// Whether a callback or a render has failed.
    pub faulted: bool,
    /// Input frames delivered since start; the heartbeat.
    pub frames: u64,
    /// Callbacks that found the output ring dry after it had played.
    pub underruns: u64,
    /// Whether an output sample has ever been popped.
    pub output_primed: bool,
}

/// A counter that has advanced, starting over at its limit.
pub open spec fn advanced(count: u64, by: int) -> u64 {
    if count + by > u64::MAX {
        (count + by - u64::MAX - 1) as u64
    } else {
        (count + by) as u64
    }
}

/// The counters after a cycle that rendered.
pub open spec fn cycle_counted(
    counters: CallbackCounters,
    frame_count: u32,
    popped_any: bool,
) -> CallbackCounters {
    CallbackCounters {
        frames: advanced(counters.frames, frame_count as int),
        output_primed: counters.output_primed || popped_any,
        underruns: if !popped_any && counters.output_primed {
            advanced(counters.underruns, 1)
        } else {
            counters.underruns
        },
        ..counters
    }
}

/// Counts a cycle that rendered. A dry cycle is an underrun only once the
/// stream has played; the ramp-up before that is start-up latency.
pub fn count_cycle(counters: CallbackCounters, frame_count: u32, popped_any: bool) -> (after:
    CallbackCounters)
    ensures
        after == cycle_counted(counters, frame_count, popped_any),
{
    let frames: u64 = advance(counters.frames, frame_count as u64);
    let underruns: u64 = if !popped_any && counters.output_primed {
        advance(counters.underruns, 1)
    } else {
        counters.underruns
    };
    CallbackCounters {
        frames,
        underruns,
        output_primed: counters.output_primed || popped_any,
        faulted: counters.faulted,
    }
}

/// Advances a counter, starting over at its limit.
fn advance(count: u64, by: u64) -> (after: u64)
    requires
        by <= u32::MAX,
    ensures
        after == advanced(count, by as int),
{
    match count.checked_add(by) {
        Some(sum) => sum,
        None => by - (u64::MAX - count) - 1,
    }
}

/// Context of the aggregate unit's render callback.
pub struct CallbackContext {
    input: Producer<u32>,
    output: Consumer<u32>,
    counters: CallbackCounters,
}

impl CallbackContext {
    /// The counters.
    pub closed spec fn counted(&self) -> CallbackCounters {
        self.counters
    }

    /// Every captured sample handed on so far.
    pub closed spec fn sent(&self) -> Seq<u32> {
        rings::sent(self.input)
    }

    /// Free slots of the capture ring that are known of.
    pub closed spec fn free(&self) -> nat {
        rings::free(self.input)
    }

    /// Every engine sample taken so far.
    pub closed spec fn received(&self) -> Seq<u32> {
        rings::received(self.output)
    }

    /// Engine samples that are known of.
    pub closed spec fn stocked(&self) -> nat {
        rings::stocked(self.output)
    }

    /// The ring that captured samples go to, and the one that is played.
    pub closed spec fn rings(&self) -> (int, int) {
        (rings::written_ring(self.input), rings::read_ring(self.output))
    }

    /// Creates a context around its ring ends.
    pub fn new(input: Producer<u32>, output: Consumer<u32>) -> (context: Self)
        ensures
            context.sent() == rings::sent(input),
            context.free() == rings::free(input),
            context.received() == rings::received(output),
            context.stocked() == rings::stocked(output),
            context.rings() == (rings::written_ring(input), rings::read_ring(output)),
            context.counted() == (CallbackCounters {
                faulted: false,
                frames: 0,
                underruns: 0,
                output_primed: false,
            }),
    {
        CallbackContext {
            input,
            output,
            counters: CallbackCounters {
                faulted: false,
                frames: 0,
                underruns: 0,
                output_primed: false,
            },
        }
    }

    /// The counters.
    pub fn counters(&self) -> (counters: CallbackCounters)
        ensures
            counters == self.counted(),
    {
        self.counters
    }

    /// Vets what the unit handed over and sizes the capture request: there
    /// must be a buffer with data, and the frames must fit the landing buffer.
    /// A refusal flags the fault.
    pub fn begin_cycle(
        &mut self,
        number_buffers: u32,
        has_data: bool,
        frame_count: u32,
        capacity: usize,
    ) -> (request: Result<u32, i32>)
        ensures
            request == (if number_buffers == 0 || !has_data || frame_count > capacity || 4
                * frame_count > u32::MAX {
                Err::<u32, i32>(PARAM_ERR)
            } else {
                Ok((4 * frame_count) as u32)
            }),
            final(self).counted() == (CallbackCounters {
                faulted: old(self).counted().faulted || request is Err,
                ..old(self).counted()
            }),
            final(self).sent() == old(self).sent(),
            final(self).free() == old(self).free(),
            final(self).received() == old(self).received(),
            final(self).stocked() == old(self).stocked(),
            final(self).rings() == old(self).rings(),
    {
        if number_buffers == 0 || !has_data {
            self.counters.faulted = true;
            return Err(PARAM_ERR);
        }
        match capture_byte_size(frame_count as usize, capacity) {
            Some(bytes) => Ok(bytes),
            None => {
                self.counters.faulted = true;
                Err(PARAM_ERR)
            },
        }
    }

    /// Zeroes the underrun count.
    pub fn reset_underruns(&mut self)
        ensures
            final(self).counted() == (CallbackCounters { underruns: 0, ..old(self).counted() }),
            final(self).sent() == old(self).sent(),
            final(self).free() == old(self).free(),
            final(self).received() == old(self).received(),
            final(self).stocked() == old(self).stocked(),
            final(self).rings() == old(self).rings(),
    {
        self.counters.underruns = 0;
    }

    /// Serves one cycle of the unit: hands the captured frames on and fills
    /// the render buffer. A failed capture renders silence and flags the
    /// fault. How full the rings are depends on the inference thread.
    pub fn render(
        &mut self,
        capture_ok: bool,
        capture: &[u32],
        samples: &mut [u32],
        geometry: RenderGeometry,
        frame_count: u32,
    ) -> (status: i32)
        requires
            frame_count <= capture@.len(),
            geometry.channels > 0,
            geometry.frames * geometry.channels == old(samples)@.len(),
        ensures
            status == NO_ERR,
            final(self).rings() == old(self).rings(),
            final(samples)@.len() == old(samples)@.len(),
            if !capture_ok {
                &&& forall|k: int|
                    0 <= k < final(samples)@.len() ==> #[trigger] final(samples)@[k] == SILENCE
                &&& final(self).counted() == (CallbackCounters {
                    faulted: true,
                    ..old(self).counted()
                })
                &&& final(self).sent() == old(self).sent()
                &&& final(self).free() == old(self).free()
                &&& final(self).received() == old(self).received()
                &&& final(self).stocked() == old(self).stocked()
            } else {
                &&& final(self).free() + frame_count >= old(self).free()
                &&& final(self).stocked() + geometry.frames >= old(self).stocked()
                &&& exists|kept: Seq<bool>|
                    #[trigger] pushed_from(
                        old(self).sent(),
                        final(self).sent(),
                        old(self).free(),
                        capture@.take(frame_count as int),
                        kept,
                    )
                &&& exists|values: Seq<Option<u32>>, popped_any: bool| #[trigger]
                    rendered_from(
                        old(self).received(),
                        final(self).received(),
                        old(self).stocked(),
                        final(samples)@,
                        values,
                        geometry,
                        popped_any,
                    ) && final(self).counted() == cycle_counted(
                        old(self).counted(),
                        frame_count,
                        popped_any,
                    )
            },
    {
        if !capture_ok {
            crate::signal::stage::fill_silence(samples, 0);
            self.counters.faulted = true;
            return NO_ERR;
        }
        push_each(&mut self.input, slice_subrange(capture, 0, frame_count as usize));
        let ghost kept = choose|kept: Seq<bool>| #[trigger]
            pushed_from(
                old(self).sent(),
                self.sent(),
                old(self).free(),
                capture@.take(frame_count as int),
                kept,
            );
        let popped_any: bool = render_from_ring(&mut self.output, samples, geometry);
        let ghost values = choose|values: Seq<Option<u32>>| #[trigger]
            rendered_from(
                old(self).received(),
                self.received(),
                old(self).stocked(),
                samples@,
                values,
                geometry,
                popped_any,
            );
        self.counters = count_cycle(self.counters, frame_count, popped_any);
        assert(pushed_from(
            old(self).sent(),
            self.sent(),
            old(self).free(),
            capture@.take(frame_count as int),
            kept,
        ));
        assert(rendered_from(
            old(self).received(),
            self.received(),
            old(self).stocked(),
            samples@,
            values,
            geometry,
            popped_any,
        ));
        NO_ERR
    }
}

/// Whether an output-only callback was handed a buffer it can fill.
pub fn vet_render_buffer(number_buffers: u32, has_data: bool) -> (status: i32)
    ensures
        status == (if number_buffers == 0 || !has_data {
            PARAM_ERR
        } else {
            NO_ERR
        }),
{
    if number_buffers == 0 || !has_data {
        PARAM_ERR
    } else {
        NO_ERR
    }
}

/// Context of the input-only unit that captures at a microphone's own rate.
pub struct CaptureContext {
    input: Producer<u32>,
    faulted: bool,
    frames: u64,
}

impl CaptureContext {
    /// Every captured sample handed on so far.
    pub closed spec fn sent(&self) -> Seq<u32> {
        rings::sent(self.input)
    }

    /// Free slots of the capture ring that are known of.
    pub closed spec fn free(&self) -> nat {
        rings::free(self.input)
    }

    /// Which ring captured samples go to.
    pub closed spec fn ring(&self) -> int {
        rings::written_ring(self.input)
    }

    /// Whether a capture has failed.
    pub closed spec fn failed(&self) -> bool {
        self.faulted
    }

    /// Frames delivered since start.
    pub closed spec fn delivered(&self) -> u64 {
        self.frames
    }

    /// Creates a context around the writing end of the capture ring.
    pub fn new(input: Producer<u32>) -> (context: Self)
        ensures
            context.sent() == rings::sent(input),
            context.free() == rings::free(input),
            context.ring() == rings::written_ring(input),
            !context.failed(),
            context.delivered() == 0,
    {
        CaptureContext { input, faulted: false, frames: 0 }
    }

    /// Whether a capture has failed.
    pub fn faulted(&self) -> (faulted: bool)
        ensures
            faulted == self.failed(),
    {
        self.faulted
    }

    /// Frames delivered since start; the heartbeat.
    pub fn frames(&self) -> (frames: u64)
        ensures
            frames == self.delivered(),
    {
        self.frames
    }

    /// Sizes the capture request. No frames need none; more frames than the
    /// landing buffer holds are refused and flag the fault.
    pub fn begin_cycle(&mut self, frame_count: u32, capacity: usize) -> (request: Result<
        Option<u32>,
        i32,
    >)
        ensures
            request == (if frame_count == 0 {
                Ok::<Option<u32>, i32>(None)
            } else if frame_count > capacity {
                Err(PARAM_ERR)
            } else if 4 * frame_count > u32::MAX {
                Ok(Some(0u32))
            } else {
                Ok(Some((4 * frame_count) as u32))
            }),
            final(self).ring() == old(self).ring(),
            final(self).failed() == (old(self).failed() || request is Err),
            final(self).delivered() == old(self).delivered(),
            final(self).sent() == old(self).sent(),
            final(self).free() == old(self).free(),
    {
        if frame_count == 0 {
            return Ok(None);
        }
        if frame_count as usize > capacity {
            self.faulted = true;
            return Err(PARAM_ERR);
        }
        match frame_count.checked_mul(4) {
            Some(bytes) => Ok(Some(bytes)),
            None => Ok(Some(0)),
        }
    }

    /// Hands the captured frames on. A failed capture flags the fault.
    pub fn capture(&mut self, capture_ok: bool, buffer: &[u32], frame_count: u32) -> (status: i32)
        requires
            frame_count <= buffer@.len(),
        ensures
            status == NO_ERR,
            final(self).ring() == old(self).ring(),
            final(self).failed() == (old(self).failed() || !capture_ok),
            if !capture_ok {
                &&& final(self).sent() == old(self).sent()
                &&& final(self).free() == old(self).free()
                &&& final(self).delivered() == old(self).delivered()
            } else {
                &&& final(self).free() + frame_count >= old(self).free()
                &&& final(self).delivered() == advanced(
                    old(self).delivered(),
                    frame_count as int,
                )
                &&& exists|kept: Seq<bool>|
                    #[trigger] pushed_from(
                        old(self).sent(),
                        final(self).sent(),
                        old(self).free(),
                        buffer@.take(frame_count as int),
                        kept,
                    )
            },
    {
        if !capture_ok {
            self.faulted = true;
            return NO_ERR;
        }
        push_each(&mut self.input, slice_subrange(buffer, 0, frame_count as usize));
        let ghost kept = choose|kept: Seq<bool>| #[trigger]
            pushed_from(
                old(self).sent(),
                self.sent(),
                old(self).free(),
                buffer@.take(frame_count as int),
                kept,
            );
        self.frames = advance(self.frames, frame_count as u64);
        assert(pushed_from(
            old(self).sent(),
            self.sent(),
            old(self).free(),
            buffer@.take(frame_count as int),
            kept,
        ));
        NO_ERR
    }
}

/// Context of the output-only monitor unit.
pub struct MonitorContext {
    output: Consumer<u32>,
    primed: bool,
}

/// Samples the monitor ring must hold before playback (re)starts after an
/// underrun: 40 ms at 48 kHz.
pub const MONITOR_PRIME_SAMPLES: usize = 1920;

/// What a monitor cycle played, given what was popped for each frame and
/// whether playback was on. The first frame that finds the ring dry switches
/// playback off, and the frames after it do not look.
pub open spec fn monitor_played(
    on: bool,
    values: Seq<Option<u32>>,
    still_on: bool,
) -> bool {
    &&& still_on == (on && forall|i: int| 0 <= i < values.len() ==> (#[trigger] values[i]) is Some)
    &&& !on ==> forall|i: int| 0 <= i < values.len() ==> (#[trigger] values[i]) is None
    &&& forall|i: int, j: int|
        0 <= i <= j < values.len() && (#[trigger] values[i]) is None ==> (#[trigger] values[j])
            is None
}

/// What one cycle of the monitor leads to, given what was popped for each frame
/// and whether playback was on. Playback that is on, or starts, takes a sample for
/// every frame while one is known to be there. It starts exactly when the look
/// before the cycle finds the whole stock: after a start the samples played and
/// those still known of make up the stock at least, and without one fewer are
/// there.
pub open spec fn monitor_cycle(
    before: MonitorContext,
    after: MonitorContext,
    samples: Seq<u32>,
    geometry: RenderGeometry,
    values: Seq<Option<u32>>,
    on: bool,
) -> bool {
    let played = popped_samples(values);
    &&& monitor_played(on, values, after.on())
    &&& duplicated(samples, values, geometry.channels as int, geometry.frames as int)
    &&& after.received() == before.received() + played
    &&& played.len() + after.stocked() >= before.stocked()
    &&& before.on() || before.stocked() >= MONITOR_PRIME_SAMPLES ==> on
    &&& on ==> forall|i: int|
        0 <= i < values.len() && i < before.stocked() ==> (#[trigger] values[i]) is Some
    &&& on && !before.on() ==> played.len() + after.stocked() >= MONITOR_PRIME_SAMPLES
    &&& on && !before.on() ==> forall|i: int|
        0 <= i < values.len() && i < MONITOR_PRIME_SAMPLES ==> (#[trigger] values[i]) is Some
    &&& !on ==> after.stocked() < MONITOR_PRIME_SAMPLES
    &&& on && !after.on() ==> after.stocked() == 0
}

impl MonitorContext {
    /// Every sample played so far.
    pub closed spec fn received(&self) -> Seq<u32> {
        rings::received(self.output)
    }

    /// Samples in the monitor ring that are known of.
    pub closed spec fn stocked(&self) -> nat {
        rings::stocked(self.output)
    }

    /// Which ring is played.
    pub closed spec fn ring(&self) -> int {
        rings::read_ring(self.output)
    }

    /// Whether playback is on.
    pub closed spec fn on(&self) -> bool {
        self.primed
    }

    /// Creates a context that has yet to collect its first samples.
    pub fn new(output: Consumer<u32>) -> (context: Self)
        ensures
            context.received() == rings::received(output),
            context.stocked() == rings::stocked(output),
            context.ring() == rings::read_ring(output),
            !context.on(),
    {
        MonitorContext { output, primed: false }
    }

    /// Whether playback is on.
    pub fn primed(&self) -> (primed: bool)
        ensures
            primed == self.on(),
    {
        self.primed
    }

    /// Gives the ring end back.
    pub fn into_output(self) -> (output: Consumer<u32>)
        ensures
            rings::received(output) == self.received(),
            rings::stocked(output) == self.stocked(),
            rings::read_ring(output) == self.ring(),
    {
        self.output
    }

    /// Plays one cycle: each frame gets the next sample in every channel.
    /// Playback waits for a stock of samples at first and after each underrun,
    /// so that scattered underruns become one bounded gap.
    pub fn render(&mut self, samples: &mut [u32], geometry: RenderGeometry)
        requires
            geometry.channels > 0,
            geometry.frames * geometry.channels == old(samples)@.len(),
        ensures
            final(samples)@.len() == old(samples)@.len(),
            final(self).ring() == old(self).ring(),
            exists|values: Seq<Option<u32>>, on: bool| #[trigger]
                monitor_cycle(*old(self), *final(self), final(samples)@, geometry, values, on),
    {
        if !self.primed && rings::stocked_slots(&mut self.output) >= MONITOR_PRIME_SAMPLES {
            self.primed = true;
        }
        let ghost on = self.primed;
        let channels: usize = geometry.channels;
        let mut frame: usize = 0;
        let ghost mut values = Seq::<Option<u32>>::empty();
        let ghost first = old(self).received();
        let ghost known = rings::stocked(self.output);
        assert(first + popped_samples(values) =~= first);
        while frame < geometry.frames
            invariant
                frame <= geometry.frames,
                channels == geometry.channels,
                channels > 0,
                geometry.frames * channels <= samples@.len(),
                samples@.len() == old(samples)@.len(),
                rings::received(self.output) == first + popped_samples(values),
                duplicated(samples@, values, channels as int, frame as int),
                monitor_played(on, values, self.primed),
                self.primed ==> rings::stocked(self.output) + frame >= known,
                popped_samples(values).len() + rings::stocked(self.output) >= known,
                on && !self.primed ==> rings::stocked(self.output) == 0,
                !on ==> rings::stocked(self.output) == known,
                rings::read_ring(self.output) == old(self).ring(),
                on ==> forall|i: int|
                    0 <= i < frame && i < known ==> (#[trigger] values[i]) is Some,
            decreases geometry.frames - frame,
        {
            proof {
                assert((frame + 1) * channels <= geometry.frames * channels) by (nonlinear_arith)
                    requires
                        frame + 1 <= geometry.frames,
                        channels > 0,
                ;
            }
            let ghost before = samples@;
            let ghost held = values;
            let ghost playing = self.primed;
            let popped: Option<u32> = if self.primed {
                rings::pop_sample(&mut self.output)
            } else {
                None
            };
            let value: u32 = match popped {
                Some(sample) => sample,
                None => {
                    self.primed = false;
                    SILENCE
                },
            };
            write_frame(samples, frame, channels, value);
            proof {
                values = held.push(popped);
                assert(values.drop_last() =~= held);
                assert(rings::received(self.output) =~= first + popped_samples(values));
                assert(values[frame as int] == popped);
                assert(forall|i: int| 0 <= i < frame ==> values[i] == held[i]);
                if on && !playing {
                    let i = choose|i: int| 0 <= i < held.len() && (#[trigger] held[i]) is None;
                    assert(values[i] is None);
                    assert(i >= known);
                }
                assert forall|f: int, c: int|
                    0 <= f < frame + 1 && 0 <= c < channels implies #[trigger] samples@[f
                    * channels + c] == or_silence(values[f]) by {
                    lemma_index_in_frame(f, c, channels as int, geometry.frames as int);
                    if f < frame {
                        if frame * channels <= f * channels + c < (frame + 1) * channels {
                            lemma_frame_of_index(f, c, frame as int, channels as int);
                        }
                        assert(before[f * channels + c] == or_silence(held[f]));
                    }
                }
            }
            frame = frame + 1;
        }
        assert(monitor_cycle(*old(self), *self, samples@, geometry, values, on));
    }
}

/// How many of the first `count` samples a ring accepted.
pub open spec fn accepted(kept: Seq<bool>, count: int) -> nat
    decreases count,
{
    if count <= 0 {
        0
    } else if kept[count - 1] {
        accepted(kept, count - 1) + 1
    } else {
        accepted(kept, count - 1)
    }
}

/// What a ring accepted of a block keeps its order, and nothing is added: the sample
/// at `i`, if it was accepted, comes behind as many as were accepted before it, and
/// there are as many as were accepted in all.
pub proof fn law_accepted_samples_keep_their_order(block: Seq<u32>, kept: Seq<bool>, i: int)
    requires
        kept.len() == block.len(),
        0 <= i < block.len(),
    ensures
        selected(block, kept).len() == accepted(kept, block.len() as int),
        kept[i] ==> accepted(kept, i) < selected(block, kept).len() && selected(
            block,
            kept,
        )[accepted(kept, i) as int] == block[i],
    decreases block.len(),
{
    let shorter = block.drop_last();
    let fewer = kept.drop_last();
    lemma_accepted_before(kept, block.len() - 1);
    lemma_accepted_before(kept, i);
    if shorter.len() > 0 {
        law_accepted_samples_keep_their_order(
            shorter,
            fewer,
            if i < shorter.len() {
                i
            } else {
                0
            },
        );
    } else {
        assert(selected(shorter, fewer) == Seq::<u32>::empty());
    }
    assert(selected(shorter, fewer).len() == accepted(kept, block.len() - 1));
    assert(kept.last() == kept[block.len() - 1]);
    if i < shorter.len() {
        assert(fewer[i] == kept[i]);
    }
}

proof fn lemma_accepted_before(kept: Seq<bool>, count: int)
    requires
        0 <= count < kept.len(),
    ensures
        accepted(kept.drop_last(), count) == accepted(kept, count),
    decreases count,
{
    if count > 0 {
        lemma_accepted_before(kept, count - 1);
    }
}

/// The samples that were popped while none was missing are what was popped, one for
/// one.
proof fn lemma_popped_run(values: Seq<Option<u32>>, count: int)
    requires
        0 <= count <= values.len(),
        forall|i: int| 0 <= i < count ==> (#[trigger] values[i]) is Some,
        forall|i: int| count <= i < values.len() ==> (#[trigger] values[i]) is None,
    ensures
        popped_samples(values).len() == count,
        forall|i: int| 0 <= i < count ==> #[trigger] popped_samples(values)[i] == values[i]->0,
    decreases values.len(),
{
    if values.len() > 0 {
        let shorter = values.drop_last();
        let last = values.len() - 1;
        if count == values.len() {
            assert(values[last] is Some);
            lemma_popped_run(shorter, count - 1);
            assert forall|i: int| 0 <= i < count implies #[trigger] popped_samples(values)[i]
                == values[i]->0 by {
                if i < count - 1 {
                    assert(popped_samples(shorter)[i] == shorter[i]->0);
                }
            }
        } else {
            assert(values[last] is None);
            lemma_popped_run(shorter, count);
            assert forall|i: int| 0 <= i < count implies #[trigger] popped_samples(values)[i]
                == values[i]->0 by {
                assert(popped_samples(shorter)[i] == shorter[i]->0);
            }
        }
    }
}

/// A ring that holds enough is played sample for sample: frame `f` has in every
/// channel the sample that was taken as number `f`, and one was taken for each frame.
pub proof fn law_full_ring_is_played_in_order(
    before: Seq<u32>,
    after: Seq<u32>,
    known: nat,
    samples: Seq<u32>,
    values: Seq<Option<u32>>,
    geometry: RenderGeometry,
    popped_any: bool,
    f: int,
    c: int,
)
    requires
        rendered_from(before, after, known, samples, values, geometry, popped_any),
        known >= geometry.frames,
        0 <= f < geometry.frames,
        0 <= c < geometry.channels,
    ensures
        after.len() == before.len() + geometry.frames,
        after.take(before.len() as int) == before,
        samples[f * geometry.channels + c] == after[before.len() + f],
        popped_any,
{
    lemma_popped_run(values, geometry.frames as int);
    assert(after.take(before.len() as int) =~= before);
    assert(samples[f * geometry.channels + c] == or_silence(values[f]));
    assert(popped_samples(values)[f] == values[f]->0);
}

/// A monitor cycle plays what it takes from the ring, in order and from its first
/// frame on, and then is silent to its end; playback goes on exactly where every
/// frame found a sample.
pub proof fn law_monitor_plays_a_run_and_then_rests(
    before: MonitorContext,
    after: MonitorContext,
    samples: Seq<u32>,
    geometry: RenderGeometry,
    values: Seq<Option<u32>>,
    on: bool,
    f: int,
    c: int,
)
    requires
        monitor_cycle(before, after, samples, geometry, values, on),
        0 <= f < geometry.frames,
        0 <= c < geometry.channels,
    ensures
        ({
            let played = after.received().len() - before.received().len();
            &&& 0 <= played <= geometry.frames
            &&& after.received().take(before.received().len() as int) == before.received()
            &&& samples[f * geometry.channels + c] == (if f < played {
                after.received()[before.received().len() + f]
            } else {
                SILENCE
            })
            &&& !on ==> played == 0
            &&& after.on() <==> on && played == geometry.frames
        }),
{
    let run = lemma_first_gap(values, 0);
    lemma_popped_run(values, run);
    assert(after.received().take(before.received().len() as int) =~= before.received());
    assert(samples[f * geometry.channels + c] == or_silence(values[f]));
    if f < run {
        assert(popped_samples(values)[f] == values[f]->0);
    }
    if !on && run > 0 {
        assert(values[0] is None);
    }
    if run < values.len() {
        assert(values[run] is None);
    }
}

/// Where the run of popped samples ends, if what comes behind a gap is a gap too.
proof fn lemma_first_gap(values: Seq<Option<u32>>, from: int) -> (run: int)
    requires
        0 <= from <= values.len(),
        forall|i: int| 0 <= i < from ==> (#[trigger] values[i]) is Some,
        forall|i: int, j: int|
            0 <= i <= j < values.len() && (#[trigger] values[i]) is None ==> (
            #[trigger] values[j]) is None,
    ensures
        from <= run <= values.len(),
        forall|i: int| 0 <= i < run ==> (#[trigger] values[i]) is Some,
        forall|i: int| run <= i < values.len() ==> (#[trigger] values[i]) is None,
    decreases values.len() - from,
{
    if from < values.len() && values[from] is Some {
        lemma_first_gap(values, from + 1)
    } else {
        from
    }
}

/// The counters after some cycles: for each its frames and whether it found anything
/// to play.
pub open spec fn cycles_counted(
    counters: CallbackCounters,
    cycles: Seq<(u32, bool)>,
) -> CallbackCounters
    decreases cycles.len(),
{
    if cycles.len() == 0 {
        counters
    } else {
        cycle_counted(
            cycles_counted(counters, cycles.drop_last()),
            cycles.last().0,
            cycles.last().1,
        )
    }
}

/// Start-up is no underrun: as long as no cycle has played anything, nothing counts
/// as one, however many cycles are dry; once one has, every dry cycle counts. The
/// heartbeat counts the frames of every cycle.
pub proof fn law_startup_is_no_underrun(
    counters: CallbackCounters,
    dry: Seq<(u32, bool)>,
    next: (u32, bool),
)
    requires
        !counters.output_primed,
        forall|i: int| 0 <= i < dry.len() ==> !(#[trigger] dry[i]).1,
    ensures
        ({
            let waited = cycles_counted(counters, dry);
            let played = cycle_counted(waited, next.0, true);
            let starved = cycle_counted(played, next.0, false);
            &&& waited.underruns == counters.underruns
            &&& !waited.output_primed
            &&& played.output_primed
            &&& played.underruns == counters.underruns
            &&& starved.output_primed
            &&& counters.underruns < u64::MAX ==> starved.underruns == counters.underruns + 1
            &&& waited.frames + next.0 <= u64::MAX ==> played.frames == waited.frames + next.0
            &&& starved.faulted == counters.faulted
        }),
    decreases dry.len(),
{
    if dry.len() > 0 {
        let shorter = dry.drop_last();
        assert forall|i: int| 0 <= i < shorter.len() implies !(#[trigger] shorter[i]).1 by {
            assert(shorter[i] == dry[i]);
        }
        law_startup_is_no_underrun(counters, shorter, next);
        assert(!dry[dry.len() - 1].1);
    }
}

} // verus!
