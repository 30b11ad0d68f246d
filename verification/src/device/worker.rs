//! The inference worker: samples in, engine blocks through, samples out.
//!
//! The worker gathers captured samples into blocks of 10 ms, runs the engine
//! on each, and fans the result out to the meters, the preview and the output
//! ring. A microphone that runs at another rate is drained in chunks, which are
//! converted before they are cut into blocks.

use rtrb::{Consumer, Producer};
use std::collections::VecDeque;
use vstd::prelude::*;

use super::callback;
use super::callback::push_each;
use super::monitor;
use super::monitor::MonitorTee;
use super::observe;
use super::observe::StreamLevels;
use crate::rings;
use crate::signal::framed::{push_all, take_front};
use crate::signal::level;
use crate::signal::level::FULL_SCALE;
use crate::signal::ring;
use crate::signal::ring::SILENCE;
use crate::signal::stage::fill_silence;

verus! {

/// Samples per engine block driven by the inference worker: 10 ms at the
/// 48 kHz engine rate.
pub const WORKER_BLOCK_SAMPLES: usize = 480;

/// Samples drained from the capture ring per pass when the microphone runs at
/// its own rate.
pub const NATIVE_CHUNK_SAMPLES: usize = 480;

/// Silence pushed into the output ring before the units start, when two clocks
/// are bridged: 50 ms at 48 kHz.
pub const OUTPUT_PRIME_SAMPLES: usize = 2400;

/// Capacity of the rings between the callbacks and the worker: one second.
pub const RING_CAPACITY: usize = 48_000;

/// What the worker does after looking for a sample.
#[derive(Debug, Clone, Copy, PartialEq, Eq, Structural)]
pub enum WorkerStep {
    /// The ring was empty: wait for the callback.
    Wait,
    /// The sample was kept; the block is not complete.
    Gather,
    /// The sample completed a block: run the engine on it.
    Run,
}

/// Gathers samples into blocks.
#[derive(Debug)]
pub struct BlockAssembler {
    block: Vec<u32>,
    position: usize,
}

/// What gathering one more sample leaves of the incomplete block.
pub open spec fn gathered_after(gathered: Seq<u32>, sample: u32) -> Seq<u32> {
    if gathered.len() + 1 == WORKER_BLOCK_SAMPLES {
        Seq::empty()
    } else {
        gathered.push(sample)
    }
}

impl BlockAssembler {
    /// The block has its full length, and is not complete.
    pub closed spec fn wf(&self) -> bool {
        &&& self.block@.len() == WORKER_BLOCK_SAMPLES
        &&& self.position < WORKER_BLOCK_SAMPLES
    }

    /// The samples of the incomplete block.
    pub closed spec fn gathered(&self) -> Seq<u32> {
        self.block@.take(self.position as int)
    }

    /// The whole block buffer.
    pub closed spec fn buffer(&self) -> Seq<u32> {
        self.block@
    }

    /// Creates an assembler with nothing gathered.
    pub fn new() -> (assembler: Self)
        ensures
            assembler.wf(),
            assembler.gathered() == Seq::<u32>::empty(),
    {
        BlockAssembler { block: vec![SILENCE; WORKER_BLOCK_SAMPLES], position: 0 }
    }

    /// Takes what a look into the capture ring gave. When that completes a
    /// block, [`BlockAssembler::block`] is that block until the next sample is
    /// taken.
    pub fn take(&mut self, sample: Option<u32>) -> (step: WorkerStep)
        requires
            old(self).wf(),
        ensures
            final(self).wf(),
            match sample {
                None => {
                    &&& step == WorkerStep::Wait
                    &&& final(self).gathered() == old(self).gathered()
                    &&& final(self).buffer() == old(self).buffer()
                },
                Some(value) => {
                    &&& final(self).gathered() == gathered_after(old(self).gathered(), value)
                    &&& step == (if old(self).gathered().len() + 1 == WORKER_BLOCK_SAMPLES {
                        WorkerStep::Run
                    } else {
                        WorkerStep::Gather
                    })
                    &&& step == WorkerStep::Run ==> final(self).buffer()
                        == old(self).gathered().push(value)
                },
            },
    {
        match sample {
            None => WorkerStep::Wait,
            Some(value) => {
                let ghost before = self.gathered();
                self.block.set(self.position, value);
                assert(self.block@.take(self.position + 1) =~= before.push(value));
                self.position = self.position + 1;
                if self.position == WORKER_BLOCK_SAMPLES {
                    assert(self.block@ =~= before.push(value));
                    self.position = 0;
                    WorkerStep::Run
                } else {
                    WorkerStep::Gather
                }
            },
        }
    }

    /// Looks for the next captured sample and takes it. Whether there is one
    /// depends on the callback.
    pub fn pull(&mut self, input: &mut Consumer<u32>) -> (step: WorkerStep)
        requires
            old(self).wf(),
        ensures
            final(self).wf(),
            rings::read_ring(*final(input)) == rings::read_ring(*old(input)),
            rings::stocked(*final(input)) + 1 >= rings::stocked(*old(input)),
            step == WorkerStep::Wait ==> rings::stocked(*final(input)) == 0,
            rings::stocked(*old(input)) > 0 ==> step != WorkerStep::Wait,
            step == WorkerStep::Wait ==> {
                &&& final(self).gathered() == old(self).gathered()
                &&& rings::received(*final(input)) == rings::received(*old(input))
            },
            step != WorkerStep::Wait ==> {
                let value = rings::received(*final(input)).last();
                &&& rings::received(*final(input)) == rings::received(*old(input)).push(value)
                &&& final(self).gathered() == gathered_after(old(self).gathered(), value)
                &&& step == (if old(self).gathered().len() + 1 == WORKER_BLOCK_SAMPLES {
                    WorkerStep::Run
                } else {
                    WorkerStep::Gather
                })
                &&& step == WorkerStep::Run ==> final(self).buffer() == old(self).gathered().push(
                    value,
                )
            },
    {
        let sample: Option<u32> = rings::pop_sample(input);
        self.take(sample)
    }

    /// The block buffer.
    pub fn block(&self) -> (block: &[u32])
        ensures
            block@ == self.buffer(),
    {
        self.block.as_slice()
    }
}

/// The complete blocks of a stream of samples, in order, and what is left.
pub open spec fn cut(stream: Seq<u32>) -> (Seq<Seq<u32>>, Seq<u32>)
    decreases stream.len(),
{
    if stream.len() == 0 {
        (Seq::empty(), Seq::empty())
    } else {
        let (blocks, gathered) = cut(stream.drop_last());
        if gathered.len() + 1 == WORKER_BLOCK_SAMPLES {
            (blocks.push(gathered.push(stream.last())), gathered_after(gathered, stream.last()))
        } else {
            (blocks, gathered_after(gathered, stream.last()))
        }
    }
}

/// The engine sees every captured sample once and in order: block `k` is the
/// stream from sample `480 k` on, and fewer than a block's samples wait.
pub proof fn law_blocks_partition_the_stream(stream: Seq<u32>)
    ensures
        ({
            let (blocks, gathered) = cut(stream);
            &&& blocks.len() * WORKER_BLOCK_SAMPLES + gathered.len() == stream.len()
            &&& gathered.len() < WORKER_BLOCK_SAMPLES
            &&& gathered == stream.skip(blocks.len() * WORKER_BLOCK_SAMPLES)
            &&& forall|k: int|
                0 <= k < blocks.len() ==> #[trigger] blocks[k] == stream.subrange(
                    k * WORKER_BLOCK_SAMPLES,
                    (k + 1) * WORKER_BLOCK_SAMPLES,
                )
        }),
    decreases stream.len(),
{
    let (blocks, gathered) = cut(stream);
    if stream.len() == 0 {
        assert(gathered =~= stream.skip(0));
    } else {
        let rest = stream.drop_last();
        law_blocks_partition_the_stream(rest);
        let (before, held) = cut(rest);
        let n = before.len() * WORKER_BLOCK_SAMPLES;
        assert(held.push(stream.last()) =~= stream.skip(n));
        assert forall|k: int| 0 <= k < blocks.len() implies #[trigger] blocks[k]
            == stream.subrange(k * WORKER_BLOCK_SAMPLES, (k + 1) * WORKER_BLOCK_SAMPLES) by {
            if k < before.len() {
                assert(before[k] == rest.subrange(
                    k * WORKER_BLOCK_SAMPLES,
                    (k + 1) * WORKER_BLOCK_SAMPLES,
                ));
                assert(rest.subrange(k * WORKER_BLOCK_SAMPLES, (k + 1) * WORKER_BLOCK_SAMPLES)
                    =~= stream.subrange(k * WORKER_BLOCK_SAMPLES, (k + 1) * WORKER_BLOCK_SAMPLES));
            } else {
                assert(blocks[k] =~= stream.subrange(
                    k * WORKER_BLOCK_SAMPLES,
                    (k + 1) * WORKER_BLOCK_SAMPLES,
                ));
            }
        }
        assert(gathered =~= stream.skip(blocks.len() * WORKER_BLOCK_SAMPLES));
    }
}

/// Where the worker's blocks go: the meters, the preview and the output ring.
pub struct BlockSinks {
    levels: StreamLevels,
    tee: MonitorTee,
    output: Producer<u32>,
    faulted: bool,
}

/// What fanning one block out does to the sinks and to the block itself. Of
/// the new value only what a later count of the rings leaves alone.
pub open spec fn fanned_out(
    before: BlockSinks,
    after: BlockSinks,
    ok: bool,
    input: Seq<u32>,
    given: Seq<u32>,
    output: Seq<u32>,
    decayed: (u32, u32),
) -> bool {
    &&& output == (if ok {
        given
    } else {
        ring::silence(given.len())
    })
    &&& after.failed() == (before.failed() || !ok)
    &&& after.meters() == (
        observe::metered(input, decayed.0),
        observe::metered(output, decayed.1),
    )
    &&& after.size() == before.size()
    &&& after.ring() == before.ring()
    &&& after.free() + output.len() >= before.free()
    &&& after.preview().ring() == before.preview().ring()
    &&& after.preview().free() + output.len() >= before.preview().free()
    &&& exists|kept: Seq<bool>|
        #[trigger] callback::pushed_from(before.sent(), after.sent(), before.free(), output, kept)
    &&& if !before.preview().armed() {
        &&& after.preview().sent() == before.preview().sent()
        &&& after.preview().run() == 0
        &&& !after.preview().armed()
        &&& after.preview().has_tripped() == before.preview().has_tripped()
    } else {
        let seen = monitor::observed(before.preview().run(), output);
        &&& exists|kept: Seq<bool>|
            #[trigger] callback::pushed_from(
                before.preview().sent(),
                after.preview().sent(),
                before.preview().free(),
                output,
                kept,
            )
        &&& after.preview().run() == seen.0
        &&& after.preview().armed() == !seen.1
        &&& after.preview().has_tripped() == (before.preview().has_tripped() || seen.1)
    }
}

impl BlockSinks {
    /// The preview tee is well formed.
    pub closed spec fn wf(&self) -> bool {
        self.tee.wf()
    }

    /// The meters.
    pub closed spec fn meters(&self) -> (u32, u32) {
        self.levels.levels()
    }

    /// The preview tee.
    pub closed spec fn preview(&self) -> MonitorTee {
        self.tee
    }

    /// Every sample pushed to the output ring so far.
    pub closed spec fn sent(&self) -> Seq<u32> {
        rings::sent(self.output)
    }

    /// Free slots of the output ring that are known of.
    pub closed spec fn free(&self) -> nat {
        rings::free(self.output)
    }

    /// Capacity of the output ring.
    pub closed spec fn size(&self) -> nat {
        rings::ring_size(self.output)
    }

    /// Which ring leads to the output.
    pub closed spec fn ring(&self) -> int {
        rings::written_ring(self.output)
    }

    /// Whether the engine has failed on a block.
    pub closed spec fn failed(&self) -> bool {
        self.faulted
    }

    /// Bundles the sinks, with the meters at silence.
    pub fn new(tee: MonitorTee, output: Producer<u32>) -> (sinks: Self)
        requires
            tee.wf(),
        ensures
            sinks.wf(),
            sinks.meters() == (0u32, 0u32),
            sinks.preview() == tee,
            sinks.sent() == rings::sent(output),
            sinks.free() == rings::free(output),
            sinks.size() == rings::ring_size(output),
            sinks.ring() == rings::written_ring(output),
            !sinks.failed(),
    {
        BlockSinks { levels: StreamLevels::new(), tee, output, faulted: false }
    }

    /// Whether the engine has failed on a block.
    pub fn faulted(&self) -> (faulted: bool)
        ensures
            faulted == self.failed(),
    {
        self.faulted
    }

    /// The input and output levels.
    pub fn levels(&self) -> (levels: (u32, u32))
        ensures
            levels == self.meters(),
    {
        (self.levels.input(), self.levels.output())
    }

    /// Whether the preview is armed, and whether sustained feedback has
    /// tripped it.
    pub fn preview_flags(&self) -> (flags: (bool, bool))
        ensures
            flags.0 == self.preview().armed(),
            flags.1 == self.preview().has_tripped(),
    {
        (self.tee.enabled(), self.tee.tripped())
    }

    /// Sets the flags that the control plane shares with the preview tee.
    pub fn set_preview(&mut self, enabled: bool, tripped: bool)
        requires
            old(self).wf(),
        ensures
            final(self).wf(),
            final(self).preview().armed() == enabled,
            final(self).preview().has_tripped() == tripped,
            final(self).preview().sent() == old(self).preview().sent(),
            final(self).preview().free() == old(self).preview().free(),
            final(self).preview().run() == old(self).preview().run(),
            final(self).preview().ring() == old(self).preview().ring(),
            final(self).ring() == old(self).ring(),
            final(self).meters() == old(self).meters(),
            final(self).sent() == old(self).sent(),
            final(self).free() == old(self).free(),
            final(self).size() == old(self).size(),
            final(self).failed() == old(self).failed(),
    {
        self.tee.set_flags(enabled, tripped);
    }

    /// Pushes the silence that cushions the output at the start.
    pub fn prime(&mut self)
        requires
            old(self).wf(),
        ensures
            final(self).wf(),
            final(self).preview() == old(self).preview(),
            final(self).ring() == old(self).ring(),
            final(self).meters() == old(self).meters(),
            final(self).failed() == old(self).failed(),
            final(self).size() == old(self).size(),
            exists|kept: Seq<bool>|
                #[trigger] callback::pushed_from(
                    old(self).sent(),
                    final(self).sent(),
                    old(self).free(),
                    ring::silence(OUTPUT_PRIME_SAMPLES as nat),
                    kept,
                ),
            final(self).free() + OUTPUT_PRIME_SAMPLES >= old(self).free(),
            old(self).free() >= OUTPUT_PRIME_SAMPLES ==> final(self).sent() == old(self).sent()
                + ring::silence(OUTPUT_PRIME_SAMPLES as nat),
    {
        let cushion: Vec<u32> = vec![SILENCE; OUTPUT_PRIME_SAMPLES];
        assert(cushion@ =~= ring::silence(OUTPUT_PRIME_SAMPLES as nat));
        push_each(&mut self.output, cushion.as_slice());
        proof {
            let kept = choose|kept: Seq<bool>| #[trigger]
                callback::pushed_from(
                    old(self).sent(),
                    self.sent(),
                    old(self).free(),
                    cushion@,
                    kept,
                );
            assert(callback::pushed_from(
                old(self).sent(),
                self.sent(),
                old(self).free(),
                ring::silence(OUTPUT_PRIME_SAMPLES as nat),
                kept,
            ));
            if old(self).free() >= OUTPUT_PRIME_SAMPLES {
                callback::law_room_means_no_loss(
                    old(self).sent(),
                    self.sent(),
                    old(self).free(),
                    cushion@,
                    kept,
                );
            }
        }
    }

    /// Fans one processed block out. A block on which the engine failed
    /// becomes silence and flags the fault. Samples that find the output ring
    /// full are dropped, so the worker never blocks. Returns whether the
    /// preview got the block.
    pub fn finish_block(
        &mut self,
        ok: bool,
        input_block: &[u32],
        output_block: &mut [u32],
        decayed_input: u32,
        decayed_output: u32,
    ) -> (teed: bool)
        requires
            old(self).wf(),
        ensures
            final(self).wf(),
            fanned_out(
                *old(self),
                *final(self),
                ok,
                input_block@,
                old(output_block)@,
                final(output_block)@,
                (decayed_input, decayed_output),
            ),
            teed == old(self).preview().armed(),
    {
        if !ok {
            fill_silence(output_block, 0);
            assert(output_block@ =~= ring::silence(old(output_block)@.len()));
            self.faulted = true;
        }
        self.levels.update(input_block, output_block, decayed_input, decayed_output);
        let teed: bool = self.tee.feed(output_block);
        push_each(&mut self.output, output_block);
        proof {
            let kept = choose|kept: Seq<bool>| #[trigger]
                callback::pushed_from(
                    old(self).sent(),
                    self.sent(),
                    old(self).free(),
                    output_block@,
                    kept,
                );
            assert(callback::pushed_from(
                old(self).sent(),
                self.sent(),
                old(self).free(),
                output_block@,
                kept,
            ));
            if teed {
                let kept = choose|kept: Seq<bool>| #[trigger]
                    callback::pushed_from(
                        old(self).preview().sent(),
                        self.preview().sent(),
                        old(self).preview().free(),
                        output_block@,
                        kept,
                    );
                assert(callback::pushed_from(
                    old(self).preview().sent(),
                    self.preview().sent(),
                    old(self).preview().free(),
                    output_block@,
                    kept,
                ));
            }
        }
        teed
    }

    /// Silences the meters when no worker runs.
    pub fn close(&mut self)
        requires
            old(self).wf(),
        ensures
            final(self).wf(),
            final(self).meters() == (0u32, 0u32),
            final(self).preview() == old(self).preview(),
            final(self).ring() == old(self).ring(),
            final(self).sent() == old(self).sent(),
            final(self).failed() == old(self).failed(),
    {
        self.levels.reset();
    }

    /// Samples between the two clocks, given what waits on either side of the
    /// engine; `None` when the total is past what can be counted. How full the
    /// rings are depends on the callbacks.
    pub fn buffered(&mut self, pending: usize, input: &mut Consumer<u32>, factor: usize) -> (total:
        Option<usize>)
        requires
            old(self).wf(),
        ensures
            final(self).wf(),
            final(self).preview() == old(self).preview(),
            final(self).ring() == old(self).ring(),
            final(self).meters() == old(self).meters(),
            final(self).sent() == old(self).sent(),
            final(self).failed() == old(self).failed(),
            final(self).size() == old(self).size(),
            rings::received(*final(input)) == rings::received(*old(input)),
            rings::read_ring(*final(input)) == rings::read_ring(*old(input)),
            rings::stocked(*final(input)) >= rings::stocked(*old(input)),
            final(self).free() >= old(self).free(),
            ({
                let sum = between_clocks(
                    final(self).size() as int,
                    final(self).free() as int,
                    pending as int,
                    rings::stocked(*final(input)) as int,
                    factor as int,
                );
                total == (if sum > usize::MAX {
                    None
                } else {
                    Some(sum as usize)
                })
            }),
    {
        let capacity: usize = rings::ring_capacity(&self.output);
        let free: usize = rings::free_slots(&mut self.output);
        let native: usize = rings::stocked_slots(input);
        count_between_clocks(capacity, free, pending, native, factor)
    }
}

/// Samples between the capture clock and the output clock, in samples of the
/// engine: what the output ring holds, what waits for the engine, and what the
/// capture ring holds times the rate factor, which is capped at what can be
/// counted.
pub open spec fn between_clocks(
    capacity: int,
    free: int,
    pending: int,
    native: int,
    factor: int,
) -> int {
    (capacity - free) + pending + (if native * factor > usize::MAX {
        usize::MAX as int
    } else {
        native * factor
    })
}

/// The total between the clocks, or `None` when it is past what can be counted.
pub fn count_between_clocks(
    capacity: usize,
    free: usize,
    pending: usize,
    native: usize,
    factor: usize,
) -> (total: Option<usize>)
    requires
        free <= capacity,
    ensures
        ({
            let sum = between_clocks(
                capacity as int,
                free as int,
                pending as int,
                native as int,
                factor as int,
            );
            total == (if sum > usize::MAX {
                None
            } else {
                Some(sum as usize)
            })
        }),
{
    proof {
        assert(native * factor >= 0) by (nonlinear_arith);
    }
    let scaled: usize = match native.checked_mul(factor) {
        Some(product) => product,
        None => usize::MAX,
    };
    match (capacity - free).checked_add(pending) {
        Some(near) => near.checked_add(scaled),
        None => None,
    }
}

/// Drains captured samples until the chunk is full or the ring is empty. How
/// many there are depends on the callback.
pub fn drain_native(input: &mut Consumer<u32>) -> (chunk: Vec<u32>)
    ensures
        chunk@.len() <= NATIVE_CHUNK_SAMPLES,
        rings::read_ring(*final(input)) == rings::read_ring(*old(input)),
        rings::stocked(*final(input)) + chunk@.len() >= rings::stocked(*old(input)),
        rings::received(*final(input)) == rings::received(*old(input)) + chunk@,
        chunk@.len() < NATIVE_CHUNK_SAMPLES ==> rings::stocked(*final(input)) == 0
            && rings::stocked(*old(input)) <= chunk@.len(),
{
    let mut chunk: Vec<u32> = Vec::with_capacity(NATIVE_CHUNK_SAMPLES);
    assert(rings::received(*input) =~= rings::received(*old(input)) + chunk@);
    while chunk.len() < NATIVE_CHUNK_SAMPLES
        invariant
            chunk@.len() <= NATIVE_CHUNK_SAMPLES,
            rings::received(*input) == rings::received(*old(input)) + chunk@,
            rings::read_ring(*input) == rings::read_ring(*old(input)),
            rings::stocked(*old(input)) <= rings::stocked(*input) + chunk@.len(),
        decreases NATIVE_CHUNK_SAMPLES - chunk@.len(),
    {
        match rings::pop_sample(input) {
            Some(sample) => {
                chunk.push(sample);
                assert(rings::received(*input) =~= rings::received(*old(input)) + chunk@);
            },
            None => {
                return chunk;
            },
        }
    }
    chunk
}

/// Converted samples that wait to be cut into blocks.
#[derive(Debug)]
pub struct PendingBlocks {
    fifo: VecDeque<u32>,
}

impl PendingBlocks {
    /// The waiting samples, oldest first.
    pub closed spec fn waiting(&self) -> Seq<u32> {
        self.fifo@
    }

    /// Creates an empty queue.
    pub fn new() -> (pending: Self)
        ensures
            pending.waiting() == Seq::<u32>::empty(),
    {
        PendingBlocks { fifo: VecDeque::new() }
    }

    /// Number of waiting samples.
    pub fn len(&self) -> (len: usize)
        ensures
            len == self.waiting().len(),
    {
        self.fifo.len()
    }

    /// Queues converted samples.
    pub fn extend(&mut self, converted: &[u32])
        ensures
            final(self).waiting() == old(self).waiting() + converted@,
    {
        push_all(&mut self.fifo, converted);
    }

    /// Takes the next block, if enough samples wait.
    pub fn next_block(&mut self) -> (block: Option<Vec<u32>>)
        ensures
            match block {
                Some(samples) => {
                    &&& old(self).waiting().len() >= WORKER_BLOCK_SAMPLES
                    &&& samples@ == old(self).waiting().take(WORKER_BLOCK_SAMPLES as int)
                    &&& final(self).waiting() == old(self).waiting().skip(
                        WORKER_BLOCK_SAMPLES as int,
                    )
                },
                None => {
                    &&& old(self).waiting().len() < WORKER_BLOCK_SAMPLES
                    &&& final(self).waiting() == old(self).waiting()
                },
            },
    {
        if self.fifo.len() < WORKER_BLOCK_SAMPLES {
            return None;
        }
        Some(take_front(&mut self.fifo, WORKER_BLOCK_SAMPLES))
    }
}

/// What the worker that bridges two clocks does next.
#[derive(Debug)]
pub enum SplitStep {
    /// The transport shuts down.
    Stop,
    /// Nothing was captured: wait for the callback.
    Wait,
    /// Convert these captured samples to the engine rate.
    Convert(Vec<u32>),
}

/// The worker that bridges a microphone at its own rate to the engine. It
/// drains the capture ring in chunks, has them converted, and runs the engine
/// on every complete block. After each block it counts what lies between the
/// two clocks, which steers the converter.
pub struct SplitWorker {
    input: Consumer<u32>,
    pending: PendingBlocks,
    sinks: BlockSinks,
    factor: usize,
}

impl SplitWorker {
    /// The sinks are well formed.
    pub closed spec fn wf(&self) -> bool {
        self.sinks.wf()
    }

    /// Every captured sample taken so far.
    pub closed spec fn received(&self) -> Seq<u32> {
        rings::received(self.input)
    }

    /// Captured samples that are known of.
    pub closed spec fn stocked(&self) -> nat {
        rings::stocked(self.input)
    }

    /// Converted samples that wait for the engine.
    pub closed spec fn waiting(&self) -> Seq<u32> {
        self.pending.waiting()
    }

    /// Which ring comes from the microphone.
    pub closed spec fn ring(&self) -> int {
        rings::read_ring(self.input)
    }

    /// The sinks.
    pub closed spec fn outlets(&self) -> BlockSinks {
        self.sinks
    }

    /// Engine samples per captured sample.
    pub closed spec fn rate_factor(&self) -> usize {
        self.factor
    }

    /// Sets the worker up and cushions the output ring with silence.
    pub fn new(input: Consumer<u32>, sinks: BlockSinks, factor: usize) -> (worker: Self)
        requires
            sinks.wf(),
        ensures
            worker.wf(),
            worker.received() == rings::received(input),
            worker.stocked() == rings::stocked(input),
            worker.waiting() == Seq::<u32>::empty(),
            worker.rate_factor() == factor,
            worker.ring() == rings::read_ring(input),
            worker.outlets().ring() == sinks.ring(),
            worker.outlets().preview() == sinks.preview(),
            worker.outlets().meters() == sinks.meters(),
            worker.outlets().failed() == sinks.failed(),
            worker.outlets().size() == sinks.size(),
            worker.outlets().free() + OUTPUT_PRIME_SAMPLES >= sinks.free(),
            sinks.free() >= OUTPUT_PRIME_SAMPLES ==> worker.outlets().sent() == sinks.sent()
                + ring::silence(OUTPUT_PRIME_SAMPLES as nat),
    {
        let mut sinks = sinks;
        sinks.prime();
        SplitWorker { input, pending: PendingBlocks::new(), sinks, factor }
    }

    /// Starts a pass: looks at the shutdown flag, then drains the capture ring.
    /// How much there is depends on the callback.
    pub fn begin_pass(&mut self, shutdown: bool) -> (step: SplitStep)
        requires
            old(self).wf(),
        ensures
            final(self).wf(),
            final(self).waiting() == old(self).waiting(),
            final(self).outlets() == old(self).outlets(),
            final(self).rate_factor() == old(self).rate_factor(),
            final(self).ring() == old(self).ring(),
            shutdown <==> step is Stop,
            match step {
                SplitStep::Stop => {
                    &&& final(self).received() == old(self).received()
                    &&& final(self).stocked() == old(self).stocked()
                },
                SplitStep::Wait => {
                    &&& final(self).received() == old(self).received()
                    &&& old(self).stocked() == 0
                    &&& final(self).stocked() == 0
                },
                SplitStep::Convert(chunk) => {
                    &&& final(self).stocked() + chunk@.len() >= old(self).stocked()
                    &&& 0 < chunk@.len() <= NATIVE_CHUNK_SAMPLES
                    &&& final(self).received() == old(self).received() + chunk@
                    &&& chunk@.len() == NATIVE_CHUNK_SAMPLES || chunk@.len() >= old(
                        self,
                    ).stocked()
                },
            },
    {
        if shutdown {
            return SplitStep::Stop;
        }
        let chunk: Vec<u32> = drain_native(&mut self.input);
        if chunk.len() == 0 {
            assert(self.received() =~= old(self).received());
            SplitStep::Wait
        } else {
            SplitStep::Convert(chunk)
        }
    }

    /// Queues converted samples.
    pub fn converted(&mut self, samples: &[u32])
        requires
            old(self).wf(),
        ensures
            final(self).wf(),
            final(self).waiting() == old(self).waiting() + samples@,
            final(self).received() == old(self).received(),
            final(self).stocked() == old(self).stocked(),
            final(self).outlets() == old(self).outlets(),
            final(self).rate_factor() == old(self).rate_factor(),
            final(self).ring() == old(self).ring(),
    {
        self.pending.extend(samples);
    }

    /// The next block for the engine, if enough samples wait.
    pub fn next_block(&mut self) -> (block: Option<Vec<u32>>)
        requires
            old(self).wf(),
        ensures
            final(self).wf(),
            final(self).received() == old(self).received(),
            final(self).stocked() == old(self).stocked(),
            final(self).outlets() == old(self).outlets(),
            final(self).rate_factor() == old(self).rate_factor(),
            final(self).ring() == old(self).ring(),
            match block {
                Some(samples) => {
                    &&& samples@.len() == WORKER_BLOCK_SAMPLES
                    &&& old(self).waiting() == samples@ + final(self).waiting()
                },
                None => {
                    &&& old(self).waiting().len() < WORKER_BLOCK_SAMPLES
                    &&& final(self).waiting() == old(self).waiting()
                },
            },
    {
        let block = self.pending.next_block();
        proof {
            if block is Some {
                assert(old(self).waiting() =~= block->0@ + self.waiting());
            }
        }
        block
    }

    /// The input and output levels.
    pub fn levels(&self) -> (levels: (u32, u32))
        ensures
            levels == self.outlets().meters(),
    {
        self.sinks.levels()
    }

    /// Whether the engine has failed on a block.
    pub fn faulted(&self) -> (faulted: bool)
        ensures
            faulted == self.outlets().failed(),
    {
        self.sinks.faulted()
    }

    /// Whether the preview is armed, and whether sustained feedback has
    /// tripped it.
    pub fn preview_flags(&self) -> (flags: (bool, bool))
        ensures
            flags.0 == self.outlets().preview().armed(),
            flags.1 == self.outlets().preview().has_tripped(),
    {
        self.sinks.preview_flags()
    }

    /// Sets the flags that the control plane shares with the preview tee.
    pub fn set_preview(&mut self, enabled: bool, tripped: bool)
        requires
            old(self).wf(),
        ensures
            final(self).wf(),
            final(self).received() == old(self).received(),
            final(self).stocked() == old(self).stocked(),
            final(self).waiting() == old(self).waiting(),
            final(self).rate_factor() == old(self).rate_factor(),
            final(self).ring() == old(self).ring(),
            final(self).outlets().preview().armed() == enabled,
            final(self).outlets().preview().has_tripped() == tripped,
            final(self).outlets().preview().sent() == old(self).outlets().preview().sent(),
            final(self).outlets().preview().free() == old(self).outlets().preview().free(),
            final(self).outlets().preview().run() == old(self).outlets().preview().run(),
            final(self).outlets().preview().ring() == old(self).outlets().preview().ring(),
            final(self).outlets().ring() == old(self).outlets().ring(),
            final(self).outlets().meters() == old(self).outlets().meters(),
            final(self).outlets().sent() == old(self).outlets().sent(),
            final(self).outlets().free() == old(self).outlets().free(),
            final(self).outlets().size() == old(self).outlets().size(),
            final(self).outlets().failed() == old(self).outlets().failed(),
    {
        self.sinks.set_preview(enabled, tripped);
    }

    /// Silences the meters when no worker runs.
    pub fn close(&mut self)
        requires
            old(self).wf(),
        ensures
            final(self).wf(),
            final(self).received() == old(self).received(),
            final(self).waiting() == old(self).waiting(),
            final(self).rate_factor() == old(self).rate_factor(),
            final(self).ring() == old(self).ring(),
            final(self).outlets().meters() == (0u32, 0u32),
            final(self).outlets().preview() == old(self).outlets().preview(),
            final(self).outlets().ring() == old(self).outlets().ring(),
            final(self).outlets().sent() == old(self).outlets().sent(),
            final(self).outlets().failed() == old(self).outlets().failed(),
    {
        self.sinks.close();
    }

    /// Fans a processed block out and counts what lies between the clocks.
    pub fn finish_block(
        &mut self,
        ok: bool,
        input_block: &[u32],
        output_block: &mut [u32],
        decayed_input: u32,
        decayed_output: u32,
    ) -> (total: Option<usize>)
        requires
            old(self).wf(),
        ensures
            final(self).wf(),
            final(self).received() == old(self).received(),
            final(self).stocked() >= old(self).stocked(),
            final(self).waiting() == old(self).waiting(),
            final(self).rate_factor() == old(self).rate_factor(),
            final(self).ring() == old(self).ring(),
            fanned_out(
                old(self).outlets(),
                final(self).outlets(),
                ok,
                input_block@,
                old(output_block)@,
                final(output_block)@,
                (decayed_input, decayed_output),
            ),
            ({
                let sum = between_clocks(
                    final(self).outlets().size() as int,
                    final(self).outlets().free() as int,
                    final(self).waiting().len() as int,
                    final(self).stocked() as int,
                    final(self).rate_factor() as int,
                );
                total == (if sum > usize::MAX {
                    None
                } else {
                    Some(sum as usize)
                })
            }),
    {
        let _teed: bool = self.sinks.finish_block(
            ok,
            input_block,
            output_block,
            decayed_input,
            decayed_output,
        );
        let ghost fanned = self.sinks;
        let pending: usize = self.pending.len();
        let total: Option<usize> = self.sinks.buffered(pending, &mut self.input, self.factor);
        assert(fanned.preview() == self.sinks.preview());
        total
    }
}

/// What the worker hands on: an engine that failed on a block is silent for it and
/// stays marked, and a block that fits goes out whole, to the meeting and, while the
/// preview is armed, to the preview as well; a preview that is not armed gets nothing.
pub proof fn law_blocks_go_where_they_belong(
    before: BlockSinks,
    after: BlockSinks,
    ok: bool,
    input: Seq<u32>,
    given: Seq<u32>,
    output: Seq<u32>,
    decayed: (u32, u32),
)
    requires
        fanned_out(before, after, ok, input, given, output, decayed),
    ensures
        output.len() == given.len(),
        ok ==> output == given,
        !ok ==> after.failed() && forall|k: int|
            0 <= k < output.len() ==> #[trigger] output[k] == SILENCE,
        ok && !before.failed() ==> !after.failed(),
        before.failed() ==> after.failed(),
        before.free() >= output.len() ==> after.sent() == before.sent() + output,
        before.preview().armed() && before.preview().free() >= output.len()
            ==> after.preview().sent() == before.preview().sent() + output,
        !before.preview().armed() ==> after.preview().sent() == before.preview().sent(),
        level::peak_of(input) <= FULL_SCALE ==> after.meters().0 >= level::peak_of(input),
        level::peak_of(output) <= FULL_SCALE ==> after.meters().1 >= level::peak_of(output),
        after.meters().0 == decayed.0 || after.meters().0 <= level::peak_of(input),
        after.meters().1 == decayed.1 || after.meters().1 <= level::peak_of(output),
{
    let kept = choose|kept: Seq<bool>| #[trigger]
        callback::pushed_from(before.sent(), after.sent(), before.free(), output, kept);
    if before.free() >= output.len() {
        callback::law_room_means_no_loss(
            before.sent(),
            after.sent(),
            before.free(),
            output,
            kept,
        );
    }
    if before.preview().armed() && before.preview().free() >= output.len() {
        let teed = choose|kept: Seq<bool>| #[trigger]
            callback::pushed_from(
                before.preview().sent(),
                after.preview().sent(),
                before.preview().free(),
                output,
                kept,
            );
        callback::law_room_means_no_loss(
            before.preview().sent(),
            after.preview().sent(),
            before.preview().free(),
            output,
            teed,
        );
    }
}

/// What lies between the two clocks counts every sample once: one more in the output
/// ring or one more that waits for the engine is one more, one more captured sample
/// is as many as it is converted to, and with nothing anywhere there is nothing.
pub proof fn law_every_sample_between_the_clocks_counts(
    capacity: int,
    free: int,
    pending: int,
    native: int,
    factor: int,
)
    requires
        native >= 0,
        factor >= 0,
        (native + 1) * factor <= usize::MAX,
    ensures
        between_clocks(capacity, capacity, 0, 0, factor) == 0,
        between_clocks(capacity, free - 1, pending, native, factor) == between_clocks(
            capacity,
            free,
            pending,
            native,
            factor,
        ) + 1,
        between_clocks(capacity, free, pending + 1, native, factor) == between_clocks(
            capacity,
            free,
            pending,
            native,
            factor,
        ) + 1,
        between_clocks(capacity, free, pending, native + 1, factor) == between_clocks(
            capacity,
            free,
            pending,
            native,
            factor,
        ) + factor,
{
    assert((native + 1) * factor == native * factor + factor) by (nonlinear_arith);
    assert(0 * factor == 0);
}

} // verus!
