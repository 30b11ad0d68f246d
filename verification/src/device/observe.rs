//! Peak meters and processing-time statistics of the stream that flows through
//! the inference worker.

use vstd::prelude::*;

use crate::signal::level;
use crate::signal::level::{block_peak, FULL_SCALE};

verus! {

/// What a meter shows after a block: the larger of the block's peak, clamped
/// to full scale, and the level it has decayed to.
pub open spec fn metered(block: Seq<u32>, decayed: u32) -> u32 {
    let peak = level::peak_of(block);
    let clamped = if peak > FULL_SCALE {
        FULL_SCALE
    } else {
        peak
    };
    if clamped > decayed {
        clamped
    } else {
        decayed
    }
}

/// Linear peak levels of the model input (pre-processing) and the model output
/// (post-processing), as bit patterns.
///
/// Between two blocks a level decays by a constant factor. The decayed levels
/// are floating-point products that the caller hands over with each block.
#[derive(Debug)]
pub struct StreamLevels {
    input_bits: u32,
    output_bits: u32,
}

impl StreamLevels {
    /// The input and the output level.
    pub closed spec fn levels(&self) -> (u32, u32) {
        (self.input_bits, self.output_bits)
    }

    /// Creates a meter pair at silence.
    pub fn new() -> (levels: Self)
        ensures
            levels.levels() == (0u32, 0u32),
    {
        StreamLevels { input_bits: 0, output_bits: 0 }
    }

    /// Folds one processed block into the meters: each level becomes the
    /// larger of the block's clamped peak and the decayed previous level. A
    /// sample that is not a number does not count.
    pub fn update(
        &mut self,
        input_block: &[u32],
        output_block: &[u32],
        decayed_input: u32,
        decayed_output: u32,
    )
        ensures
            final(self).levels() == (
                metered(input_block@, decayed_input),
                metered(output_block@, decayed_output),
            ),
    {
        self.input_bits = fold_peak(input_block, decayed_input);
        self.output_bits = fold_peak(output_block, decayed_output);
    }

    /// Resets both meters to silence (worker start and stop).
    pub fn reset(&mut self)
        ensures
            final(self).levels() == (0u32, 0u32),
    {
        self.input_bits = 0;
        self.output_bits = 0;
    }

    /// Decayed linear peak of the model input.
    pub fn input(&self) -> (level: u32)
        ensures
            level == self.levels().0,
    {
        self.input_bits
    }

    /// Decayed linear peak of the model output.
    pub fn output(&self) -> (level: u32)
        ensures
            level == self.levels().1,
    {
        self.output_bits
    }
}

impl Default for StreamLevels {
    fn default() -> (levels: Self)
        ensures
            levels.levels() == (0u32, 0u32),
    {
        StreamLevels::new()
    }
}

/// What a meter shows after a block.
fn fold_peak(block: &[u32], decayed: u32) -> (level: u32)
    ensures
        level == metered(block@, decayed),
{
    let peak: u32 = block_peak(block);
    let clamped: u32 = if peak > FULL_SCALE { FULL_SCALE } else { peak };
    if clamped > decayed {
        clamped
    } else {
        decayed
    }
}

/// A meter never leaves the range from silence to full scale, and never shows
/// less than the block's own clamped peak or than the level it has decayed to, and
/// always one of the two.
pub proof fn law_meter_stays_in_range(block: Seq<u32>, decayed: u32)
    requires
        decayed <= FULL_SCALE,
    ensures
        metered(block, decayed) <= FULL_SCALE,
        level::peak_of(block) <= FULL_SCALE ==> metered(block, decayed) >= level::peak_of(block),
        level::peak_of(block) > FULL_SCALE ==> metered(block, decayed) == FULL_SCALE,
        metered(block, decayed) >= decayed,
        metered(block, decayed) == decayed || metered(block, decayed) == level::peak_of(block)
            || metered(block, decayed) == FULL_SCALE && level::peak_of(block) > FULL_SCALE,
{
}

/// The inference worker's per-block time budget in nanoseconds: one engine
/// block is 10 ms of audio, and a worker that takes longer falls behind the
/// device clock.
pub const BLOCK_BUDGET_NS: u64 = 10_000_000;

/// What the worker's blocks took since the last reset.
pub struct BlockTimes {
    /// Blocks processed.
    pub blocks: u64,
    /// Blocks that took longer than the budget.
    pub over_budget: u64,
    /// The longest block.
    pub max_ns: u64,
}

/// The statistics after one more block. A counter at its limit starts over.
pub open spec fn timed(times: BlockTimes, elapsed_ns: u64) -> BlockTimes {
    BlockTimes {
        blocks: next_count(times.blocks),
        over_budget: if elapsed_ns > BLOCK_BUDGET_NS {
            next_count(times.over_budget)
        } else {
            times.over_budget
        },
        max_ns: if elapsed_ns > times.max_ns {
            elapsed_ns
        } else {
            times.max_ns
        },
    }
}

/// One more than a count, or zero at its limit.
pub open spec fn next_count(count: u64) -> u64 {
    if count == u64::MAX {
        0
    } else {
        (count + 1) as u64
    }
}

/// Per-block processing-time statistics of the inference worker.
#[derive(Debug)]
pub struct WorkerBlockStats {
    blocks: u64,
    over_budget: u64,
    max_ns: u64,
}

impl WorkerBlockStats {
    /// The statistics.
    pub closed spec fn times(&self) -> BlockTimes {
        BlockTimes { blocks: self.blocks, over_budget: self.over_budget, max_ns: self.max_ns }
    }

    /// Creates zeroed statistics.
    pub fn new() -> (stats: Self)
        ensures
            stats.times() == (BlockTimes { blocks: 0, over_budget: 0, max_ns: 0 }),
    {
        WorkerBlockStats { blocks: 0, over_budget: 0, max_ns: 0 }
    }

    /// Folds one block's processing time in.
    pub fn record(&mut self, elapsed_ns: u64)
        ensures
            final(self).times() == timed(old(self).times(), elapsed_ns),
    {
        self.blocks = count_up(self.blocks);
        if elapsed_ns > BLOCK_BUDGET_NS {
            self.over_budget = count_up(self.over_budget);
        }
        if elapsed_ns > self.max_ns {
            self.max_ns = elapsed_ns;
        }
    }

    /// Zeroes every counter.
    pub fn reset(&mut self)
        ensures
            final(self).times() == (BlockTimes { blocks: 0, over_budget: 0, max_ns: 0 }),
    {
        self.blocks = 0;
        self.over_budget = 0;
        self.max_ns = 0;
    }

    /// Blocks processed since the last reset.
    pub fn blocks(&self) -> (blocks: u64)
        ensures
            blocks == self.times().blocks,
    {
        self.blocks
    }

    /// Blocks that exceeded the budget since the last reset.
    pub fn over_budget(&self) -> (over_budget: u64)
        ensures
            over_budget == self.times().over_budget,
    {
        self.over_budget
    }

    /// Longest single block since the last reset, in nanoseconds.
    pub fn max_ns(&self) -> (max_ns: u64)
        ensures
            max_ns == self.times().max_ns,
    {
        self.max_ns
    }
}

impl Default for WorkerBlockStats {
    fn default() -> (stats: Self)
        ensures
            stats.times() == (BlockTimes { blocks: 0, over_budget: 0, max_ns: 0 }),
    {
        WorkerBlockStats::new()
    }
}

/// One more than a count, or zero at its limit.
fn count_up(count: u64) -> (next: u64)
    ensures
        next == next_count(count),
{
    match count.checked_add(1) {
        Some(next) => next,
        None => 0,
    }
}

/// A duration in nanoseconds, capped at what a counter can hold.
pub fn saturating_elapsed_ns(elapsed_ns: u128) -> (capped: u64)
    ensures
        capped == (if elapsed_ns > u64::MAX {
            u64::MAX as int
        } else {
            elapsed_ns as int
        }),
{
    if elapsed_ns > u64::MAX as u128 {
        u64::MAX
    } else {
        elapsed_ns as u64
    }
}

/// The statistics after a run of blocks.
pub open spec fn timed_all(times: BlockTimes, elapsed: Seq<u64>) -> BlockTimes
    decreases elapsed.len(),
{
    if elapsed.len() == 0 {
        times
    } else {
        timed(timed_all(times, elapsed.drop_last()), elapsed.last())
    }
}

/// How many blocks of a run took longer than the budget.
pub open spec fn overruns(elapsed: Seq<u64>) -> nat
    decreases elapsed.len(),
{
    if elapsed.len() == 0 {
        0
    } else if elapsed.last() > BLOCK_BUDGET_NS {
        overruns(elapsed.drop_last()) + 1
    } else {
        overruns(elapsed.drop_last())
    }
}

/// From a reset, the statistics count every block, every overrun, and the
/// longest block of the run.
pub proof fn law_statistics_describe_the_run(elapsed: Seq<u64>)
    requires
        elapsed.len() <= u64::MAX,
    ensures
        ({
            let times = timed_all(
                BlockTimes { blocks: 0, over_budget: 0, max_ns: 0 },
                elapsed,
            );
            &&& times.blocks == elapsed.len()
            &&& times.over_budget == overruns(elapsed)
            &&& overruns(elapsed) <= elapsed.len()
            &&& forall|i: int|
                0 <= i < elapsed.len() ==> #[trigger] elapsed[i] <= times.max_ns
            &&& elapsed.len() > 0 ==> elapsed.contains(times.max_ns)
        }),
    decreases elapsed.len(),
{
    if elapsed.len() > 0 {
        let rest = elapsed.drop_last();
        law_statistics_describe_the_run(rest);
        let before = timed_all(BlockTimes { blocks: 0, over_budget: 0, max_ns: 0 }, rest);
        let times = timed_all(BlockTimes { blocks: 0, over_budget: 0, max_ns: 0 }, elapsed);
        assert forall|i: int| 0 <= i < elapsed.len() implies #[trigger] elapsed[i]
            <= times.max_ns by {
            if i < rest.len() {
                assert(rest[i] == elapsed[i]);
            }
        }
        if elapsed.last() > before.max_ns || rest.len() == 0 {
            assert(elapsed[elapsed.len() - 1] == times.max_ns);
        } else {
            let i = choose|i: int| 0 <= i < rest.len() && rest[i] == before.max_ns;
            assert(elapsed[i] == times.max_ns);
        }
    }
}

} // verus!
