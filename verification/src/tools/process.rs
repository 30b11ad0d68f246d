//! Batch processing of a clip through a block stage, aligned with its input.

use vstd::prelude::*;

use crate::engine::offline;
use crate::engine::offline::align_output;
use crate::signal::block::{BlockStage, FrameProcessor, StageError};
use crate::signal::framed;
use crate::signal::framed::{FramedMemory, FramedStage};
use crate::signal::ring;
use crate::signal::ring::SILENCE;
use crate::signal::runner::RateConverter;

verus! {

/// Block size used to drive stages, that of the live worker.
pub const BLOCK_LEN: usize = 480;

/// One block of a clip, padded with silence where the clip has ended.
pub open spec fn clip_block(clip: Seq<u32>, index: int) -> Seq<u32> {
    Seq::new(
        BLOCK_LEN as nat,
        |k: int|
            if index * BLOCK_LEN + k < clip.len() {
                clip[index * BLOCK_LEN + k]
            } else {
                SILENCE
            },
    )
}

/// Blocks needed for a clip and a delay.
pub open spec fn blocks_for(len: int, latency: int) -> int {
    (len + latency + BLOCK_LEN - 1) / (BLOCK_LEN as int)
}

/// What a stage answers to the blocks `from..total` of a clip: all its output
/// blocks in a row, or its first error.
pub open spec fn driven<S: BlockStage>(
    state: S::State,
    clip: Seq<u32>,
    from: int,
    total: int,
) -> Result<Seq<u32>, StageError>
    decreases total - from,
{
    if from >= total {
        Ok(Seq::empty())
    } else {
        match S::outcome(state, clip_block(clip, from)) {
            Err(error) => Err(error),
            Ok(block) => match driven::<S>(
                S::next(state, clip_block(clip, from)),
                clip,
                from + 1,
                total,
            ) {
                Err(error) => Err(error),
                Ok(rest) => Ok(block + rest),
            },
        }
    }
}

/// What a stage remembers once it has heard exactly the blocks `from..total` of a
/// clip.
pub open spec fn heard_through<S: BlockStage>(
    state: S::State,
    clip: Seq<u32>,
    from: int,
    total: int,
) -> S::State
    decreases total - from,
{
    if from >= total {
        state
    } else {
        heard_through::<S>(S::next(state, clip_block(clip, from)), clip, from + 1, total)
    }
}

/// One block of a clip, padded with silence where the clip has ended.
fn read_block(clip: &[u32], index: usize) -> (block: Vec<u32>)
    requires
        (index + 1) * BLOCK_LEN <= usize::MAX,
    ensures
        block@ == clip_block(clip@, index as int),
{
    let start: usize = index * BLOCK_LEN;
    let mut block: Vec<u32> = Vec::with_capacity(BLOCK_LEN);
    while block.len() < BLOCK_LEN
        invariant
            start == index * BLOCK_LEN,
            (index + 1) * BLOCK_LEN <= usize::MAX,
            block@.len() <= BLOCK_LEN,
            block@ == clip_block(clip@, index as int).take(block@.len() as int),
        decreases BLOCK_LEN - block@.len(),
    {
        let at: usize = start + block.len();
        block.push(if at < clip.len() { clip[at] } else { SILENCE });
        assert(block@ =~= clip_block(clip@, index as int).take(block@.len() as int));
    }
    assert(block@ =~= clip_block(clip@, index as int));
    block
}

/// Runs a clip through a stage, compensating the stage's internal buffering so
/// that the output is aligned with the input and has its length.
pub fn run_stage_aligned<S: BlockStage>(stage: &mut S, input: &[u32]) -> (result: Result<
    Vec<u32>,
    StageError,
>)
    requires
        old(stage).wf(),
        input@.len() + old(stage).delay() + BLOCK_LEN <= usize::MAX,
    ensures
        final(stage).wf(),
        final(stage).name() == old(stage).name(),
        final(stage).delay() == old(stage).delay(),
        match driven::<S>(
            old(stage).state(),
            input@,
            0,
            blocks_for(input@.len() as int, old(stage).delay() as int),
        ) {
            Ok(samples) => {
                &&& result matches Ok(output)
                &&& output@ == offline::aligned(samples, old(stage).delay() as int, input@.len())
                &&& final(stage).state() == heard_through::<S>(
                    old(stage).state(),
                    input@,
                    0,
                    blocks_for(input@.len() as int, old(stage).delay() as int),
                )
            },
            Err(error) => result == Err::<Vec<u32>, StageError>(error),
        },
        result matches Ok(output) ==> {
            let total = blocks_for(input@.len() as int, old(stage).delay() as int);
            let made = driven::<S>(old(stage).state(), input@, 0, total)->Ok_0;
            &&& made.len() == total * BLOCK_LEN
            &&& output@.len() == input@.len()
            &&& forall|k: int|
                0 <= k < input@.len() ==> #[trigger] output@[k] == made[old(stage).delay() + k]
        },
{
    let latency: usize = stage.latency_samples();
    let padded_len: usize = input.len() + latency;
    let total: usize = (padded_len + (BLOCK_LEN - 1)) / BLOCK_LEN;
    let mut samples: Vec<u32> = Vec::new();
    let mut index: usize = 0;
    let ghost first = stage.state();
    proof {
        match driven::<S>(first, input@, 0, total as int) {
            Err(_) => {},
            Ok(rest) => {
                assert(samples@ + rest =~= rest);
            },
        }
    }
    while index < total
        invariant
            index <= total,
            total * BLOCK_LEN <= usize::MAX,
            stage.wf(),
            stage.name() == old(stage).name(),
            stage.delay() == old(stage).delay(),
            first == old(stage).state(),
            total == blocks_for(input@.len() as int, old(stage).delay() as int),
            samples@.len() == index * BLOCK_LEN,
            driven::<S>(first, input@, 0, total as int) == (match driven::<S>(
                stage.state(),
                input@,
                index as int,
                total as int,
            ) {
                Err(error) => Err::<Seq<u32>, StageError>(error),
                Ok(rest) => Ok(samples@ + rest),
            }),
            heard_through::<S>(first, input@, 0, total as int) == heard_through::<S>(
                stage.state(),
                input@,
                index as int,
                total as int,
            ),
        decreases total - index,
    {
        let block: Vec<u32> = read_block(input, index);
        let mut output: Vec<u32> = vec![0; BLOCK_LEN];
        match stage.process_block(block.as_slice(), output.as_mut_slice()) {
            Err(error) => {
                return Err(error);
            },
            Ok(()) => {},
        }
        let ghost so_far = samples@;
        samples.extend_from_slice(output.as_slice());
        index = index + 1;
        proof {
            assert(samples@ =~= so_far + output@);
            match driven::<S>(stage.state(), input@, index as int, total as int) {
                Err(_) => {},
                Ok(rest) => {
                    assert(so_far + (output@ + rest) =~= samples@ + rest);
                },
            }
        }
    }
    assert(samples@ + Seq::<u32>::empty() =~= samples@);
    proof {
        law_blocks_suffice(input@.len() as int, latency as int);
    }
    Ok(align_output(&samples, latency, input.len()))
}

/// The blocks fed suffice: every output sample lies inside what the stage
/// answered, so the output is never padded, and less than a block is fed in
/// vain.
pub proof fn law_blocks_suffice(len: int, latency: int)
    requires
        len >= 0,
        latency >= 0,
    ensures
        latency + len <= blocks_for(len, latency) * BLOCK_LEN < latency + len + BLOCK_LEN,
{
}

/// The blocks fed to a stage, put in a row, are the clip and then only silence.
pub proof fn law_blocks_hold_the_clip(clip: Seq<u32>, index: int, k: int)
    requires
        index >= 0,
        0 <= k < BLOCK_LEN,
    ensures
        clip_block(clip, index).len() == BLOCK_LEN,
        clip_block(clip, index)[k] == (clip + Seq::new(
            (BLOCK_LEN * (index + 1)) as nat,
            |i: int| SILENCE,
        ))[index * BLOCK_LEN + k],
{
}

/// What a stage remembers after one block more is what that block made of what it
/// remembered before.
proof fn lemma_one_block_more<S: BlockStage>(state: S::State, clip: Seq<u32>, from: int, j: int)
    requires
        0 <= from <= j,
    ensures
        heard_through::<S>(state, clip, from, j + 1) == S::next(
            heard_through::<S>(state, clip, from, j),
            clip_block(clip, j),
        ),
    decreases j - from,
{
    let next = S::next(state, clip_block(clip, from));
    if from < j {
        lemma_one_block_more::<S>(next, clip, from + 1, j);
    } else {
        assert(heard_through::<S>(next, clip, from + 1, j + 1) == next);
    }
}

/// What a stage makes of a clip are its answers to the successive blocks of it, in
/// their order: the samples of block `j` are what a stage answers to block `j` that
/// has heard exactly the blocks before it.
pub proof fn law_each_block_is_answered<S: BlockStage>(
    state: S::State,
    clip: Seq<u32>,
    total: int,
    j: int,
)
    requires
        0 <= j < total,
        driven::<S>(state, clip, 0, total) is Ok,
        forall|s: S::State, block: Seq<u32>|
            (#[trigger] S::outcome(s, block)) matches Ok(answer) ==> answer.len() == block.len(),
    ensures
        driven::<S>(state, clip, 0, total)->Ok_0.len() == total * BLOCK_LEN,
        S::outcome(heard_through::<S>(state, clip, 0, j), clip_block(clip, j)) == Ok::<
            Seq<u32>,
            StageError,
        >(
            driven::<S>(state, clip, 0, total)->Ok_0.subrange(
                j * BLOCK_LEN,
                (j + 1) * BLOCK_LEN,
            ),
        ),
        heard_through::<S>(state, clip, 0, 0) == state,
        heard_through::<S>(state, clip, 0, j + 1) == S::next(
            heard_through::<S>(state, clip, 0, j),
            clip_block(clip, j),
        ),
{
    lemma_one_block_more::<S>(state, clip, 0, j);
    lemma_answers_from::<S>(state, clip, 0, total, j);
}

proof fn lemma_answers_from<S: BlockStage>(
    state: S::State,
    clip: Seq<u32>,
    from: int,
    total: int,
    j: int,
)
    requires
        0 <= from <= j,
        j < total || j == from == total,
        driven::<S>(state, clip, from, total) is Ok,
        forall|s: S::State, block: Seq<u32>|
            (#[trigger] S::outcome(s, block)) matches Ok(answer) ==> answer.len() == block.len(),
    ensures
        driven::<S>(state, clip, from, total)->Ok_0.len() == (total - from) * BLOCK_LEN,
        j < total ==> S::outcome(heard_through::<S>(state, clip, from, j), clip_block(clip, j))
            == Ok::<Seq<u32>, StageError>(
            driven::<S>(state, clip, from, total)->Ok_0.subrange(
                (j - from) * BLOCK_LEN,
                (j - from + 1) * BLOCK_LEN,
            ),
        ),
    decreases total - from,
{
    if from < total {
        let next = S::next(state, clip_block(clip, from));
        let block = S::outcome(state, clip_block(clip, from))->Ok_0;
        let rest = driven::<S>(next, clip, from + 1, total)->Ok_0;
        assert(block.len() == BLOCK_LEN);
        let later: int = if j > from {
            j
        } else {
            from + 1
        };
        if later < total || from + 1 == total {
            lemma_answers_from::<S>(next, clip, from + 1, total, later);
        }
        if j == from {
            assert((block + rest).subrange(0, BLOCK_LEN as int) =~= block);
        } else {
            assert((block + rest).subrange(
                (j - from) * BLOCK_LEN,
                (j - from + 1) * BLOCK_LEN,
            ) =~= rest.subrange((j - from - 1) * BLOCK_LEN, (j - from) * BLOCK_LEN));
        }
    }
}

/// A stage that copies its blocks and declares no delay gives a clip back exactly.
pub proof fn law_a_copy_gives_the_clip_back<S: BlockStage>(
    state: S::State,
    clip: Seq<u32>,
    from: int,
    total: int,
)
    requires
        0 <= from <= total,
        forall|s: S::State, block: Seq<u32>|
            (#[trigger] S::outcome(s, block)) == Ok::<Seq<u32>, StageError>(block),
    ensures
        driven::<S>(state, clip, from, total) == Ok::<Seq<u32>, StageError>(
            offline::aligned(clip, from * BLOCK_LEN, ((total - from) * BLOCK_LEN) as nat),
        ),
        from == 0 && total == blocks_for(clip.len() as int, 0) ==> offline::aligned(
            driven::<S>(state, clip, 0, total)->Ok_0,
            0,
            clip.len(),
        ) == clip,
    decreases total - from,
{
    let all = offline::aligned(clip, from * BLOCK_LEN, ((total - from) * BLOCK_LEN) as nat);
    if from == total {
        assert(all =~= Seq::<u32>::empty());
    } else {
        let next = S::next(state, clip_block(clip, from));
        law_a_copy_gives_the_clip_back::<S>(next, clip, from + 1, total);
        let rest = driven::<S>(next, clip, from + 1, total)->Ok_0;
        assert(S::outcome(state, clip_block(clip, from)) == Ok::<Seq<u32>, StageError>(
            clip_block(clip, from),
        ));
        assert(clip_block(clip, from) + rest =~= all);
    }
    if from == 0 && total == blocks_for(clip.len() as int, 0) {
        law_blocks_suffice(clip.len() as int, 0);
        assert(offline::aligned(all, 0, clip.len()) =~= clip);
    }
}

/// An adapter at the engine's rate around a processor that copies its frames gives what
/// was inside it and then the clip.
proof fn lemma_framed_copy_is_driven<P: FrameProcessor, C: RateConverter>(
    memory: FramedMemory<P, C>,
    clip: Seq<u32>,
    from: int,
    total: int,
)
    requires
        0 <= from <= total,
        memory.factor == 1,
        framed::copying::<P>(memory.round),
        framed::balanced(memory.inner, memory.round),
    ensures
        driven::<FramedStage<P, C>>(memory, clip, from, total) == Ok::<Seq<u32>, StageError>(
            (framed::inside(memory.inner) + offline::aligned(
                clip,
                from * BLOCK_LEN,
                ((total - from) * BLOCK_LEN) as nat,
            )).take((total - from) * BLOCK_LEN),
        ),
    decreases total - from,
{
    let inside = framed::inside(memory.inner);
    let len = (total - from) * BLOCK_LEN;
    let expected = (inside + offline::aligned(clip, from * BLOCK_LEN, len as nat)).take(len);
    if from == total {
        assert(expected =~= Seq::<u32>::empty());
    } else {
        let input = clip_block(clip, from);
        framed::law_native_copy_is_a_delay_line(memory.inner, input, memory.round);
        let (output, inner) = framed::stepped(memory.inner, input, memory.round, 1);
        let next = FramedMemory { inner, ..memory };
        assert(<FramedStage<P, C> as BlockStage>::outcome(memory, input) == Ok::<
            Seq<u32>,
            StageError,
        >(output));
        assert(<FramedStage<P, C> as BlockStage>::next(memory, input) == next);
        lemma_framed_copy_is_driven::<P, C>(next, clip, from + 1, total);
        let rest = offline::aligned(
            clip,
            (from + 1) * BLOCK_LEN,
            ((total - from - 1) * BLOCK_LEN) as nat,
        );
        assert(offline::aligned(clip, from * BLOCK_LEN, len as nat) =~= input + rest);
        assert(inside + (input + rest) =~= (inside + input) + rest);
        assert((output + framed::inside(inner)) + rest =~= output + (framed::inside(inner)
            + rest));
        assert(expected =~= output + (framed::inside(inner) + rest).take(
            (total - from - 1) * BLOCK_LEN,
        ));
    }
}

/// A clip that is run through a new adapter at the engine's rate, around a processor
/// that copies its frames without delay, comes back exactly once the latency is taken
/// off: what is heard is the model, not its adapter.
pub proof fn law_clip_through_a_framed_copy_comes_back<P: FrameProcessor, C: RateConverter>(
    memory: FramedMemory<P, C>,
    clip: Seq<u32>,
    latency: usize,
)
    requires
        memory.factor == 1,
        memory.round > 0,
        framed::copying::<P>(memory.round),
        memory.inner.waiting == Seq::<u32>::empty(),
        memory.inner.ready == ring::silence(memory.round),
        latency == memory.round,
    ensures
        ({
            let made = driven::<FramedStage<P, C>>(
                memory,
                clip,
                0,
                blocks_for(clip.len() as int, latency as int),
            );
            &&& made is Ok
            &&& offline::aligned(made->Ok_0, latency as int, clip.len()) == clip
        }),
{
    let total = blocks_for(clip.len() as int, latency as int);
    framed::law_fresh_adapter_is_balanced(memory.inner, memory.round);
    law_blocks_suffice(clip.len() as int, latency as int);
    lemma_framed_copy_is_driven::<P, C>(memory, clip, 0, total);
    let made = driven::<FramedStage<P, C>>(memory, clip, 0, total)->Ok_0;
    assert(offline::aligned(made, latency as int, clip.len()) =~= clip);
}

} // verus!
