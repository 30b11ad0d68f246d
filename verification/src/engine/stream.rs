//! What stages and adapters make of a whole stream.
//!
//! The frame contract speaks of one frame at a time. Here the frames are put in a
//! row: a stream goes in, cut into frames, and the answers to the successive
//! frames, put in a row, come out.

use vstd::prelude::*;

use crate::engine::offline;
use crate::engine::offline::DelayCompensation;
use crate::engine::rate;
use crate::engine::rate::{AdapterMemory, AdapterState, ConverterSizes, FixedResampler, RateAdapter};
use crate::engine::stage::{
    AudioStage,
    StageDescriptor,
    StageFault,
    PIPELINE_FRAME_SAMPLES,
    PIPELINE_SAMPLE_RATE,
};
use crate::signal::frames;
use crate::signal::ring;

verus! {

/// What a stage remembers once it has heard the first `count` frames of a stream.
pub open spec fn stage_after<A: AudioStage>(
    state: A::State,
    stream: Seq<u32>,
    frame: nat,
    count: nat,
) -> A::State
    decreases count,
{
    if count == 0 {
        state
    } else {
        A::next(
            stage_after::<A>(state, stream, frame, (count - 1) as nat),
            frames::cut(stream, frame, count - 1),
        )
    }
}

/// What a stage answers to the first `count` frames of a stream, put in a row.
pub open spec fn stage_answers<A: AudioStage>(
    state: A::State,
    stream: Seq<u32>,
    frame: nat,
    count: nat,
) -> Seq<u32>
    decreases count,
{
    if count == 0 {
        Seq::empty()
    } else {
        stage_answers::<A>(state, stream, frame, (count - 1) as nat) + A::outcome(
            stage_after::<A>(state, stream, frame, (count - 1) as nat),
            frames::cut(stream, frame, count - 1),
        )->Ok_0
    }
}

/// Whether a stage answers each of the first `count` frames of a stream.
pub open spec fn answers_all<A: AudioStage>(
    state: A::State,
    stream: Seq<u32>,
    frame: nat,
    count: nat,
) -> bool {
    forall|k: int|
        0 <= k < count ==> (#[trigger] A::outcome(
            stage_after::<A>(state, stream, frame, k as nat),
            frames::cut(stream, frame, k),
        )) is Ok
}

/// A converter once it has converted the first `count` blocks of a stream.
pub open spec fn converter_after<R: FixedResampler>(
    converter: R,
    stream: Seq<u32>,
    block: nat,
    count: nat,
) -> R
    decreases count,
{
    if count == 0 {
        converter
    } else {
        converter_after(converter, stream, block, (count - 1) as nat).after(
            frames::cut(stream, block, count - 1),
        )
    }
}

/// What a converter makes of the first `count` blocks of a stream, put in a row.
pub open spec fn converter_answers<R: FixedResampler>(
    converter: R,
    stream: Seq<u32>,
    block: nat,
    count: nat,
) -> Seq<u32>
    decreases count,
{
    if count == 0 {
        Seq::empty()
    } else {
        converter_answers(converter, stream, block, (count - 1) as nat) + converter_after(
            converter,
            stream,
            block,
            (count - 1) as nat,
        ).outcome(frames::cut(stream, block, count - 1))->Ok_0
    }
}

/// The native stream that an adapter's model hears of the first `count` pipeline
/// frames of a stream.
pub open spec fn heard_by_model<T, R: FixedResampler>(
    start: AdapterMemory<T, R>,
    stream: Seq<u32>,
    count: nat,
) -> Seq<u32> {
    match start.inner.down {
        None => stream.take((count * PIPELINE_FRAME_SAMPLES) as int),
        Some(down) => converter_answers(down, stream, PIPELINE_FRAME_SAMPLES as nat, count),
    }
}

/// The model's answers to all the complete frames of what it hears.
pub open spec fn said_by_model<A: AudioStage, R: FixedResampler>(
    start: AdapterMemory<A::State, R>,
    stream: Seq<u32>,
    count: nat,
) -> Seq<u32> {
    let heard = heard_by_model(start, stream, count);
    let frame = start.native.frame_samples as nat;
    stage_answers::<A>(start.inner.stage, heard, frame, heard.len() / frame)
}

/// The pipeline samples that come of it, by all the complete blocks of what the
/// model said.
pub open spec fn made_of<A: AudioStage, R: FixedResampler>(
    start: AdapterMemory<A::State, R>,
    stream: Seq<u32>,
    count: nat,
) -> Seq<u32> {
    let said = said_by_model::<A, R>(start, stream, count);
    let block = start.plan.upsampler_input as nat;
    match start.inner.up {
        None => said,
        Some(up) => converter_answers(up, said, block, said.len() / block),
    }
}

/// Whether an adapter has heard nothing yet.
pub open spec fn is_fresh<T, R>(memory: AdapterMemory<T, R>) -> bool {
    &&& memory.inner.native_input.len() == 0
    &&& memory.inner.native_output.len() == 0
    &&& memory.inner.pipeline_output.len() == 0
    &&& !memory.inner.started
    &&& memory.native.frame_samples > 0
    &&& memory.plan.upsampler_input > 0
}

/// What lies behind the frames that were heard changes nothing.
proof fn lemma_stage_hears_a_prefix<A: AudioStage>(
    state: A::State,
    stream: Seq<u32>,
    more: Seq<u32>,
    frame: nat,
    count: nat,
)
    requires
        count * frame <= stream.len(),
    ensures
        stage_after::<A>(state, stream + more, frame, count) == stage_after::<A>(
            state,
            stream,
            frame,
            count,
        ),
        stage_answers::<A>(state, stream + more, frame, count) == stage_answers::<A>(
            state,
            stream,
            frame,
            count,
        ),
    decreases count,
{
    if count > 0 {
        frames::lemma_next_frame(count - 1, frame);
        lemma_stage_hears_a_prefix::<A>(state, stream, more, frame, (count - 1) as nat);
        assert(frames::cut(stream + more, frame, count - 1) =~= frames::cut(
            stream,
            frame,
            count - 1,
        ));
    }
}

/// What lies behind the blocks that were converted changes nothing.
proof fn lemma_converter_hears_a_prefix<R: FixedResampler>(
    converter: R,
    stream: Seq<u32>,
    more: Seq<u32>,
    block: nat,
    count: nat,
)
    requires
        count * block <= stream.len(),
    ensures
        converter_after(converter, stream + more, block, count) == converter_after(
            converter,
            stream,
            block,
            count,
        ),
        converter_answers(converter, stream + more, block, count) == converter_answers(
            converter,
            stream,
            block,
            count,
        ),
    decreases count,
{
    if count > 0 {
        frames::lemma_next_frame(count - 1, block);
        lemma_converter_hears_a_prefix(converter, stream, more, block, (count - 1) as nat);
        assert(frames::cut(stream + more, block, count - 1) =~= frames::cut(
            stream,
            block,
            count - 1,
        ));
    }
}

/// Running the model over all complete frames, from a state in which it has
/// answered `done` frames of what it heard.
proof fn lemma_model_goes_on<A: AudioStage, R>(
    state: AdapterState<A::State, R>,
    frame: nat,
    first: A::State,
    heard: Seq<u32>,
    done: nat,
    earlier: Seq<u32>,
)
    requires
        frame > 0,
        done * frame <= heard.len(),
        state.native_input == heard.skip((done * frame) as int),
        state.stage == stage_after::<A>(first, heard, frame, done),
        earlier + state.native_output == stage_answers::<A>(first, heard, frame, done),
        rate::modelled::<A, R>(state, frame) is Ok,
    ensures
        ({
            let all = (heard.len() / frame) as nat;
            let after = rate::modelled::<A, R>(state, frame)->Ok_0;
            &&& done <= all
            &&& after.native_input == heard.skip((all * frame) as int)
            &&& after.stage == stage_after::<A>(first, heard, frame, all)
            &&& earlier + after.native_output == stage_answers::<A>(first, heard, frame, all)
            &&& after.down == state.down
            &&& after.up == state.up
            &&& after.pipeline_output == state.pipeline_output
            &&& after.started == state.started
        }),
    decreases state.native_input.len(),
{
    if state.native_input.len() < frame {
        frames::lemma_complete_frames(heard.len(), frame, done);
    } else {
        frames::lemma_next_frame(done as int, frame);
        let block = state.native_input.take(frame as int);
        assert(block =~= frames::cut(heard, frame, done as int));
        let output = A::outcome(state.stage, block)->Ok_0;
        let next = AdapterState {
            stage: A::next(state.stage, block),
            native_input: state.native_input.skip(frame as int),
            native_output: state.native_output + output,
            ..state
        };
        assert(next.native_input =~= heard.skip(((done + 1) * frame) as int));
        assert(earlier + (state.native_output + output) =~= (earlier + state.native_output)
            + output);
        lemma_model_goes_on::<A, R>(next, frame, first, heard, done + 1, earlier);
    }
}

/// Converting all complete blocks, from a state in which `done` blocks of what the
/// model said have been converted.
proof fn lemma_converter_goes_on<T, R: FixedResampler>(
    state: AdapterState<T, R>,
    block: nat,
    first: R,
    said: Seq<u32>,
    done: nat,
    earlier: Seq<u32>,
)
    requires
        block > 0,
        done * block <= said.len(),
        state.native_output == said.skip((done * block) as int),
        state.up == Some(converter_after(first, said, block, done)),
        earlier + state.pipeline_output == converter_answers(first, said, block, done),
        rate::upsampled(state, block) is Ok,
    ensures
        ({
            let all = (said.len() / block) as nat;
            let after = rate::upsampled(state, block)->Ok_0;
            &&& after.native_output == said.skip((all * block) as int)
            &&& after.up == Some(converter_after(first, said, block, all))
            &&& earlier + after.pipeline_output == converter_answers(first, said, block, all)
            &&& after.down == state.down
            &&& after.stage == state.stage
            &&& after.native_input == state.native_input
            &&& after.started == state.started
        }),
    decreases state.native_output.len(),
{
    if state.native_output.len() < block {
        frames::lemma_complete_frames(said.len(), block, done);
    } else {
        frames::lemma_next_frame(done as int, block);
        let input = state.native_output.take(block as int);
        assert(input =~= frames::cut(said, block, done as int));
        let converter = state.up->0;
        let output = converter.outcome(input)->Ok_0;
        let next = AdapterState {
            up: Some(converter.after(input)),
            native_output: state.native_output.skip(block as int),
            pipeline_output: state.pipeline_output + output,
            ..state
        };
        assert(next.native_output =~= said.skip(((done + 1) * block) as int));
        assert(earlier + (state.pipeline_output + output) =~= (earlier + state.pipeline_output)
            + output);
        lemma_converter_goes_on(next, block, first, said, done + 1, earlier);
    }
}

/// Where an adapter stands that has heard the first `count` frames of a stream, and
/// has played `played` of what was made of them.
pub open spec fn stands_at<A: AudioStage, R: FixedResampler>(
    now: AdapterMemory<A::State, R>,
    start: AdapterMemory<A::State, R>,
    stream: Seq<u32>,
    count: nat,
    played: Seq<u32>,
) -> bool {
    let heard = heard_by_model(start, stream, count);
    let said = said_by_model::<A, R>(start, stream, count);
    let frame = start.native.frame_samples as nat;
    let block = start.plan.upsampler_input as nat;
    &&& now.native == start.native
    &&& now.plan == start.plan
    &&& now.inner.down == (match start.inner.down {
        None => None,
        Some(down) => Some(
            converter_after(down, stream, PIPELINE_FRAME_SAMPLES as nat, count),
        ),
    })
    &&& now.inner.native_input == heard.skip(((heard.len() / frame) * frame) as int)
    &&& now.inner.stage == stage_after::<A>(
        start.inner.stage,
        heard,
        frame,
        heard.len() / frame,
    )
    &&& match start.inner.up {
        None => now.inner.up is None && now.inner.native_output.len() == 0,
        Some(up) => {
            &&& now.inner.up == Some(converter_after(up, said, block, said.len() / block))
            &&& now.inner.native_output == said.skip(((said.len() / block) * block) as int)
        },
    }
    &&& played + now.inner.pipeline_output == made_of::<A, R>(start, stream, count)
}

/// One pipeline frame more goes through the converters and the model in its turn.
proof fn lemma_taken_in_turn<A: AudioStage, R: FixedResampler>(
    now: AdapterMemory<A::State, R>,
    start: AdapterMemory<A::State, R>,
    stream: Seq<u32>,
    count: nat,
    played: Seq<u32>,
)
    requires
        is_fresh(start),
        stands_at::<A, R>(now, start, stream, count, played),
        (count + 1) * PIPELINE_FRAME_SAMPLES <= stream.len(),
        rate::taken_in::<A, R>(
            now,
            frames::cut(stream, PIPELINE_FRAME_SAMPLES as nat, count as int),
        ) is Ok,
    ensures
        stands_at::<A, R>(
            AdapterMemory {
                inner: rate::taken_in::<A, R>(
                    now,
                    frames::cut(stream, PIPELINE_FRAME_SAMPLES as nat, count as int),
                )->Ok_0,
                ..now
            },
            start,
            stream,
            count + 1,
            played,
        ),
        rate::taken_in::<A, R>(
            now,
            frames::cut(stream, PIPELINE_FRAME_SAMPLES as nat, count as int),
        )->Ok_0.started == now.inner.started,
{
    let input = frames::cut(stream, PIPELINE_FRAME_SAMPLES as nat, count as int);
    let frame = start.native.frame_samples as nat;
    let block = start.plan.upsampler_input as nat;
    let heard = heard_by_model(start, stream, count);
    let more = heard_by_model(start, stream, count + 1);
    let (native, down) = rate::native_samples(now, input)->Ok_0;
    assert(more =~= heard + native);
    let done = (heard.len() / frame) as nat;
    frames::lemma_complete_frames_fit(heard.len(), frame);
    lemma_stage_hears_a_prefix::<A>(start.inner.stage, heard, native, frame, done);
    let begun = AdapterState {
        down,
        native_input: now.inner.native_input + native,
        ..now.inner
    };
    assert(begun.native_input =~= more.skip((done * frame) as int));
    let said = said_by_model::<A, R>(start, stream, count);
    let all = said_by_model::<A, R>(start, stream, count + 1);
    match start.inner.up {
        None => {
            assert(said + begun.native_output =~= said);
            lemma_model_goes_on::<A, R>(begun, frame, start.inner.stage, more, done, said);
            let ran = rate::modelled::<A, R>(begun, frame)->Ok_0;
            let after = rate::upsampled(ran, block)->Ok_0;
            assert(played + (begun.pipeline_output + ran.native_output) =~= (played
                + begun.pipeline_output) + ran.native_output);
        },
        Some(up) => {
            let converted = (said.len() / block) as nat;
            frames::lemma_complete_frames_fit(said.len(), block);
            let earlier = said.take((converted * block) as int);
            assert(earlier + begun.native_output =~= said);
            lemma_model_goes_on::<A, R>(begun, frame, start.inner.stage, more, done, earlier);
            let ran = rate::modelled::<A, R>(begun, frame)->Ok_0;
            assert(earlier + ran.native_output == all);
            lemma_answers_grow::<A>(
                start.inner.stage,
                more,
                frame,
                done,
                (more.len() / frame) as nat,
            );
            let news = all.skip(said.len() as int);
            assert(all =~= said + news);
            lemma_converter_hears_a_prefix(up, said, news, block, converted);
            assert(ran.native_output =~= all.skip((converted * block) as int));
            lemma_converter_goes_on(ran, block, up, all, converted, played);
        },
    }
}

/// More frames only add answers.
proof fn lemma_answers_grow<A: AudioStage>(
    state: A::State,
    stream: Seq<u32>,
    frame: nat,
    fewer: nat,
    count: nat,
)
    requires
        fewer <= count,
    ensures
        ({
            let before = stage_answers::<A>(state, stream, frame, fewer);
            let after = stage_answers::<A>(state, stream, frame, count);
            &&& before.len() <= after.len()
            &&& after.take(before.len() as int) == before
        }),
    decreases count,
{
    let before = stage_answers::<A>(state, stream, frame, fewer);
    if fewer < count {
        lemma_answers_grow::<A>(state, stream, frame, fewer, (count - 1) as nat);
        let last = stage_answers::<A>(state, stream, frame, (count - 1) as nat);
        let after = stage_answers::<A>(state, stream, frame, count);
        assert(after.take(before.len() as int) =~= last.take(before.len() as int));
    } else {
        assert(before.take(before.len() as int) =~= before);
    }
}

/// How many of the first `count` frames an adapter answers before it plays.
pub open spec fn silent_frames<A: AudioStage, R: FixedResampler>(
    start: AdapterMemory<A::State, R>,
    stream: Seq<u32>,
    count: nat,
) -> nat
    decreases count,
{
    if count == 0 {
        0
    } else {
        let before = silent_frames::<A, R>(start, stream, (count - 1) as nat);
        if stage_after::<RateAdapter<A, R>>(
            start,
            stream,
            PIPELINE_FRAME_SAMPLES as nat,
            count,
        ).inner.started {
            before
        } else {
            before + 1
        }
    }
}

/// Whatever the frame lengths and the rates, an adapter plays in order and loses
/// nothing: what it has answered and what it holds ready, put in a row, are the
/// silence before it plays and then what its upward converter makes of the model's
/// answers to the successive frames of what the downward converter gave.
pub proof fn law_adapter_plays_the_models_answers_in_order<A: AudioStage, R: FixedResampler>(
    start: AdapterMemory<A::State, R>,
    stream: Seq<u32>,
    count: nat,
)
    requires
        is_fresh(start),
        count * PIPELINE_FRAME_SAMPLES <= stream.len(),
        start.inner.down is None <==> start.inner.up is None,
        answers_all::<RateAdapter<A, R>>(start, stream, PIPELINE_FRAME_SAMPLES as nat, count),
    ensures
        ({
            let now = stage_after::<RateAdapter<A, R>>(
                start,
                stream,
                PIPELINE_FRAME_SAMPLES as nat,
                count,
            );
            let answers = stage_answers::<RateAdapter<A, R>>(
                start,
                stream,
                PIPELINE_FRAME_SAMPLES as nat,
                count,
            );
            let silent = silent_frames::<A, R>(start, stream, count);
            &&& answers.len() == count * PIPELINE_FRAME_SAMPLES
            &&& silent <= count
            &&& now.inner.started <==> silent < count
            &&& answers + now.inner.pipeline_output == ring::silence(
                (silent * PIPELINE_FRAME_SAMPLES) as nat,
            ) + made_of::<A, R>(start, stream, count)
            &&& stands_at::<A, R>(
                now,
                start,
                stream,
                count,
                answers.skip((silent * PIPELINE_FRAME_SAMPLES) as int),
            )
        }),
    decreases count,
{
    let quantum = PIPELINE_FRAME_SAMPLES as nat;
    let now = stage_after::<RateAdapter<A, R>>(start, stream, quantum, count);
    let answers = stage_answers::<RateAdapter<A, R>>(start, stream, quantum, count);
    let silent = silent_frames::<A, R>(start, stream, count);
    let frame = start.native.frame_samples as nat;
    if count == 0 {
        let heard = heard_by_model(start, stream, 0);
        assert(heard =~= Seq::<u32>::empty());
        assert(0nat / frame == 0) by {
            vstd::arithmetic::div_mod::lemma_basic_div(0, frame as int);
        }
        assert(0nat / (start.plan.upsampler_input as nat) == 0) by {
            vstd::arithmetic::div_mod::lemma_basic_div(0, start.plan.upsampler_input as int);
        }
        assert(now.inner.native_input =~= heard.skip(0));
        let said = said_by_model::<A, R>(start, stream, 0);
        assert(now.inner.native_output =~= said.skip(0));
        let made = made_of::<A, R>(start, stream, 0);
        assert(answers.skip(0) + now.inner.pipeline_output =~= made);
        assert(answers + now.inner.pipeline_output =~= ring::silence(0) + made);
    } else {
        let before = (count - 1) as nat;
        law_adapter_plays_the_models_answers_in_order::<A, R>(start, stream, before);
        let last = stage_after::<RateAdapter<A, R>>(start, stream, quantum, before);
        let so_far = stage_answers::<RateAdapter<A, R>>(start, stream, quantum, before);
        let held = silent_frames::<A, R>(start, stream, before);
        let input = frames::cut(stream, quantum, before as int);
        assert(rate::adapter_outcome::<A, R>(last, input) is Ok);
        let played = so_far.skip((held * PIPELINE_FRAME_SAMPLES) as int);
        lemma_taken_in_turn::<A, R>(last, start, stream, before, played);
        let state = rate::taken_in::<A, R>(last, input)->Ok_0;
        let made = made_of::<A, R>(start, stream, count);
        let silence = ring::silence((held * PIPELINE_FRAME_SAMPLES) as nat);
        assert(so_far =~= silence + played) by {
            let row = so_far + last.inner.pipeline_output;
            assert forall|k: int| 0 <= k < held * PIPELINE_FRAME_SAMPLES implies so_far[k]
                == silence[k] by {
                assert(so_far[k] == row[k]);
            }
        }
        if rate::playing(state, last.plan) {
            let frame_out = state.pipeline_output.take(PIPELINE_FRAME_SAMPLES as int);
            assert(now.inner.started);
            assert(silent == held);
            assert(answers =~= so_far + frame_out);
            assert(answers.skip((held * PIPELINE_FRAME_SAMPLES) as int) =~= played + frame_out);
            assert((played + frame_out) + now.inner.pipeline_output =~= played
                + state.pipeline_output);
            assert(answers + now.inner.pipeline_output =~= silence + made);
        } else {
            assert(held == before);
            assert(silent == count);
            assert(played =~= Seq::<u32>::empty());
            assert(answers =~= ring::silence((silent * PIPELINE_FRAME_SAMPLES) as nat));
            assert(answers.skip((silent * PIPELINE_FRAME_SAMPLES) as int) =~= played);
            assert(answers + now.inner.pipeline_output =~= ring::silence(
                (silent * PIPELINE_FRAME_SAMPLES) as nat,
            ) + made);
        }
    }
}

/// A new adapter around a model at the pipeline's own rate.
pub open spec fn fresh_adapter<T, R>(
    native: StageDescriptor,
    sizes: ConverterSizes,
    stage: T,
) -> AdapterMemory<T, R> {
    AdapterMemory {
        inner: AdapterState {
            stage,
            down: None,
            up: None,
            native_input: Seq::empty(),
            native_output: Seq::empty(),
            pipeline_output: Seq::empty(),
            started: false,
        },
        native,
        plan: rate::planned(native, sizes)->Ok_0,
    }
}

/// Whether a model answers every frame of its length with one of that length.
pub open spec fn never_fails<A: AudioStage>(frame: nat) -> bool {
    forall|state: A::State, block: Seq<u32>|
        {
            &&& block.len() == frame ==> (#[trigger] A::outcome(state, block)) is Ok
            &&& A::outcome(state, block) matches Ok(output) ==> output.len() == frame
        }
}

/// A model that never fails runs over all its complete frames.
proof fn lemma_model_runs<A: AudioStage, R>(state: AdapterState<A::State, R>, frame: nat)
    requires
        never_fails::<A>(frame),
    ensures
        rate::modelled::<A, R>(state, frame) is Ok,
        rate::modelled::<A, R>(state, frame)->Ok_0.up == state.up,
    decreases state.native_input.len(),
{
    if frame > 0 && state.native_input.len() >= frame {
        let block = state.native_input.take(frame as int);
        let output = A::outcome(state.stage, block)->Ok_0;
        assert(A::outcome(state.stage, block) is Ok);
        lemma_model_runs::<A, R>(
            AdapterState {
                stage: A::next(state.stage, block),
                native_input: state.native_input.skip(frame as int),
                native_output: state.native_output + output,
                ..state
            },
            frame,
        );
    }
}

/// An adapter at the pipeline's own rate answers every frame, and starts to play
/// where its plan says.
proof fn lemma_adapter_starts_as_planned<A: AudioStage, R: FixedResampler>(
    native: StageDescriptor,
    sizes: ConverterSizes,
    stage: A::State,
    stream: Seq<u32>,
    count: nat,
)
    requires
        native.sample_rate == PIPELINE_SAMPLE_RATE,
        rate::planned(native, sizes) is Ok,
        never_fails::<A>(native.frame_samples as nat),
        count * PIPELINE_FRAME_SAMPLES <= stream.len(),
    ensures
        ({
            let start = fresh_adapter::<A::State, R>(native, sizes, stage);
            let now = stage_after::<RateAdapter<A, R>>(
                start,
                stream,
                PIPELINE_FRAME_SAMPLES as nat,
                count,
            );
            let startup = start.plan.startup as int;
            let produced = rate::startup_sizes(native, PIPELINE_FRAME_SAMPLES as int).produced(
                count as int,
            );
            &&& rate::adapter_in_step(now)
            &&& now.native == native
            &&& now.plan == start.plan
            &&& now.inner.started <==> count > startup
            &&& count <= startup ==> now.inner.pipeline_output.len() == produced
                && now.inner.native_input.len() == count * PIPELINE_FRAME_SAMPLES - produced
            &&& answers_all::<RateAdapter<A, R>>(
                start,
                stream,
                PIPELINE_FRAME_SAMPLES as nat,
                count,
            )
            &&& silent_frames::<A, R>(start, stream, count) == (if count <= startup {
                count as int
            } else {
                startup
            })
        }),
    decreases count,
{
    let quantum = PIPELINE_FRAME_SAMPLES as nat;
    let start = fresh_adapter::<A::State, R>(native, sizes, stage);
    let sizes_of_startup = rate::startup_sizes(native, PIPELINE_FRAME_SAMPLES as int);
    let frame = native.frame_samples as nat;
    assert(sizes_of_startup.startup(1) == Ok::<int, Seq<char>>(start.plan.startup as int)) by {
        rate::law_startup_is_shortest(sizes_of_startup, 1);
    }
    if count == 0 {
        rate::law_fresh_adapter_is_in_step::<A::State, R>(native, sizes, stage);
        assert(0int / (frame as int) == 0) by {
            vstd::arithmetic::div_mod::lemma_basic_div(0, frame as int);
        }
        assert(sizes_of_startup.native_produced(0) == 0) by {
            assert(0 * sizes_of_startup.native_per_quantum == 0);
            assert(0 * sizes_of_startup.model_frame == 0);
        }
    } else {
        let before = (count - 1) as nat;
        lemma_adapter_starts_as_planned::<A, R>(native, sizes, stage, stream, before);
        let last = stage_after::<RateAdapter<A, R>>(start, stream, quantum, before);
        let input = frames::cut(stream, quantum, before as int);
        let begun = AdapterState {
            down: None::<R>,
            native_input: last.inner.native_input + input,
            ..last.inner
        };
        lemma_model_runs::<A, R>(begun, frame);
        rate::law_adapter_never_runs_dry::<A, R>(last, input);
        if before <= start.plan.startup {
            rate::law_silence_lasts_the_startup::<A, R>(last, input, before as int);
        }
        assert forall|k: int| 0 <= k < count implies (#[trigger] <RateAdapter<
            A,
            R,
        > as AudioStage>::outcome(
            stage_after::<RateAdapter<A, R>>(start, stream, quantum, k as nat),
            frames::cut(stream, quantum, k),
        )) is Ok by {
            if k == before {
                assert(rate::adapter_outcome::<A, R>(last, input) is Ok);
            }
        }
    }
}

/// Around any model at the pipeline's own rate that never fails, an adapter answers
/// every frame: with silence for exactly the startup that it planned, and then with
/// the model's answers to the successive frames of its own length, in a row.
pub proof fn law_adapter_delays_its_model<A: AudioStage, R: FixedResampler>(
    native: StageDescriptor,
    sizes: ConverterSizes,
    stage: A::State,
    stream: Seq<u32>,
    count: nat,
)
    requires
        native.sample_rate == PIPELINE_SAMPLE_RATE,
        rate::planned(native, sizes) is Ok,
        never_fails::<A>(native.frame_samples as nat),
        stream.len() == count * PIPELINE_FRAME_SAMPLES,
    ensures
        ({
            let start = fresh_adapter::<A::State, R>(native, sizes, stage);
            let frame = native.frame_samples as nat;
            let said = stage_answers::<A>(stage, stream, frame, stream.len() / frame);
            let startup = (start.plan.startup * PIPELINE_FRAME_SAMPLES) as nat;
            &&& answers_all::<RateAdapter<A, R>>(
                start,
                stream,
                PIPELINE_FRAME_SAMPLES as nat,
                count,
            )
            &&& stream.len() <= startup + said.len()
            &&& stage_answers::<RateAdapter<A, R>>(
                start,
                stream,
                PIPELINE_FRAME_SAMPLES as nat,
                count,
            ) == (ring::silence(startup) + said).take(stream.len() as int)
        }),
{
    let quantum = PIPELINE_FRAME_SAMPLES as nat;
    let start = fresh_adapter::<A::State, R>(native, sizes, stage);
    let frame = native.frame_samples as nat;
    let said = stage_answers::<A>(stage, stream, frame, stream.len() / frame);
    let startup = (start.plan.startup * PIPELINE_FRAME_SAMPLES) as nat;
    lemma_adapter_starts_as_planned::<A, R>(native, sizes, stage, stream, count);
    law_adapter_plays_the_models_answers_in_order::<A, R>(start, stream, count);
    let answers = stage_answers::<RateAdapter<A, R>>(start, stream, quantum, count);
    let now = stage_after::<RateAdapter<A, R>>(start, stream, quantum, count);
    let silent = (silent_frames::<A, R>(start, stream, count) * PIPELINE_FRAME_SAMPLES) as nat;
    assert(stream.take(stream.len() as int) =~= stream);
    assert(made_of::<A, R>(start, stream, count) == said);
    let row = ring::silence(silent) + said;
    assert(answers =~= row.take(stream.len() as int)) by {
        assert(row == answers + now.inner.pipeline_output);
    }
    assert(answers =~= (ring::silence(startup) + said).take(stream.len() as int));
}

/// Whether a stage gives every frame of its length back as it came.
pub open spec fn copies<A: AudioStage>(frame: nat) -> bool {
    forall|state: A::State, block: Seq<u32>|
        {
            &&& block.len() == frame ==> (#[trigger] A::outcome(state, block)) == Ok::<
                Seq<u32>,
                StageFault,
            >(block)
            &&& A::outcome(state, block) matches Ok(output) ==> output.len() == frame
        }
}

/// What a copying stage answers to the frames of a stream is the stream.
proof fn lemma_copies_in_a_row<A: AudioStage>(
    state: A::State,
    stream: Seq<u32>,
    frame: nat,
    count: nat,
)
    requires
        copies::<A>(frame),
        count * frame <= stream.len(),
    ensures
        stage_answers::<A>(state, stream, frame, count) == stream.take((count * frame) as int),
    decreases count,
{
    if count == 0 {
        assert(0 * frame == 0);
        assert(stream.take(0) =~= Seq::<u32>::empty());
    } else {
        frames::lemma_next_frame(count - 1, frame);
        lemma_copies_in_a_row::<A>(state, stream, frame, (count - 1) as nat);
        let last = stage_after::<A>(state, stream, frame, (count - 1) as nat);
        let input = frames::cut(stream, frame, count - 1);
        assert(A::outcome(last, input) == Ok::<Seq<u32>, StageFault>(input));
        assert(stream.take((count * frame) as int) =~= stream.take(
            ((count - 1) * frame) as int,
        ) + input);
    }
}

/// An adapter at the pipeline's rate around a stage that copies its frames is a
/// delay line, whatever the frame length: its answers, put in a row, are silence
/// for the startup and then the stream in its order; and where the stage declares
/// no delay of its own, that silence is the delay which the adapter declares.
pub proof fn law_adapter_around_a_copy_is_a_delay_line<A: AudioStage, R: FixedResampler>(
    native: StageDescriptor,
    sizes: ConverterSizes,
    stage: A::State,
    stream: Seq<u32>,
    count: nat,
)
    requires
        native.sample_rate == PIPELINE_SAMPLE_RATE,
        rate::planned(native, sizes) is Ok,
        copies::<A>(native.frame_samples as nat),
        stream.len() == count * PIPELINE_FRAME_SAMPLES,
    ensures
        ({
            let start = fresh_adapter::<A::State, R>(native, sizes, stage);
            let startup = start.plan.startup * PIPELINE_FRAME_SAMPLES;
            &&& answers_all::<RateAdapter<A, R>>(
                start,
                stream,
                PIPELINE_FRAME_SAMPLES as nat,
                count,
            )
            &&& stage_answers::<RateAdapter<A, R>>(
                start,
                stream,
                PIPELINE_FRAME_SAMPLES as nat,
                count,
            ) == (ring::silence(startup as nat) + stream).take(stream.len() as int)
            &&& native.algorithmic_delay_samples == 0 ==> start.plan.delay == startup
        }),
{
    let start = fresh_adapter::<A::State, R>(native, sizes, stage);
    let frame = native.frame_samples as nat;
    let startup = (start.plan.startup * PIPELINE_FRAME_SAMPLES) as nat;
    assert(never_fails::<A>(frame)) by {
        assert forall|state: A::State, block: Seq<u32>|
            block.len() == frame implies (#[trigger] A::outcome(state, block)) is Ok by {}
    }
    law_adapter_delays_its_model::<A, R>(native, sizes, stage, stream, count);
    let all = (stream.len() / frame) as nat;
    frames::lemma_complete_frames_fit(stream.len(), frame);
    lemma_copies_in_a_row::<A>(stage, stream, frame, all);
    let said = stage_answers::<A>(stage, stream, frame, all);
    assert((ring::silence(startup) + said).take(stream.len() as int) =~= (ring::silence(startup)
        + stream).take(stream.len() as int));
    if native.algorithmic_delay_samples == 0 {
        let pipeline = PIPELINE_SAMPLE_RATE as int;
        assert(rate::scaled(0, pipeline, pipeline) == 0);
        let sizes_of_startup = rate::startup_sizes(native, PIPELINE_FRAME_SAMPLES as int);
        rate::law_startup_is_shortest(sizes_of_startup, 1);
    }
}

/// What a stage renders of a clip are its answers to the clip and the silence behind
/// it, put in a row.
proof fn lemma_rendering_is_a_row<A: AudioStage>(
    state: A::State,
    clip: Seq<u32>,
    from: int,
    total: nat,
)
    requires
        0 <= from <= total,
        answers_all::<A>(
            state,
            offline::aligned(clip, 0, (total * PIPELINE_FRAME_SAMPLES) as nat),
            PIPELINE_FRAME_SAMPLES as nat,
            total,
        ),
    ensures
        ({
            let stream = offline::aligned(clip, 0, (total * PIPELINE_FRAME_SAMPLES) as nat);
            let quantum = PIPELINE_FRAME_SAMPLES as nat;
            let rest = offline::rendered::<A>(
                stage_after::<A>(state, stream, quantum, from as nat),
                clip,
                from,
                total as int,
            );
            &&& rest is Ok
            &&& stage_answers::<A>(state, stream, quantum, from as nat) + rest->Ok_0
                == stage_answers::<A>(state, stream, quantum, total)
        }),
    decreases total - from,
{
    let stream = offline::aligned(clip, 0, (total * PIPELINE_FRAME_SAMPLES) as nat);
    let quantum = PIPELINE_FRAME_SAMPLES as nat;
    let before = stage_answers::<A>(state, stream, quantum, from as nat);
    if from == total {
        assert(before + Seq::<u32>::empty() =~= before);
    } else {
        let input = frames::cut(stream, quantum, from);
        assert(input =~= offline::clip_frame(clip, from));
        lemma_rendering_is_a_row::<A>(state, clip, from + 1, total);
        let now = stage_after::<A>(state, stream, quantum, from as nat);
        assert(A::outcome(now, input) is Ok);
        let frame = A::outcome(now, input)->Ok_0;
        assert((from + 1) as nat - 1 == from);
        let rest = offline::rendered::<A>(
            stage_after::<A>(state, stream, quantum, (from + 1) as nat),
            clip,
            from + 1,
            total as int,
        )->Ok_0;
        assert((before + frame) + rest =~= before + (frame + rest));
    }
}

/// A clip that is rendered through an adapter at the pipeline's rate, around a stage
/// that copies its frames and declares no delay, comes back exactly once the
/// declared delay is removed, and behind just that much silence where the delay is
/// preserved: what is compared offline is the model, not its adapter.
pub proof fn law_clip_through_an_adapted_copy_comes_back<A: AudioStage, R: FixedResampler>(
    memory: AdapterMemory<A::State, R>,
    sizes: ConverterSizes,
    descriptor: StageDescriptor,
    clip: Seq<u32>,
)
    requires
        memory.native.sample_rate == PIPELINE_SAMPLE_RATE,
        memory.native.algorithmic_delay_samples == 0,
        rate::planned(memory.native, sizes) == Ok::<rate::AdapterPlan, StageFault>(memory.plan),
        memory.inner.down is None,
        memory.inner.up is None,
        A::cleared(memory.inner.stage) is Ok,
        copies::<A>(memory.native.frame_samples as nat),
        descriptor.algorithmic_delay_samples == memory.plan.delay,
    ensures
        ({
            let cleared = <RateAdapter<A, R> as AudioStage>::cleared(memory);
            let made = offline::rendered::<RateAdapter<A, R>>(
                cleared->Ok_0,
                clip,
                0,
                offline::total_frames(descriptor, clip.len() as int),
            );
            let delay = descriptor.algorithmic_delay_samples;
            &&& cleared is Ok
            &&& made is Ok
            &&& offline::aligned(
                made->Ok_0,
                offline::output_start(DelayCompensation::Remove, delay),
                clip.len(),
            ) == clip
            &&& offline::aligned(
                made->Ok_0,
                offline::output_start(DelayCompensation::Preserve, delay),
                clip.len(),
            ) == (ring::silence(delay as nat) + clip).take(clip.len() as int)
        }),
{
    let delay = descriptor.algorithmic_delay_samples;
    let stage = A::cleared(memory.inner.stage)->Ok_0;
    let start = fresh_adapter::<A::State, R>(memory.native, sizes, stage);
    assert(<RateAdapter<A, R> as AudioStage>::cleared(memory)->Ok_0 == start);
    let total = offline::total_frames(descriptor, clip.len() as int) as nat;
    let stream = offline::aligned(clip, 0, (total * PIPELINE_FRAME_SAMPLES) as nat);
    law_adapter_around_a_copy_is_a_delay_line::<A, R>(
        memory.native,
        sizes,
        stage,
        stream,
        total,
    );
    lemma_rendering_is_a_row::<RateAdapter<A, R>>(start, clip, 0, total);
    let made = offline::rendered::<RateAdapter<A, R>>(start, clip, 0, total as int)->Ok_0;
    let row = stage_answers::<RateAdapter<A, R>>(
        start,
        stream,
        PIPELINE_FRAME_SAMPLES as nat,
        total,
    );
    assert(Seq::<u32>::empty() + made =~= made);
    assert(made == row);
    offline::law_drain_is_long_enough(
        descriptor,
        clip.len() as int,
        DelayCompensation::Remove,
    );
    assert(offline::aligned(made, delay as int, clip.len()) =~= clip);
    assert(offline::aligned(made, 0, clip.len()) =~= (ring::silence(delay as nat) + clip).take(
        clip.len() as int,
    ));
}

/// A reset adapter is a new one: it has heard nothing, and its model and converters
/// start over.
pub proof fn law_reset_adapter_is_fresh<A: AudioStage, R: FixedResampler>(
    memory: AdapterMemory<A::State, R>,
)
    requires
        memory.native.frame_samples > 0,
        memory.plan.upsampler_input > 0,
    ensures
        match A::cleared(memory.inner.stage) {
            Err(fault) => <RateAdapter<A, R> as AudioStage>::cleared(memory) == Err::<
                AdapterMemory<A::State, R>,
                StageFault,
            >(fault),
            Ok(stage) => {
                let cleared = <RateAdapter<A, R> as AudioStage>::cleared(memory)->Ok_0;
                &&& <RateAdapter<A, R> as AudioStage>::cleared(memory) is Ok
                &&& is_fresh(cleared)
                &&& cleared.inner.stage == stage
                &&& cleared.native == memory.native
                &&& cleared.plan == memory.plan
                &&& memory.inner.down matches Some(down) ==> cleared.inner.down == Some(
                    down.cleared(),
                )
                &&& memory.inner.up matches Some(up) ==> cleared.inner.up == Some(up.cleared())
                &&& memory.inner.down is None ==> cleared.inner.down is None
                &&& memory.inner.up is None ==> cleared.inner.up is None
            },
        },
{
}

/// The answers to a number of frames are as long as they are many.
proof fn lemma_answers_have_length<A: AudioStage>(
    state: A::State,
    stream: Seq<u32>,
    frame: nat,
    count: nat,
)
    requires
        never_fails::<A>(frame),
        count * frame <= stream.len(),
    ensures
        stage_answers::<A>(state, stream, frame, count).len() == count * frame,
    decreases count,
{
    if count > 0 {
        frames::lemma_next_frame(count - 1, frame);
        let last = stage_after::<A>(state, stream, frame, (count - 1) as nat);
        let input = frames::cut(stream, frame, count - 1);
        assert(A::outcome(last, input) is Ok);
        lemma_answers_have_length::<A>(state, stream, frame, (count - 1) as nat);
    } else {
        assert(0 * frame == 0);
    }
}

/// Whether converters answer every block of `takes` samples with one of `gives`.
pub open spec fn converts_in_full<R: FixedResampler>(takes: nat, gives: nat) -> bool {
    forall|converter: R, block: Seq<u32>|
        block.len() == takes ==> (#[trigger] converter.outcome(block)) is Ok
            && converter.outcome(block)->Ok_0.len() == gives
}

/// What is made of a number of blocks is as long as they are many.
proof fn lemma_conversions_have_length<R: FixedResampler>(
    converter: R,
    stream: Seq<u32>,
    takes: nat,
    gives: nat,
    count: nat,
)
    requires
        converts_in_full::<R>(takes, gives),
        count * takes <= stream.len(),
    ensures
        converter_answers(converter, stream, takes, count).len() == count * gives,
    decreases count,
{
    if count > 0 {
        frames::lemma_next_frame(count - 1, takes);
        frames::lemma_next_frame(count - 1, gives);
        let last = converter_after(converter, stream, takes, (count - 1) as nat);
        let input = frames::cut(stream, takes, count - 1);
        assert(last.outcome(input) is Ok);
        lemma_conversions_have_length(converter, stream, takes, gives, (count - 1) as nat);
    } else {
        assert(0 * gives == 0);
    }
}

/// What an adapter makes of a stream is as long as its sizes say.
proof fn lemma_made_has_length<A: AudioStage, R: FixedResampler>(
    start: AdapterMemory<A::State, R>,
    stream: Seq<u32>,
    count: nat,
)
    requires
        is_fresh(start),
        count * PIPELINE_FRAME_SAMPLES <= stream.len(),
        in_full::<A, R>(start),
    ensures
        made_of::<A, R>(start, stream, count).len() == rate::startup_sizes(
            start.native,
            start.plan.native_per_quantum as int,
        ).produced(count as int),
{
    let quantum = PIPELINE_FRAME_SAMPLES as nat;
    let frame = start.native.frame_samples as nat;
    let per_quantum = start.plan.native_per_quantum as nat;
    let heard = heard_by_model(start, stream, count);
    if start.inner.down is Some {
        lemma_conversions_have_length(
            start.inner.down->0,
            stream,
            quantum,
            per_quantum,
            count,
        );
    }
    assert(heard.len() == count * per_quantum);
    let all = (heard.len() / frame) as nat;
    frames::lemma_complete_frames_fit(heard.len(), frame);
    lemma_answers_have_length::<A>(start.inner.stage, heard, frame, all);
    let said = said_by_model::<A, R>(start, stream, count);
    assert(said.len() == all * frame);
    if start.inner.up is Some {
        frames::lemma_complete_frames_fit(said.len(), per_quantum);
        lemma_conversions_have_length(
            start.inner.up->0,
            said,
            per_quantum,
            quantum,
            (said.len() / per_quantum) as nat,
        );
    }
}

/// Whether an adapter's model never fails, and its converters, which it has exactly
/// where the model runs at another rate than the pipeline, answer in full.
pub open spec fn in_full<A: AudioStage, R: FixedResampler>(
    start: AdapterMemory<A::State, R>,
) -> bool {
    let quantum = PIPELINE_FRAME_SAMPLES as nat;
    let per_quantum = start.plan.native_per_quantum as nat;
    &&& never_fails::<A>(start.native.frame_samples as nat)
    &&& start.inner.down is None <==> start.native.sample_rate == PIPELINE_SAMPLE_RATE
    &&& start.inner.up is None <==> start.native.sample_rate == PIPELINE_SAMPLE_RATE
    &&& if start.native.sample_rate == PIPELINE_SAMPLE_RATE {
        start.plan.native_per_quantum == PIPELINE_FRAME_SAMPLES
    } else {
        &&& start.plan.upsampler_input == start.plan.native_per_quantum
        &&& converts_in_full::<R>(quantum, per_quantum)
        &&& converts_in_full::<R>(per_quantum, quantum)
    }
}

/// An adapter whose machines answer in full is silent for exactly the startup that
/// was planned, at every rate, and then plays what was made of the stream from its
/// first sample on.
pub proof fn law_every_adapter_starts_where_planned<A: AudioStage, R: FixedResampler>(
    start: AdapterMemory<A::State, R>,
    stream: Seq<u32>,
    count: nat,
)
    requires
        is_fresh(start),
        count * PIPELINE_FRAME_SAMPLES <= stream.len(),
        in_full::<A, R>(start),
        answers_all::<RateAdapter<A, R>>(start, stream, PIPELINE_FRAME_SAMPLES as nat, count),
        rate::startup_sizes(start.native, start.plan.native_per_quantum as int).startup(1)
            == Ok::<int, Seq<char>>(start.plan.startup as int),
        rate::startup_sizes(start.native, start.plan.native_per_quantum as int).watermark
            == start.plan.watermark,
    ensures
        silent_frames::<A, R>(start, stream, count) == (if count <= start.plan.startup {
            count
        } else {
            start.plan.startup as nat
        }),
        ({
            let startup = (start.plan.startup * PIPELINE_FRAME_SAMPLES) as nat;
            let row = ring::silence(startup) + made_of::<A, R>(start, stream, count);
            count > start.plan.startup ==> {
                &&& row.len() >= count * PIPELINE_FRAME_SAMPLES
                &&& stage_answers::<RateAdapter<A, R>>(
                    start,
                    stream,
                    PIPELINE_FRAME_SAMPLES as nat,
                    count,
                ) == row.take((count * PIPELINE_FRAME_SAMPLES) as int)
            }
        }),
    decreases count,
{
    let quantum = PIPELINE_FRAME_SAMPLES as nat;
    let sizes = rate::startup_sizes(start.native, start.plan.native_per_quantum as int);
    law_adapter_plays_the_models_answers_in_order::<A, R>(start, stream, count);
    lemma_made_has_length::<A, R>(start, stream, count);
    rate::law_startup_is_shortest(sizes, 1);
    let answers = stage_answers::<RateAdapter<A, R>>(start, stream, quantum, count);
    let now = stage_after::<RateAdapter<A, R>>(start, stream, quantum, count);
    if count > 0 {
        let before = (count - 1) as nat;
        law_every_adapter_starts_where_planned::<A, R>(start, stream, before);
        law_adapter_plays_the_models_answers_in_order::<A, R>(start, stream, before);
        let last = stage_after::<RateAdapter<A, R>>(start, stream, quantum, before);
        let input = frames::cut(stream, quantum, before as int);
        assert(rate::adapter_outcome::<A, R>(last, input) is Ok);
        let so_far = stage_answers::<RateAdapter<A, R>>(start, stream, quantum, before);
        let held = silent_frames::<A, R>(start, stream, before);
        let played = so_far.skip((held * PIPELINE_FRAME_SAMPLES) as int);
        lemma_taken_in_turn::<A, R>(last, start, stream, before, played);
        let state = rate::taken_in::<A, R>(last, input)->Ok_0;
        let made = made_of::<A, R>(start, stream, count);
        if before <= start.plan.startup {
            assert(held == before);
            assert(played =~= Seq::<u32>::empty());
            assert(played + state.pipeline_output =~= state.pipeline_output);
            assert(state.pipeline_output.len() == sizes.produced(count as int));
            assert(sizes.produced(before as int + 1) == sizes.produced(count as int));
        }
    }
    if count > start.plan.startup {
        let startup = (start.plan.startup * PIPELINE_FRAME_SAMPLES) as nat;
        let row = ring::silence(startup) + made_of::<A, R>(start, stream, count);
        assert(row == answers + now.inner.pipeline_output);
        assert(row.take((count * PIPELINE_FRAME_SAMPLES) as int) =~= answers);
    }
}

} // verus!
