//! Deterministic whole-file orchestration over the streaming stage contract.

use vstd::prelude::*;

use crate::engine::stage;
use crate::engine::stage::{
    AudioStage,
    StageDescriptor,
    StageError,
    StageFault,
    PIPELINE_FRAME_SAMPLES,
    PIPELINE_SAMPLE_RATE,
};
use crate::signal::ring::SILENCE;

verus! {

/// Delay handling for offline comparison output.
#[derive(Clone, Copy, Debug, PartialEq, Eq, Structural)]
pub enum DelayCompensation {
    /// Keep the live-path delay as leading silence.
    Preserve,
    /// Drain the stage and remove its declared delay for aligned comparison.
    Remove,
}

/// Frames needed for a number of samples.
pub open spec fn frames_for(samples: int) -> int {
    (samples + PIPELINE_FRAME_SAMPLES - 1) / (PIPELINE_FRAME_SAMPLES as int)
}

/// Frames fed after the clip: the stage's tail, its delay, and one more.
pub open spec fn drain_frames(descriptor: StageDescriptor) -> int {
    descriptor.tail_frames + frames_for(descriptor.algorithmic_delay_samples as int) + 1
}

/// Frames fed in all.
pub open spec fn total_frames(descriptor: StageDescriptor, len: int) -> int {
    frames_for(len) + drain_frames(descriptor)
}

/// One frame of a clip, padded with silence where the clip has ended.
pub open spec fn clip_frame(clip: Seq<u32>, index: int) -> Seq<u32> {
    Seq::new(
        PIPELINE_FRAME_SAMPLES as nat,
        |k: int|
            if index * PIPELINE_FRAME_SAMPLES + k < clip.len() {
                clip[index * PIPELINE_FRAME_SAMPLES + k]
            } else {
                SILENCE
            },
    )
}

/// What a stage answers to the frames `from..total` of a clip: all its output
/// frames in a row, or its first error.
pub open spec fn rendered<A: AudioStage>(
    state: A::State,
    clip: Seq<u32>,
    from: int,
    total: int,
) -> Result<Seq<u32>, StageFault>
    decreases total - from,
{
    if from >= total {
        Ok(Seq::empty())
    } else {
        match A::outcome(state, clip_frame(clip, from)) {
            Err(fault) => Err(fault),
            Ok(frame) => match rendered::<A>(
                A::next(state, clip_frame(clip, from)),
                clip,
                from + 1,
                total,
            ) {
                Err(fault) => Err(fault),
                Ok(rest) => Ok(frame + rest),
            },
        }
    }
}

/// What a stage remembers once it has heard exactly the frames `from..total` of a
/// clip.
pub open spec fn heard_through<A: AudioStage>(
    state: A::State,
    clip: Seq<u32>,
    from: int,
    total: int,
) -> A::State
    decreases total - from,
{
    if from >= total {
        state
    } else {
        heard_through::<A>(A::next(state, clip_frame(clip, from)), clip, from + 1, total)
    }
}

/// `len` samples from `start` on, padded with silence.
pub open spec fn aligned(samples: Seq<u32>, start: int, len: nat) -> Seq<u32> {
    Seq::new(
        len,
        |k: int|
            if start + k < samples.len() {
                samples[start + k]
            } else {
                SILENCE
            },
    )
}

/// Where the output starts in the rendered samples.
pub open spec fn output_start(compensation: DelayCompensation, delay: usize) -> int {
    match compensation {
        DelayCompensation::Preserve => 0,
        DelayCompensation::Remove => delay as int,
    }
}

/// Why a clip of this length cannot be rendered, if it cannot.
pub open spec fn refusal(descriptor: StageDescriptor, len: int) -> Option<Seq<char>> {
    if drain_frames(descriptor) > usize::MAX {
        Some("offline drain length overflow"@)
    } else if total_frames(descriptor, len) > usize::MAX {
        Some("offline frame count overflow"@)
    } else if total_frames(descriptor, len) * PIPELINE_FRAME_SAMPLES > usize::MAX {
        Some("offline output capacity overflow"@)
    } else {
        None
    }
}

/// `samples` in pipeline frames, rounded up.
fn div_ceil_frames(samples: usize) -> (frames: usize)
    ensures
        frames == frames_for(samples as int),
{
    let whole: usize = samples / PIPELINE_FRAME_SAMPLES;
    if samples % PIPELINE_FRAME_SAMPLES == 0 {
        whole
    } else {
        whole + 1
    }
}

/// One frame of a clip, padded with silence where the clip has ended.
fn read_frame(clip: &[u32], index: usize) -> (frame: Vec<u32>)
    requires
        (index + 1) * PIPELINE_FRAME_SAMPLES <= usize::MAX,
    ensures
        frame@ == clip_frame(clip@, index as int),
{
    let start: usize = index * PIPELINE_FRAME_SAMPLES;
    let mut frame: Vec<u32> = Vec::with_capacity(PIPELINE_FRAME_SAMPLES);
    while frame.len() < PIPELINE_FRAME_SAMPLES
        invariant
            start == index * PIPELINE_FRAME_SAMPLES,
            (index + 1) * PIPELINE_FRAME_SAMPLES <= usize::MAX,
            frame@.len() <= PIPELINE_FRAME_SAMPLES,
            frame@ == clip_frame(clip@, index as int).take(frame@.len() as int),
        decreases PIPELINE_FRAME_SAMPLES - frame@.len(),
    {
        let at: usize = start + frame.len();
        frame.push(if at < clip.len() { clip[at] } else { SILENCE });
        assert(frame@ =~= clip_frame(clip@, index as int).take(frame@.len() as int));
    }
    assert(frame@ =~= clip_frame(clip@, index as int));
    frame
}

/// `len` samples from `start` on, padded with silence.
pub fn align_output(samples: &Vec<u32>, start: usize, len: usize) -> (output: Vec<u32>)
    ensures
        output@ == aligned(samples@, start as int, len as nat),
{
    let mut output: Vec<u32> = Vec::with_capacity(len);
    while output.len() < len
        invariant
            output@.len() <= len,
            output@ == aligned(samples@, start as int, len as nat).take(output@.len() as int),
        decreases len - output@.len(),
    {
        let k: usize = output.len();
        output.push(
            if start < samples.len() && k < samples.len() - start {
                samples[start + k]
            } else {
                SILENCE
            },
        );
        assert(output@ =~= aligned(samples@, start as int, len as nat).take(output@.len() as int));
    }
    assert(output@ =~= aligned(samples@, start as int, len as nat));
    output
}

/// The error that a stage cannot be set up, for a reason.
pub fn invalid_configuration(stage: &'static str, reason: &str) -> (error: StageError)
    ensures
        error@ == stage::misconfigured(stage@, reason@),
{
    StageError::InvalidConfiguration { stage, message: reason.to_owned() }
}

/// Process one mono 48 kHz clip through a prepared stage.
///
/// Uses the same 10 ms calls as the live engine, pads only the final partial
/// frame, and feeds the declared tail before truncating back to the input
/// length.
pub fn process_clip<A: AudioStage>(
    stage: &mut A,
    input: &[u32],
    delay_compensation: DelayCompensation,
) -> (result: Result<Vec<u32>, StageError>)
    requires
        old(stage).wf(),
    ensures
        final(stage).wf(),
        final(stage).about() == old(stage).about(),
        ({
            let descriptor = old(stage).about();
            let len = input@.len() as int;
            if descriptor.sample_rate != PIPELINE_SAMPLE_RATE || descriptor.frame_samples
                != PIPELINE_FRAME_SAMPLES {
                &&& stage::failed(
                    result,
                    stage::misconfigured(
                        descriptor.id@,
                        "offline runner requires a pipeline-adapted stage"@,
                    ),
                )
                &&& final(stage).state() == old(stage).state()
            } else {
                match A::cleared(old(stage).state()) {
                    Err(fault) => stage::failed(result, fault),
                    Ok(state) => match refusal(descriptor, len) {
                        Some(reason) => {
                            &&& stage::failed(
                                result,
                                stage::misconfigured(descriptor.id@, reason),
                            )
                            &&& final(stage).state() == state
                        },
                        None => match rendered::<A>(
                            state,
                            input@,
                            0,
                            total_frames(descriptor, len),
                        ) {
                            Err(fault) => stage::failed(result, fault),
                            Ok(samples) => {
                                &&& result matches Ok(output)
                                &&& output@ == aligned(
                                    samples,
                                    output_start(
                                        delay_compensation,
                                        descriptor.algorithmic_delay_samples,
                                    ),
                                    input@.len(),
                                )
                                &&& final(stage).state() == heard_through::<A>(
                                    state,
                                    input@,
                                    0,
                                    total_frames(descriptor, len),
                                )
                            },
                        },
                    },
                }
            }
        }),
        result matches Ok(output) ==> {
            let total = total_frames(old(stage).about(), input@.len() as int);
            let delay = old(stage).about().algorithmic_delay_samples;
            let made = rendered::<A>(
                A::cleared(old(stage).state())->Ok_0,
                input@,
                0,
                total,
            )->Ok_0;
            &&& made.len() == total * PIPELINE_FRAME_SAMPLES
            &&& output@.len() == input@.len()
            &&& delay_compensation == DelayCompensation::Remove ==> forall|k: int|
                0 <= k < input@.len() ==> #[trigger] output@[k] == made[delay + k]
            &&& delay_compensation == DelayCompensation::Preserve ==> forall|k: int|
                0 <= k < input@.len() ==> #[trigger] output@[k] == made[k]
        },
{
    let descriptor = stage.descriptor();
    if descriptor.sample_rate != PIPELINE_SAMPLE_RATE || descriptor.frame_samples
        != PIPELINE_FRAME_SAMPLES {
        return Err(
            invalid_configuration(
                descriptor.id,
                "offline runner requires a pipeline-adapted stage",
            ),
        );
    }
    match stage.reset() {
        Err(error) => {
            return Err(error);
        },
        Ok(()) => {},
    }
    let ghost cleared = stage.state();
    let input_frames: usize = div_ceil_frames(input.len());
    let delay_frames: usize = div_ceil_frames(descriptor.algorithmic_delay_samples);
    let tail_and_delay: usize = match descriptor.tail_frames.checked_add(delay_frames) {
        Some(frames) => frames,
        None => {
            return Err(invalid_configuration(descriptor.id, "offline drain length overflow"));
        },
    };
    let drain: usize = match tail_and_delay.checked_add(1) {
        Some(frames) => frames,
        None => {
            return Err(invalid_configuration(descriptor.id, "offline drain length overflow"));
        },
    };
    let total: usize = match input_frames.checked_add(drain) {
        Some(total) => total,
        None => {
            return Err(invalid_configuration(descriptor.id, "offline frame count overflow"));
        },
    };
    if total.checked_mul(PIPELINE_FRAME_SAMPLES).is_none() {
        return Err(invalid_configuration(descriptor.id, "offline output capacity overflow"));
    }
    let mut samples: Vec<u32> = Vec::new();
    let mut index: usize = 0;
    while index < total
        invariant
            index <= total,
            total * PIPELINE_FRAME_SAMPLES <= usize::MAX,
            stage.wf(),
            stage.about() == old(stage).about(),
            old(stage).about().sample_rate == PIPELINE_SAMPLE_RATE,
            old(stage).about().frame_samples == PIPELINE_FRAME_SAMPLES,
            A::cleared(old(stage).state()) == Ok::<A::State, StageFault>(cleared),
            refusal(old(stage).about(), input@.len() as int) is None,
            total == total_frames(old(stage).about(), input@.len() as int),
            samples@.len() == index * PIPELINE_FRAME_SAMPLES,
            rendered::<A>(cleared, input@, 0, total as int) == (match rendered::<A>(
                stage.state(),
                input@,
                index as int,
                total as int,
            ) {
                Err(fault) => Err::<Seq<u32>, StageFault>(fault),
                Ok(rest) => Ok(samples@ + rest),
            }),
            heard_through::<A>(cleared, input@, 0, total as int) == heard_through::<A>(
                stage.state(),
                input@,
                index as int,
                total as int,
            ),
        decreases total - index,
    {
        let frame_in: Vec<u32> = read_frame(input, index);
        let mut frame_out: Vec<u32> = vec![0; PIPELINE_FRAME_SAMPLES];
        let ghost before = stage.state();
        match stage.process_frame(frame_in.as_slice(), frame_out.as_mut_slice()) {
            Err(error) => {
                return Err(error);
            },
            Ok(()) => {},
        }
        let ghost so_far = samples@;
        samples.extend_from_slice(frame_out.as_slice());
        index = index + 1;
        proof {
            assert(samples@ =~= so_far + frame_out@);
            let rest = rendered::<A>(stage.state(), input@, index as int, total as int);
            match rest {
                Err(_) => {},
                Ok(tail) => {
                    assert(so_far + (frame_out@ + tail) =~= samples@ + tail);
                },
            }
        }
    }
    assert(rendered::<A>(stage.state(), input@, index as int, total as int) == Ok::<
        Seq<u32>,
        StageFault,
    >(Seq::<u32>::empty()));
    assert(samples@ + Seq::<u32>::empty() =~= samples@);
    let start: usize = match delay_compensation {
        DelayCompensation::Preserve => 0,
        DelayCompensation::Remove => descriptor.algorithmic_delay_samples,
    };
    proof {
        law_drain_is_long_enough(
            old(stage).about(),
            input@.len() as int,
            DelayCompensation::Remove,
        );
        law_drain_is_long_enough(
            old(stage).about(),
            input@.len() as int,
            DelayCompensation::Preserve,
        );
    }
    Ok(align_output(&samples, start, input.len()))
}

/// Removing the declared delay undoes it: from a rendering that holds the clip
/// behind as many samples as the stage declares, the clip comes back exactly.
pub proof fn law_removal_undoes_the_delay(lead: Seq<u32>, clip: Seq<u32>, tail: Seq<u32>)
    ensures
        aligned(lead + clip + tail, lead.len() as int, clip.len()) == clip,
{
    assert(aligned(lead + clip + tail, lead.len() as int, clip.len()) =~= clip);
}

/// With the delay removed, a stage whose rendering of a clip is the clip behind as
/// many samples as it declares gives back exactly the clip; with the delay
/// preserved, the head of that rendering is kept as it is.
pub proof fn law_only_removal_shifts_the_output(
    lead: Seq<u32>,
    clip: Seq<u32>,
    tail: Seq<u32>,
    delay: usize,
)
    requires
        lead.len() == delay,
    ensures
        aligned(
            lead + clip + tail,
            output_start(DelayCompensation::Remove, delay),
            clip.len(),
        ) == clip,
        aligned(
            lead + clip + tail,
            output_start(DelayCompensation::Preserve, delay),
            clip.len(),
        ) == (lead + clip + tail).take(clip.len() as int),
{
    law_removal_undoes_the_delay(lead, clip, tail);
    assert(aligned(
        lead + clip + tail,
        output_start(DelayCompensation::Preserve, delay),
        clip.len(),
    ) =~= (lead + clip + tail).take(clip.len() as int));
}

/// The two ways to treat the delay differ by exactly that delay: what is kept at
/// `delay + k` is what comes out at `k` once the delay is removed.
pub proof fn law_removal_is_a_shift_of_what_is_kept(
    samples: Seq<u32>,
    delay: usize,
    len: nat,
    k: int,
)
    requires
        0 <= k,
        delay + k < len,
    ensures
        aligned(samples, output_start(DelayCompensation::Remove, delay), len)[k] == aligned(
            samples,
            output_start(DelayCompensation::Preserve, delay),
            len,
        )[delay + k],
{
}

/// The frames fed to a stage, put in a row, are the clip and then only silence.
pub proof fn law_frames_hold_the_clip(clip: Seq<u32>, index: int, k: int)
    requires
        index >= 0,
        0 <= k < PIPELINE_FRAME_SAMPLES,
    ensures
        clip_frame(clip, index).len() == PIPELINE_FRAME_SAMPLES,
        clip_frame(clip, index)[k] == (clip + Seq::new(
            (PIPELINE_FRAME_SAMPLES * (index + 1)) as nat,
            |i: int| SILENCE,
        ))[index * PIPELINE_FRAME_SAMPLES + k],
{
}

/// What a stage remembers after one frame more is what that frame made of what it
/// remembered before.
proof fn lemma_one_frame_more<A: AudioStage>(state: A::State, clip: Seq<u32>, from: int, j: int)
    requires
        0 <= from <= j,
    ensures
        heard_through::<A>(state, clip, from, j + 1) == A::next(
            heard_through::<A>(state, clip, from, j),
            clip_frame(clip, j),
        ),
    decreases j - from,
{
    let next = A::next(state, clip_frame(clip, from));
    if from < j {
        lemma_one_frame_more::<A>(next, clip, from + 1, j);
    } else {
        assert(heard_through::<A>(next, clip, from + 1, j + 1) == next);
    }
}

/// A rendering is made of the stage's answers to the successive frames of the
/// clip, in their order: the samples of frame `j` are what a stage answers to
/// frame `j` that has heard exactly the frames before it.
pub proof fn law_rendering_answers_each_frame<A: AudioStage>(
    state: A::State,
    clip: Seq<u32>,
    total: int,
    j: int,
)
    requires
        0 <= j < total,
        rendered::<A>(state, clip, 0, total) is Ok,
        forall|s: A::State, frame: Seq<u32>|
            (#[trigger] A::outcome(s, frame)) matches Ok(answer) ==> answer.len()
                == PIPELINE_FRAME_SAMPLES,
    ensures
        rendered::<A>(state, clip, 0, total)->Ok_0.len() == total * PIPELINE_FRAME_SAMPLES,
        A::outcome(heard_through::<A>(state, clip, 0, j), clip_frame(clip, j)) == Ok::<
            Seq<u32>,
            StageFault,
        >(
            rendered::<A>(state, clip, 0, total)->Ok_0.subrange(
                j * PIPELINE_FRAME_SAMPLES,
                (j + 1) * PIPELINE_FRAME_SAMPLES,
            ),
        ),
        heard_through::<A>(state, clip, 0, 0) == state,
        heard_through::<A>(state, clip, 0, j + 1) == A::next(
            heard_through::<A>(state, clip, 0, j),
            clip_frame(clip, j),
        ),
{
    lemma_one_frame_more::<A>(state, clip, 0, j);
    lemma_answers_from::<A>(state, clip, 0, total, j);
}

proof fn lemma_answers_from<A: AudioStage>(
    state: A::State,
    clip: Seq<u32>,
    from: int,
    total: int,
    j: int,
)
    requires
        0 <= from <= j,
        j < total || j == from == total,
        rendered::<A>(state, clip, from, total) is Ok,
        forall|s: A::State, frame: Seq<u32>|
            (#[trigger] A::outcome(s, frame)) matches Ok(answer) ==> answer.len()
                == PIPELINE_FRAME_SAMPLES,
    ensures
        rendered::<A>(state, clip, from, total)->Ok_0.len() == (total - from)
            * PIPELINE_FRAME_SAMPLES,
        j < total ==> A::outcome(heard_through::<A>(state, clip, from, j), clip_frame(clip, j))
            == Ok::<Seq<u32>, StageFault>(
            rendered::<A>(state, clip, from, total)->Ok_0.subrange(
                (j - from) * PIPELINE_FRAME_SAMPLES,
                (j - from + 1) * PIPELINE_FRAME_SAMPLES,
            ),
        ),
    decreases total - from,
{
    if from < total {
        let next = A::next(state, clip_frame(clip, from));
        let frame = A::outcome(state, clip_frame(clip, from))->Ok_0;
        let rest = rendered::<A>(next, clip, from + 1, total)->Ok_0;
        assert(frame.len() == PIPELINE_FRAME_SAMPLES);
        let later: int = if j > from {
            j
        } else {
            from + 1
        };
        if later < total || from + 1 == total {
            lemma_answers_from::<A>(next, clip, from + 1, total, later);
        }
        if j == from {
            assert((frame + rest).subrange(0, PIPELINE_FRAME_SAMPLES as int) =~= frame);
        } else {
            assert((frame + rest).subrange(
                (j - from) * PIPELINE_FRAME_SAMPLES,
                (j - from + 1) * PIPELINE_FRAME_SAMPLES,
            ) =~= rest.subrange(
                (j - from - 1) * PIPELINE_FRAME_SAMPLES,
                (j - from) * PIPELINE_FRAME_SAMPLES,
            ));
        }
    }
}

/// A clip fails only as its stage does: a fault comes from the first frame that
/// the stage refuses, with the fault that it gave.
pub proof fn law_fault_is_the_stages_first<A: AudioStage>(
    state: A::State,
    clip: Seq<u32>,
    from: int,
    total: int,
)
    requires
        0 <= from <= total,
    ensures
        match rendered::<A>(state, clip, from, total) {
            Err(fault) => exists|j: int|
                {
                    &&& from <= j < total
                    &&& (#[trigger] A::outcome(
                        heard_through::<A>(state, clip, from, j),
                        clip_frame(clip, j),
                    )) == Err::<Seq<u32>, StageFault>(fault)
                    &&& forall|i: int|
                        from <= i < j ==> (#[trigger] A::outcome(
                            heard_through::<A>(state, clip, from, i),
                            clip_frame(clip, i),
                        )) is Ok
                },
            Ok(_) => forall|i: int|
                from <= i < total ==> (#[trigger] A::outcome(
                    heard_through::<A>(state, clip, from, i),
                    clip_frame(clip, i),
                )) is Ok,
        },
    decreases total - from,
{
    if from < total {
        let next = A::next(state, clip_frame(clip, from));
        assert(heard_through::<A>(state, clip, from, from) == state);
        law_fault_is_the_stages_first::<A>(next, clip, from + 1, total);
        assert forall|i: int| from < i implies heard_through::<A>(state, clip, from, i)
            == #[trigger] heard_through::<A>(next, clip, from + 1, i) by {}
        if A::outcome(state, clip_frame(clip, from)) is Ok {
            match rendered::<A>(next, clip, from + 1, total) {
                Err(fault) => {
                    let j = choose|j: int|
                        {
                            &&& from + 1 <= j < total
                            &&& (#[trigger] A::outcome(
                                heard_through::<A>(next, clip, from + 1, j),
                                clip_frame(clip, j),
                            )) == Err::<Seq<u32>, StageFault>(fault)
                            &&& forall|i: int|
                                from + 1 <= i < j ==> (#[trigger] A::outcome(
                                    heard_through::<A>(next, clip, from + 1, i),
                                    clip_frame(clip, i),
                                )) is Ok
                        };
                    assert(A::outcome(
                        heard_through::<A>(state, clip, from, j),
                        clip_frame(clip, j),
                    ) == Err::<Seq<u32>, StageFault>(fault));
                    assert forall|i: int| from <= i < j implies (#[trigger] A::outcome(
                        heard_through::<A>(state, clip, from, i),
                        clip_frame(clip, i),
                    )) is Ok by {
                        if i > from {
                            assert(A::outcome(
                                heard_through::<A>(next, clip, from + 1, i),
                                clip_frame(clip, i),
                            ) is Ok);
                        }
                    }
                },
                Ok(_) => {
                    assert forall|i: int| from <= i < total implies (#[trigger] A::outcome(
                        heard_through::<A>(state, clip, from, i),
                        clip_frame(clip, i),
                    )) is Ok by {
                        if i > from {
                            assert(A::outcome(
                                heard_through::<A>(next, clip, from + 1, i),
                                clip_frame(clip, i),
                            ) is Ok);
                        }
                    }
                },
            }
        } else {
            assert(A::outcome(
                heard_through::<A>(state, clip, from, from),
                clip_frame(clip, from),
            ) is Err);
        }
    }
}

/// A clip is refused exactly when what would be rendered does not fit in memory,
/// and a shorter clip is never refused where a longer one is not.
pub proof fn law_only_what_does_not_fit_is_refused(
    descriptor: StageDescriptor,
    shorter: int,
    longer: int,
)
    requires
        0 <= shorter <= longer,
    ensures
        refusal(descriptor, longer) is None <==> total_frames(descriptor, longer)
            * PIPELINE_FRAME_SAMPLES <= usize::MAX,
        refusal(descriptor, longer) is None ==> refusal(descriptor, shorter) is None,
{
}

/// The frames fed suffice: whatever the compensation, every output sample lies
/// inside what the stage rendered, so the output is never padded; and after the
/// clip and the declared delay at least the declared tail and one frame more are
/// fed, and fewer than three frames more.
pub proof fn law_drain_is_long_enough(
    descriptor: StageDescriptor,
    len: int,
    compensation: DelayCompensation,
)
    requires
        len >= 0,
    ensures
        output_start(compensation, descriptor.algorithmic_delay_samples) + len <= total_frames(
            descriptor,
            len,
        ) * PIPELINE_FRAME_SAMPLES,
        len + descriptor.algorithmic_delay_samples + (descriptor.tail_frames + 1)
            * PIPELINE_FRAME_SAMPLES <= total_frames(descriptor, len) * PIPELINE_FRAME_SAMPLES
            < len + descriptor.algorithmic_delay_samples + (descriptor.tail_frames + 3)
            * PIPELINE_FRAME_SAMPLES,
{
}

} // verus!
