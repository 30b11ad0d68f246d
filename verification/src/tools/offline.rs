//! Offline processing of a clip through a stage.
//!
//! This is the same runner the live engine uses, driven from a clip instead of
//! a device, so a comparison made here is one of what will actually be heard.

use vstd::prelude::*;

use crate::engine::offline;
use crate::engine::offline::align_output;
use crate::signal::error::Error;
use crate::signal::ring;
use crate::signal::ring::SILENCE;
use crate::signal::runner;
use crate::signal::runner::{scale_rate, Direct, RateConverter, RunnerState, StageRunner};
use crate::signal::stage::{Passthrough, Stage, StageSpec};

verus! {

/// Host block size used for offline runs, in the range of a real device buffer.
pub const OFFLINE_BLOCK: usize = 256;

/// How the output is aligned with the input.
#[derive(Debug, Clone, Copy, PartialEq, Eq, Structural)]
pub enum Alignment {
    /// By the delay measured from the signal itself, or by the reported one
    /// where that failed.
    Measured,
    /// By the delay the runner reports.
    Reported,
    /// Not at all.
    Unaligned,
}

/// `len` samples of a clip from `offset` on, padded with silence.
pub open spec fn padded(clip: Seq<u32>, offset: int, len: nat) -> Seq<u32> {
    Seq::new(
        len,
        |k: int|
            if offset + k < clip.len() {
                clip[offset + k]
            } else {
                SILENCE
            },
    )
}

/// How long the block at `offset` is.
pub open spec fn block_at(offset: int, total: int) -> int {
    if total - offset < OFFLINE_BLOCK {
        total - offset
    } else {
        OFFLINE_BLOCK as int
    }
}

/// What a runner answers to a host block, and its state afterwards.
pub open spec fn answered<S: Stage, C: RateConverter>(
    state: RunnerState<S, C>,
    input: Seq<u32>,
    block: nat,
) -> (Result<Seq<u32>, Error>, RunnerState<S, C>) {
    let run = runner::drained(runner::fed(state, input), block);
    match run.1 {
        None => (
            Ok(runner::emitted(run.0.ready, input.len())),
            runner::emptied(run.0, input.len()),
        ),
        Some(error) => (Err(error), run.0),
    }
}

/// What a runner answers to the samples `offset..total` of a clip: all its
/// output and how often it ran dry in the end, or its first error.
pub open spec fn produced<S: Stage, C: RateConverter>(
    state: RunnerState<S, C>,
    clip: Seq<u32>,
    offset: int,
    total: int,
    block: nat,
) -> Result<(Seq<u32>, nat), Error>
    decreases total - offset,
{
    if offset >= total {
        Ok((Seq::empty(), state.underruns))
    } else {
        let take = block_at(offset, total);
        let step = answered(state, padded(clip, offset, take as nat), block);
        match step.0 {
            Err(error) => Err(error),
            Ok(output) => match produced(step.1, clip, offset + take, total, block) {
                Err(error) => Err(error),
                Ok((rest, underruns)) => Ok((output + rest, underruns)),
            },
        }
    }
}

/// A runner once it has been fed exactly the samples `offset..total` of a clip.
pub open spec fn fed_through<S: Stage, C: RateConverter>(
    state: RunnerState<S, C>,
    clip: Seq<u32>,
    offset: int,
    total: int,
    block: nat,
) -> RunnerState<S, C>
    decreases total - offset,
{
    if offset >= total {
        state
    } else {
        let take = block_at(offset, total);
        let step = answered(state, padded(clip, offset, take as nat), block);
        fed_through(step.1, clip, offset + take, total, block)
    }
}

/// Silence fed after the clip, so that its tail is not lost: the reported
/// delay, a block, and one stage block at the host rate.
pub open spec fn flush_for(reported_delay: int, spec: StageSpec, host_rate: u32) -> int {
    reported_delay + OFFLINE_BLOCK + runner::rescaled(
        spec.block_size as int,
        spec.sample_rate as int,
        host_rate as int,
    )
}

/// The block of a clip at `offset`, padded with silence.
fn read_block(clip: &[u32], offset: usize, len: usize) -> (block: Vec<u32>)
    requires
        offset + len <= usize::MAX,
    ensures
        block@ == padded(clip@, offset as int, len as nat),
{
    let mut block: Vec<u32> = Vec::with_capacity(len);
    while block.len() < len
        invariant
            offset + len <= usize::MAX,
            block@.len() <= len,
            block@ == padded(clip@, offset as int, len as nat).take(block@.len() as int),
        decreases len - block@.len(),
    {
        let at: usize = offset + block.len();
        block.push(if at < clip.len() { clip[at] } else { SILENCE });
        assert(block@ =~= padded(clip@, offset as int, len as nat).take(block@.len() as int));
    }
    assert(block@ =~= padded(clip@, offset as int, len as nat));
    block
}

/// Feeds a clip, padded with silence to `total` samples, through a runner.
pub fn feed_clip<S: Stage, C: RateConverter>(
    runner: &mut StageRunner<S, C>,
    clip: &[u32],
    total: usize,
) -> (result: Result<Vec<u32>, Error>)
    requires
        old(runner).wf(),
        old(runner).block_limit() >= OFFLINE_BLOCK,
    ensures
        final(runner).wf(),
        final(runner).spec_of() == old(runner).spec_of(),
        final(runner).rate() == old(runner).rate(),
        final(runner).latency() == old(runner).latency(),
        match produced(
            old(runner)@,
            clip@,
            0,
            total as int,
            old(runner).spec_of().block_size as nat,
        ) {
            Ok((samples, underruns)) => {
                &&& result matches Ok(output)
                &&& output@ == samples
                &&& final(runner)@.underruns == underruns
                &&& final(runner)@ == fed_through(
                    old(runner)@,
                    clip@,
                    0,
                    total as int,
                    old(runner).spec_of().block_size as nat,
                )
            },
            Err(error) => result == Err::<Vec<u32>, Error>(error),
        },
{
    let mut samples: Vec<u32> = Vec::new();
    let mut offset: usize = 0;
    let ghost block = runner.spec_of().block_size as nat;
    let ghost start = runner@;
    proof {
        match produced(start, clip@, 0, total as int, block) {
            Err(_) => {},
            Ok((rest, _)) => {
                assert(samples@ + rest =~= rest);
            },
        }
    }
    while offset < total
        invariant
            offset <= total,
            runner.wf(),
            runner.spec_of() == old(runner).spec_of(),
            runner.rate() == old(runner).rate(),
            runner.latency() == old(runner).latency(),
            runner.block_limit() >= OFFLINE_BLOCK,
            block == old(runner).spec_of().block_size,
            start == old(runner)@,
            produced(start, clip@, 0, total as int, block) == (match produced(
                runner@,
                clip@,
                offset as int,
                total as int,
                block,
            ) {
                Err(error) => Err::<(Seq<u32>, nat), Error>(error),
                Ok((rest, underruns)) => Ok((samples@ + rest, underruns)),
            }),
            fed_through(start, clip@, 0, total as int, block) == fed_through(
                runner@,
                clip@,
                offset as int,
                total as int,
                block,
            ),
        decreases total - offset,
    {
        let take: usize = if total - offset < OFFLINE_BLOCK {
            total - offset
        } else {
            OFFLINE_BLOCK
        };
        let input: Vec<u32> = read_block(clip, offset, take);
        let mut output: Vec<u32> = vec![0; take];
        match runner.process(input.as_slice(), output.as_mut_slice()) {
            Err(error) => {
                return Err(error);
            },
            Ok(()) => {},
        }
        let ghost so_far = samples@;
        samples.extend_from_slice(output.as_slice());
        offset = offset + take;
        proof {
            assert(samples@ =~= so_far + output@);
            match produced(runner@, clip@, offset as int, total as int, block) {
                Err(_) => {},
                Ok((rest, _)) => {
                    assert(so_far + (output@ + rest) =~= samples@ + rest);
                },
            }
        }
    }
    assert(samples@ + Seq::<u32>::empty() =~= samples@);
    Ok(samples)
}

/// What a stage made of a clip, before alignment.
#[derive(Debug)]
pub struct Rendering {
    /// Everything the runner emitted.
    pub samples: Vec<u32>,
    /// Delay the runner reported, in host samples.
    pub reported_delay: usize,
    /// The part of it that is the runner's own, not the stage's.
    pub overhead: usize,
    /// How often the runner's output ran dry. Should be zero.
    pub underruns: u64,
    /// The stage's native rate.
    pub native_rate: u32,
}

/// Runs `stage` over a clip at `host_rate`, with converters for the two
/// directions. The clip is padded with enough silence to flush the pipeline.
pub fn render<S: Stage, C: RateConverter>(
    stage: S,
    to_stage: C,
    from_stage: C,
    clip: &[u32],
    host_rate: u32,
) -> (result: Result<Rendering, Error>)
    requires
        runner::adaptable(stage, to_stage, from_stage, host_rate, OFFLINE_BLOCK),
        clip@.len() + flush_for(
            runner::end_to_end(stage.description(), host_rate, to_stage, from_stage),
            stage.description(),
            host_rate,
        ) <= usize::MAX,
    ensures
        ({
            let spec = stage.description();
            let delay = runner::end_to_end(spec, host_rate, to_stage, from_stage);
            if spec.block_size == 0 {
                result matches Err(Error::InvalidConfiguration(reason)) && reason@
                    == "stage block size must be non-zero"@
            } else {
                match produced(
                    runner::fresh(stage, to_stage, from_stage, host_rate, OFFLINE_BLOCK),
                    clip@,
                    0,
                    clip@.len() + flush_for(delay, spec, host_rate),
                    spec.block_size as nat,
                ) {
                    Err(error) => result == Err::<Rendering, Error>(error),
                    Ok((samples, underruns)) => {
                        &&& result matches Ok(rendering)
                        &&& rendering.samples@ == samples
                        &&& rendering.reported_delay == delay
                        &&& rendering.overhead == delay - runner::rescaled(
                            spec.latency_samples as int,
                            spec.sample_rate as int,
                            host_rate as int,
                        )
                        &&& rendering.underruns == underruns
                        &&& rendering.native_rate == spec.sample_rate
                    },
                }
            }
        }),
{
    let spec = stage.spec();
    let mut runner = match StageRunner::new(
        stage,
        to_stage,
        from_stage,
        host_rate,
        OFFLINE_BLOCK,
    ) {
        Ok(runner) => runner,
        Err(error) => {
            return Err(error);
        },
    };
    let reported_delay: usize = runner.latency_samples();
    let own: usize = scale_rate(spec.latency_samples, spec.sample_rate, host_rate);
    let stage_block: usize = scale_rate(spec.block_size, spec.sample_rate, host_rate);
    proof {
        lemma_rescaled_is_natural(
            spec.latency_samples as int,
            spec.sample_rate as int,
            host_rate as int,
        );
        lemma_rescaled_is_natural(
            spec.block_size as int,
            spec.sample_rate as int,
            host_rate as int,
        );
    }
    let total: usize = clip.len() + (reported_delay + OFFLINE_BLOCK + stage_block);
    let samples: Vec<u32> = match feed_clip(&mut runner, clip, total) {
        Ok(samples) => samples,
        Err(error) => {
            return Err(error);
        },
    };
    Ok(
        Rendering {
            samples,
            reported_delay,
            overhead: reported_delay - own,
            underruns: runner.underruns(),
            native_rate: spec.sample_rate,
        },
    )
}

proof fn lemma_rescaled_is_natural(samples: int, from_rate: int, to_rate: int)
    requires
        samples >= 0,
        from_rate > 0,
        to_rate >= 0,
    ensures
        runner::rescaled(samples, from_rate, to_rate) >= 0,
{
    assert(samples * to_rate >= 0) by (nonlinear_arith)
        requires
            samples >= 0,
            to_rate >= 0,
    ;
    let sum = runner::at_most(
        runner::at_most(samples * to_rate, u64::MAX as int) + from_rate / 2,
        u64::MAX as int,
    );
    assert(sum / from_rate >= 0) by (nonlinear_arith)
        requires
            sum >= 0,
            from_rate > 0,
    ;
}

/// How far past the start a delay is searched for: the reported delay is near
/// the truth, so a quarter of a second beyond it.
pub fn search_limit(reported_delay: usize, host_rate: u32) -> (limit: usize)
    requires
        reported_delay + host_rate / 4 <= usize::MAX,
    ensures
        limit == reported_delay + host_rate / 4,
        4 * (limit - reported_delay) <= host_rate < 4 * (limit - reported_delay) + 4,
{
    reported_delay + (host_rate / 4) as usize
}

/// Result of running one stage over one clip.
#[derive(Debug)]
pub struct Outcome {
    /// The processed audio, aligned, as long as the clip.
    pub samples: Vec<u32>,
    /// Delay the runner reported.
    pub reported_delay: usize,
    /// Delay measured from the signal, where that succeeded.
    pub measured_delay: Option<usize>,
    /// Samples trimmed from the head to align the output.
    pub trimmed: usize,
    /// How often the runner's output ran dry.
    pub underruns: u64,
    /// Delay attributable to the model itself, at its native rate.
    pub model_delay_native: Option<usize>,
}

/// How many samples are trimmed from the head.
pub open spec fn trim(alignment: Alignment, measured: Option<usize>, reported: usize) -> usize {
    match alignment {
        Alignment::Measured => match measured {
            Some(delay) => delay,
            None => reported,
        },
        Alignment::Reported => reported,
        Alignment::Unaligned => 0,
    }
}

/// The delay of the model itself: what was measured beyond the runner's own
/// part, at the model's rate.
pub open spec fn attributed(
    measured: usize,
    overhead: usize,
    host_rate: u32,
    native_rate: u32,
) -> int {
    runner::rescaled(
        if measured > overhead {
            measured - overhead
        } else {
            0
        },
        host_rate as int,
        native_rate as int,
    )
}

/// Aligns a rendering with the clip, given the delay that was measured from
/// the signal.
pub fn finish(
    rendering: Rendering,
    clip_len: usize,
    host_rate: u32,
    alignment: Alignment,
    measured_delay: Option<usize>,
) -> (outcome: Outcome)
    requires
        measured_delay is Some ==> host_rate > 0,
    ensures
        outcome.trimmed == trim(alignment, measured_delay, rendering.reported_delay),
        outcome.samples@ == offline::aligned(
            rendering.samples@,
            outcome.trimmed as int,
            clip_len as nat,
        ),
        outcome.reported_delay == rendering.reported_delay,
        outcome.measured_delay == measured_delay,
        outcome.underruns == rendering.underruns,
        outcome.model_delay_native == (match measured_delay {
            Some(measured) => Some(
                attributed(measured, rendering.overhead, host_rate, rendering.native_rate) as usize,
            ),
            None => None,
        }),
        outcome.samples@.len() == clip_len,
        forall|lead: Seq<u32>, clip: Seq<u32>, tail: Seq<u32>|
            {
                &&& rendering.samples@ == #[trigger] (lead + clip + tail)
                &&& clip.len() == clip_len
                &&& alignment == Alignment::Measured && measured_delay == Some(
                    lead.len() as usize,
                )
                &&& lead.len() <= usize::MAX
            } ==> outcome.samples@ == clip,
        forall|lead: Seq<u32>, clip: Seq<u32>, tail: Seq<u32>|
            {
                &&& rendering.samples@ == #[trigger] (lead + clip + tail)
                &&& clip.len() == clip_len
                &&& alignment == Alignment::Reported || (alignment == Alignment::Measured
                    && measured_delay is None)
                &&& lead.len() == rendering.reported_delay
            } ==> outcome.samples@ == clip,
{
    proof {
        assert forall|lead: Seq<u32>, clip: Seq<u32>, tail: Seq<u32>| offline::aligned(
            #[trigger] (lead + clip + tail),
            lead.len() as int,
            clip.len(),
        ) == clip by {
            offline::law_removal_undoes_the_delay(lead, clip, tail);
        }
    }
    let trimmed: usize = match alignment {
        Alignment::Measured => match measured_delay {
            Some(delay) => delay,
            None => rendering.reported_delay,
        },
        Alignment::Reported => rendering.reported_delay,
        Alignment::Unaligned => 0,
    };
    let samples: Vec<u32> = align_output(&rendering.samples, trimmed, clip_len);
    let model_delay_native: Option<usize> = match measured_delay {
        Some(measured) => {
            let attributable: usize = if measured > rendering.overhead {
                measured - rendering.overhead
            } else {
                0
            };
            Some(scale_rate(attributable, host_rate, rendering.native_rate))
        },
        None => None,
    };
    Outcome {
        samples,
        reported_delay: rendering.reported_delay,
        measured_delay,
        trimmed,
        underruns: rendering.underruns,
        model_delay_native,
    }
}

/// A measured delay decides alone: a rendering that holds the clip behind as many
/// samples as were measured comes back as exactly the clip, whatever delay was
/// reported.
pub proof fn law_measured_delay_aligns_the_clip(
    lead: Seq<u32>,
    clip: Seq<u32>,
    tail: Seq<u32>,
    measured: usize,
    reported: usize,
)
    requires
        lead.len() == measured,
    ensures
        offline::aligned(
            lead + clip + tail,
            trim(Alignment::Measured, Some(measured), reported) as int,
            clip.len(),
        ) == clip,
{
    offline::law_removal_undoes_the_delay(lead, clip, tail);
}

/// The reported delay aligns the clip where nothing was measured, and wherever it
/// was asked for, whatever was measured.
pub proof fn law_reported_delay_aligns_the_clip(
    lead: Seq<u32>,
    clip: Seq<u32>,
    tail: Seq<u32>,
    measured: Option<usize>,
    reported: usize,
)
    requires
        lead.len() == reported,
    ensures
        offline::aligned(
            lead + clip + tail,
            trim(Alignment::Measured, None, reported) as int,
            clip.len(),
        ) == clip,
        offline::aligned(
            lead + clip + tail,
            trim(Alignment::Reported, measured, reported) as int,
            clip.len(),
        ) == clip,
{
    offline::law_removal_undoes_the_delay(lead, clip, tail);
}

/// Without alignment the head of the rendering is kept as it is, whatever was
/// measured or reported.
pub proof fn law_unaligned_output_keeps_its_head(
    samples: Seq<u32>,
    len: nat,
    measured: Option<usize>,
    reported: usize,
)
    requires
        len <= samples.len(),
    ensures
        offline::aligned(
            samples,
            trim(Alignment::Unaligned, measured, reported) as int,
            len,
        ) == samples.take(len as int),
{
    assert(offline::aligned(
        samples,
        trim(Alignment::Unaligned, measured, reported) as int,
        len,
    ) =~= samples.take(len as int));
}

/// The delay of a model is what was measured beyond the runner's own part: at one
/// rate exactly that, at another the nearest count, and none where the runner's
/// part was not even reached.
pub proof fn law_model_delay_is_what_is_left(
    own: usize,
    overhead: usize,
    host_rate: u32,
    native_rate: u32,
)
    requires
        host_rate > 0,
        own + overhead <= usize::MAX,
        own * native_rate + host_rate <= u64::MAX,
        own * native_rate + host_rate <= usize::MAX,
    ensures
        host_rate == native_rate ==> attributed(
            (own + overhead) as usize,
            overhead,
            host_rate,
            native_rate,
        ) == own,
        2 * (attributed((own + overhead) as usize, overhead, host_rate, native_rate) * host_rate
            - own * native_rate) <= host_rate,
        2 * (own * native_rate - attributed(
            (own + overhead) as usize,
            overhead,
            host_rate,
            native_rate,
        ) * host_rate) <= host_rate,
        forall|less: usize|
            less <= overhead ==> #[trigger] attributed(less, overhead, host_rate, native_rate)
                == 0,
{
    let sum = own * native_rate + host_rate as int / 2;
    assert(own * native_rate >= 0) by (nonlinear_arith)
        requires
            own >= 0,
            native_rate >= 0,
    ;
    assert(sum / (host_rate as int) <= sum) by (nonlinear_arith)
        requires
            sum >= 0,
            host_rate > 0,
    ;
    runner::law_rescaled_is_nearest(own as int, host_rate as int, native_rate as int);
    assert forall|less: usize| less <= overhead implies #[trigger] attributed(
        less,
        overhead,
        host_rate,
        native_rate,
    ) == 0 by {
        let half = host_rate as int / 2;
        assert(0 * (native_rate as int) == 0);
        assert(half / (host_rate as int) == 0) by (nonlinear_arith)
            requires
                0 <= half < host_rate,
        ;
    }
}

/// The part of a clip from which a delay is measured.
#[derive(Debug, Clone, Copy, PartialEq, Eq, Structural)]
pub struct DelayWindow {
    /// First sample.
    pub start: usize,
    /// Number of samples.
    pub len: usize,
}

/// A window of at most two seconds from the middle of the clip, so that neither
/// the warm-up nor the flush tail dominates; `None` when the clip or what was
/// made of it is too short to measure.
pub fn delay_window(
    reference_len: usize,
    processed_len: usize,
    sample_rate: u32,
    max_lag: usize,
) -> (window: Option<DelayWindow>)
    requires
        2 * sample_rate <= usize::MAX,
    ensures
        ({
            let half = reference_len as int / 2;
            let len = if 2 * sample_rate < half {
                2 * sample_rate
            } else {
                half
            };
            match window {
                None => len < 1024 || processed_len < len + max_lag,
                Some(chosen) => {
                    &&& len >= 1024
                    &&& processed_len >= len + max_lag
                    &&& chosen.len == len
                    &&& chosen.start == half - len / 2
                    &&& chosen.start + chosen.len <= reference_len
                },
            }
        }),
        window matches Some(chosen) ==> {
            &&& 1024 <= chosen.len <= 2 * sample_rate
            &&& 2 * chosen.len <= reference_len
            &&& chosen.len == 2 * sample_rate || 2 * chosen.len + 1 >= reference_len
            &&& reference_len - 1 <= 2 * chosen.start + chosen.len <= reference_len + 1
            &&& chosen.len + max_lag <= processed_len
        },
{
    let half: usize = reference_len / 2;
    let two_seconds: usize = sample_rate as usize * 2;
    let len: usize = if two_seconds < half { two_seconds } else { half };
    if len < 1024 || processed_len < len || processed_len - len < max_lag {
        return None;
    }
    Some(DelayWindow { start: half - len / 2, len })
}

/// How many lags can be compared: those at which the window still lies inside
/// what was produced, up to the limit.
pub fn lags(window: DelayWindow, processed_len: usize, max_lag: usize) -> (count: usize)
    requires
        max_lag < usize::MAX,
    ensures
        count == (if window.start + window.len > processed_len {
            0
        } else if processed_len - window.start - window.len < max_lag {
            processed_len - window.start - window.len + 1
        } else {
            max_lag + 1
        }),
        count <= max_lag + 1,
        count > 0 ==> window.start + window.len + (count - 1) <= processed_len,
        count <= max_lag ==> window.start + window.len + count > processed_len,
{
    if window.start > processed_len || window.len > processed_len - window.start {
        return 0;
    }
    let room: usize = processed_len - window.start - window.len;
    if room < max_lag {
        room + 1
    } else {
        max_lag + 1
    }
}

/// Bit pattern of 0.2, the correlation below which a peak cannot be told from
/// noise.
pub const TRUSTED_CORRELATION: u64 = 0x3fc9_9999_9999_999a;

/// First double-precision bit pattern with the sign bit set.
pub const SCORE_SIGN_BIT: u64 = 0x8000_0000_0000_0000;

/// Bit pattern of double-precision infinity. Larger magnitudes are not
/// numbers.
pub const INFINITE_SCORE: u64 = 0x7ff0_0000_0000_0000;

/// The place of a double-precision number in their order.
pub open spec fn rank(score: u64) -> int {
    if score >= SCORE_SIGN_BIT {
        -(score - SCORE_SIGN_BIT)
    } else {
        score as int
    }
}

/// Whether a score is a number.
pub open spec fn is_number(score: u64) -> bool {
    -INFINITE_SCORE <= rank(score) <= INFINITE_SCORE
}

/// Whether the lag at `place` has a score that counts.
pub open spec fn scored(scores: Seq<Option<u64>>, place: int) -> bool {
    scores[place] matches Some(score) && is_number(score) && rank(score) > -INFINITE_SCORE
}

/// The first lag with the highest correlation, unless none is trustworthy.
/// Scores are bit patterns; a lag at which there was nothing to compare has
/// none.
pub fn pick_lag(scores: &[Option<u64>]) -> (lag: Option<usize>)
    ensures
        match lag {
            Some(best) => {
                &&& best < scores@.len()
                &&& scored(scores@, best as int)
                &&& rank(scores@[best as int]->0) >= rank(TRUSTED_CORRELATION)
                &&& forall|k: int|
                    0 <= k < scores@.len() && #[trigger] scored(scores@, k) ==> rank(
                        scores@[k]->0,
                    ) <= rank(scores@[best as int]->0)
                &&& forall|k: int|
                    0 <= k < best && #[trigger] scored(scores@, k) ==> rank(scores@[k]->0) < rank(
                        scores@[best as int]->0,
                    )
            },
            None => forall|k: int|
                0 <= k < scores@.len() && #[trigger] scored(scores@, k) ==> rank(scores@[k]->0)
                    < rank(TRUSTED_CORRELATION),
        },
{
    let mut best: Option<usize> = None;
    let mut highest: i128 = -(INFINITE_SCORE as i128);
    let mut i: usize = 0;
    while i < scores.len()
        invariant
            i <= scores@.len(),
            -INFINITE_SCORE <= highest <= INFINITE_SCORE,
            best is None ==> highest == -INFINITE_SCORE,
            match best {
                Some(at) => {
                    &&& at < i
                    &&& scored(scores@, at as int)
                    &&& highest == rank(scores@[at as int]->0)
                    &&& forall|k: int|
                        0 <= k < at && #[trigger] scored(scores@, k) ==> rank(scores@[k]->0)
                            < highest
                },
                None => true,
            },
            forall|k: int|
                0 <= k < i && #[trigger] scored(scores@, k) ==> rank(scores@[k]->0) <= highest,
        decreases scores@.len() - i,
    {
        match scores[i] {
            Some(score) => {
                let place: i128 = if score >= SCORE_SIGN_BIT {
                    -((score - SCORE_SIGN_BIT) as i128)
                } else {
                    score as i128
                };
                assert(place == rank(score));
                if place <= INFINITE_SCORE as i128 && place > highest {
                    assert(scored(scores@, i as int));
                    best = Some(i);
                    highest = place;
                }
            },
            None => {},
        }
        i = i + 1;
    }
    if highest < TRUSTED_CORRELATION as i128 {
        None
    } else {
        best
    }
}

/// A bypass at the host rate returns what was inside the runner and then the
/// clip, and never runs dry.
proof fn lemma_bypass_produces(
    state: RunnerState<Passthrough, Direct>,
    clip: Seq<u32>,
    offset: int,
    total: int,
    block: nat,
)
    requires
        runner::in_step(state, block, OFFLINE_BLOCK as nat),
        0 <= offset <= total,
    ensures
        produced(state, clip, offset, total, block) == Ok::<(Seq<u32>, nat), Error>(
            (
                (runner::inside(state) + padded(clip, offset, (total - offset) as nat)).take(
                    total - offset,
                ),
                state.underruns,
            ),
        ),
    decreases total - offset,
{
    let inside = runner::inside(state);
    let expected = (inside + padded(clip, offset, (total - offset) as nat)).take(total - offset);
    if offset == total {
        assert(expected =~= Seq::<u32>::empty());
    } else {
        let take = block_at(offset, total);
        let input = padded(clip, offset, take as nat);
        runner::law_bypass_is_a_delay_line(state, input, block, OFFLINE_BLOCK as nat);
        let (output, next) = runner::bypassed(state, input, block);
        assert(answered(state, input, block).0 == Ok::<Seq<u32>, Error>(output));
        assert(answered(state, input, block).1 == next);
        lemma_bypass_produces(next, clip, offset + take, total, block);
        let rest = padded(clip, offset + take, (total - offset - take) as nat);
        assert(padded(clip, offset, (total - offset) as nat) =~= input + rest);
        assert(inside + (input + rest) =~= (inside + input) + rest);
        assert((output + runner::inside(next)) + rest =~= output + (runner::inside(next) + rest));
        assert(expected =~= output + (runner::inside(next) + rest).take(total - offset - take));
    }
}

/// A bypass at the host rate comes back sample for sample once it is aligned by
/// the reported delay, and never runs dry: what is compared offline is the
/// model, not the tool.
pub proof fn law_aligned_bypass_is_the_clip(stage: Passthrough, clip: Seq<u32>, host_rate: u32)
    requires
        stage.description().sample_rate == host_rate,
        stage.description().latency_samples == 0,
        stage.description().block_size > 0,
    ensures
        ({
            let spec = stage.description();
            let delay = runner::end_to_end(spec, host_rate, Direct, Direct);
            let made = produced(
                runner::fresh(stage, Direct, Direct, host_rate, OFFLINE_BLOCK),
                clip,
                0,
                clip.len() + flush_for(delay, spec, host_rate),
                spec.block_size as nat,
            );
            &&& made is Ok
            &&& made->Ok_0.1 == 0
            &&& offline::aligned(made->Ok_0.0, delay, clip.len()) == clip
        }),
{
    let spec = stage.description();
    let delay = runner::end_to_end(spec, host_rate, Direct, Direct);
    let total = clip.len() + flush_for(delay, spec, host_rate);
    let fresh = runner::fresh(stage, Direct, Direct, host_rate, OFFLINE_BLOCK);
    runner::law_fresh_bypass_is_in_step(stage, host_rate, OFFLINE_BLOCK);
    lemma_bypass_produces(fresh, clip, 0, total, spec.block_size as nat);
    let samples = (ring::silence(delay as nat) + padded(clip, 0, total as nat)).take(total);
    assert(offline::aligned(samples, delay, clip.len()) =~= clip);
}

/// What a runner makes of a clip comes in the order in which it was fed: at every
/// boundary between host blocks, the head is what comes of the samples before it, and
/// the tail is what the runner that was fed just those makes of the rest.
pub proof fn law_production_goes_on_where_it_was_left<S: Stage, C: RateConverter>(
    state: RunnerState<S, C>,
    clip: Seq<u32>,
    offset: int,
    blocks: int,
    total: int,
    block: nat,
)
    requires
        0 <= blocks,
        offset + blocks * OFFLINE_BLOCK <= total,
        produced(state, clip, offset, total, block) is Ok,
    ensures
        ({
            let middle = offset + blocks * OFFLINE_BLOCK;
            let head = produced(state, clip, offset, middle, block);
            let left = fed_through(state, clip, offset, middle, block);
            let tail = produced(left, clip, middle, total, block);
            let whole = produced(state, clip, offset, total, block)->Ok_0;
            &&& head is Ok
            &&& tail is Ok
            &&& head->Ok_0.0.len() == middle - offset
            &&& whole.0.len() == total - offset
            &&& whole.0 == head->Ok_0.0 + tail->Ok_0.0
            &&& whole.1 == tail->Ok_0.1
            &&& fed_through(state, clip, offset, total, block) == fed_through(
                left,
                clip,
                middle,
                total,
                block,
            )
        }),
    decreases total - offset,
{
    let middle = offset + blocks * OFFLINE_BLOCK;
    let whole = produced(state, clip, offset, total, block)->Ok_0;
    if offset < total {
        let take = block_at(offset, total);
        let step = answered(state, padded(clip, offset, take as nat), block);
        let output = step.0->Ok_0;
        assert(output.len() == take);
        if blocks > 0 {
            assert(block_at(offset, middle) == OFFLINE_BLOCK);
            law_production_goes_on_where_it_was_left(
                step.1,
                clip,
                offset + take,
                blocks - 1,
                total,
                block,
            );
            let head = produced(step.1, clip, offset + take, middle, block)->Ok_0.0;
            let left = fed_through(step.1, clip, offset + take, middle, block);
            let tail = produced(left, clip, middle, total, block)->Ok_0.0;
            assert(output + (head + tail) =~= (output + head) + tail);
        } else {
            law_production_goes_on_where_it_was_left(
                step.1,
                clip,
                offset + take,
                0,
                total,
                block,
            );
            assert(Seq::<u32>::empty() + whole.0 =~= whole.0);
        }
    } else {
        assert(Seq::<u32>::empty() + whole.0 =~= whole.0);
    }
}

/// What a runner makes of one host block is what it answers to the samples of the clip
/// there, with silence behind the end of the clip.
pub proof fn law_one_block_is_what_the_runner_answers<S: Stage, C: RateConverter>(
    state: RunnerState<S, C>,
    clip: Seq<u32>,
    offset: int,
    len: nat,
    block: nat,
    k: int,
)
    requires
        0 <= offset,
        0 < len <= OFFLINE_BLOCK,
        0 <= k < len,
    ensures
        ({
            let input = padded(clip, offset, len);
            let run = runner::drained(runner::fed(state, input), block);
            &&& input.len() == len
            &&& input[k] == (clip + ring::silence((offset + len) as nat))[offset + k]
            &&& run.1 is None ==> produced(state, clip, offset, offset + len, block) == Ok::<
                (Seq<u32>, nat),
                Error,
            >(
                (
                    runner::emitted(run.0.ready, len),
                    runner::emptied(run.0, len).underruns,
                ),
            )
            &&& run.1 matches Some(error) ==> produced(state, clip, offset, offset + len, block)
                == Err::<(Seq<u32>, nat), Error>(error)
        }),
{
    let input = padded(clip, offset, len);
    let step = answered(state, input, block);
    assert(block_at(offset, offset + len) == len);
    if step.0 is Ok {
        assert(step.0->Ok_0 + Seq::<u32>::empty() =~= step.0->Ok_0);
        assert(produced(step.1, clip, offset + len, offset + len, block) == Ok::<
            (Seq<u32>, nat),
            Error,
        >((Seq::<u32>::empty(), step.1.underruns)));
    }
}

/// The silence behind a clip is enough: what is fed covers the clip, the reported delay,
/// a host block and a block of the stage brought to the host rate.
pub proof fn law_flush_covers_the_delay(delay: int, spec: StageSpec, host_rate: u32)
    requires
        delay >= 0,
        spec.sample_rate > 0,
    ensures
        flush_for(delay, spec, host_rate) >= delay + OFFLINE_BLOCK,
        spec.sample_rate == host_rate ==> flush_for(delay, spec, host_rate) == delay
            + OFFLINE_BLOCK + spec.block_size,
        flush_for(delay, spec, host_rate) - delay == flush_for(0, spec, host_rate),
{
    lemma_rescaled_is_natural(
        spec.block_size as int,
        spec.sample_rate as int,
        host_rate as int,
    );
}

/// Scores are ordered as the numbers they stand for: of two positive ones the one with
/// the larger pattern is larger, a sign turns the order round, zero has one place
/// whatever its sign, and a pattern is no number exactly where its exponent is the
/// highest one and something stands behind it.
pub proof fn law_scores_are_ordered(score: u64, other: u64)
    requires
        score < SCORE_SIGN_BIT,
        other < SCORE_SIGN_BIT,
    ensures
        rank(score) < rank(other) <==> score < other,
        rank((score + SCORE_SIGN_BIT) as u64) == -rank(score),
        rank((score + SCORE_SIGN_BIT) as u64) <= 0 <= rank(score),
        rank(0) == 0,
        is_number(score) <==> !(score as int / 0x10_0000_0000_0000 == 2047 && score as int
            % 0x10_0000_0000_0000 != 0),
        is_number((score + SCORE_SIGN_BIT) as u64) == is_number(score),
{
}

} // verus!
