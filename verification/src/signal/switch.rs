//! Lock-free publication and click-free activation of prepared stages.
//!
//! The control plane fully constructs the next stage and hands it to the
//! inference thread through a bounded lock-free queue
//! ([`StagePublisher::publish`]). The inference thread ([`SwitchingEngine`])
//! fades the current stage to silence, swaps ownership, and fades the new
//! stage in, so a model switch never clicks and never blocks the audio path.
//!
//! The dry/wet blend runs before the switch fade, so during a switch the whole
//! mix fades out and back in, and the dry delay only ever changes at the
//! silent boundary.

use std::sync::atomic::{AtomicU64, Ordering};
use std::sync::Arc;

use crossbeam_queue::ArrayQueue;
use vstd::prelude::*;
use vstd::string::*;

use crate::signal::block::{BlockStage, StageError};
use crate::signal::mix;
use crate::signal::mix::{DryLine, IntensityReader};
use crate::signal::slot::StageSlot;
use crate::text;
use crate::text::push_decimal;

verus! {

/// A bounded lock-free queue that several threads share. Its contents change
/// behind a shared reference, so nothing is known of them.
#[verifier::external_type_specification]
#[verifier::external_body]
#[verifier::reject_recursive_types(T)]
pub struct ExArrayQueue<T>(crossbeam_queue::ArrayQueue<T>);

/// `ArrayQueue::new` allocates an empty queue of the given capacity. It panics
/// on a capacity of zero, and on one too large to be allocated, which depends
/// on the element; one slot is all that is used.
pub assume_specification<T>[ crossbeam_queue::ArrayQueue::<T>::new ](
    cap: usize,
) -> crossbeam_queue::ArrayQueue<T>
    requires
        cap == 1,
;

/// `ArrayQueue::force_push` enqueues an element; when the queue is full it
/// removes and returns the oldest one. Whether it is full depends on the other
/// threads, so nothing is claimed of the result.
pub assume_specification<T>[ crossbeam_queue::ArrayQueue::<T>::force_push ](
    shared: &crossbeam_queue::ArrayQueue<T>,
    value: T,
) -> Option<T>
;

/// `ArrayQueue::pop` removes the oldest element, if there is one. Whether
/// there is depends on the other threads, so nothing is claimed of the result.
pub assume_specification<T>[ crossbeam_queue::ArrayQueue::<T>::pop ](
    shared: &crossbeam_queue::ArrayQueue<T>,
) -> Option<T>
;

/// A stage on its way to the inference thread. It is intact.
pub struct PreparedStage<S: BlockStage> {
    generation: u64,
    stage: S,
}

impl<S: BlockStage> PreparedStage<S> {
    #[verifier::type_invariant]
    spec fn intact(self) -> bool {
        self.stage.wf()
    }

    /// The number under which the stage was published.
    pub closed spec fn number(&self) -> u64 {
        self.generation
    }

    /// The stage itself.
    pub closed spec fn inner(&self) -> S {
        self.stage
    }

    /// Prepares a stage for publication under a generation.
    pub fn new(generation: u64, stage: S) -> (prepared: Self)
        requires
            stage.wf(),
        ensures
            prepared.number() == generation,
            prepared.inner() == stage,
    {
        PreparedStage { generation, stage }
    }

    /// Prepares a stage for publication after the generation `previous`: under
    /// the next one, or zero at the limit.
    pub fn after(previous: u64, stage: S) -> (prepared: Self)
        requires
            stage.wf(),
        ensures
            prepared.number() == (if previous == u64::MAX {
                0
            } else {
                previous + 1
            }),
            prepared.inner() == stage,
    {
        PreparedStage::new(previous.wrapping_add(1), stage)
    }

    /// The generation and the stage.
    pub fn into_parts(self) -> (parts: (u64, S))
        ensures
            parts.0 == self.number(),
            parts.1 == self.inner(),
            parts.1.wf(),
    {
        proof {
            use_type_invariant(&self);
        }
        (self.generation, self.stage)
    }
}

/// Producer-side handle used by the control plane.
///
/// The queue has one slot: publishing a newer stage replaces an older
/// unconsumed one without locking the inference thread.
#[verifier::reject_recursive_types(S)]
pub struct StagePublisher<S: BlockStage> {
    queue: Arc<ArrayQueue<PreparedStage<S>>>,
    generation: Arc<AtomicU64>,
}

impl<S: BlockStage> Clone for StagePublisher<S> {
    /// Another handle to the same slot, which counts the same generations.
    fn clone(&self) -> (publisher: Self)
        ensures
            publisher == *self,
    {
        StagePublisher { queue: self.queue.clone(), generation: self.generation.clone() }
    }
}

impl<S: BlockStage> StagePublisher<S> {
    /// Publishes a fully initialized stage for activation by the inference
    /// thread. Returns the id of a previously published stage that was
    /// superseded before the inference thread consumed it, if any.
    ///
    /// Which stage that is depends on what the inference thread has consumed.
    pub fn publish(&self, stage: S) -> (superseded: Option<String>)
        requires
            stage.wf(),
        ensures
            superseded matches Some(id) ==> exists|old: S| #[trigger] old.wf() && id@ == old.name(),
    {
        let previous: u64 = self.generation.fetch_add(1, Ordering::Relaxed);
        superseded_id(self.queue.force_push(PreparedStage::after(previous, stage)))
    }
}

/// The id of a stage that was replaced, if one was.
pub fn superseded_id<S: BlockStage>(replaced: Option<PreparedStage<S>>) -> (id: Option<String>)
    ensures
        match replaced {
            None => id is None,
            Some(prepared) => {
                &&& prepared.inner().wf()
                &&& id matches Some(id) && id@ == prepared.inner().name()
            },
        },
{
    match replaced {
        None => None,
        Some(prepared) => {
            let (_generation, stage) = prepared.into_parts();
            Some(stage.id())
        },
    }
}

/// Where a switch stands.
#[derive(Clone, Copy, Debug, PartialEq, Eq, Structural)]
pub enum Transition {
    /// The current stage is fully audible.
    Stable,
    /// The current stage fades out.
    FadeOut {
        /// Samples until silence.
        remaining: usize,
    },
    /// The new stage fades in.
    FadeIn {
        /// Samples since silence.
        completed: usize,
    },
}

impl Transition {
    /// Whether the fade position lies inside a fade of this length.
    pub open spec fn within(self, fade: usize) -> bool {
        match self {
            Transition::Stable => true,
            Transition::FadeOut { remaining } => 0 < remaining <= fade,
            Transition::FadeIn { completed } => completed < fade,
        }
    }

    /// The gain of the next sample, as a numerator over the fade length.
    pub open spec fn level(self, fade: usize) -> int {
        self.level_at(fade, 0)
    }

    /// The gain of the sample `offset` samples ahead in the same block, as a
    /// numerator over the fade length.
    pub open spec fn level_at(self, fade: usize, offset: int) -> int {
        match self {
            Transition::Stable => fade as int,
            Transition::FadeOut { remaining } => if offset < remaining {
                remaining - offset
            } else {
                0
            },
            Transition::FadeIn { completed } => if completed + offset < fade {
                completed + offset
            } else {
                fade as int
            },
        }
    }

    /// The transition after a block of `len` samples.
    pub open spec fn advanced(self, fade: usize, len: int) -> Transition {
        match self {
            Transition::Stable => Transition::Stable,
            Transition::FadeOut { remaining } => if remaining <= len {
                Transition::FadeIn { completed: 0 }
            } else {
                Transition::FadeOut { remaining: (remaining - len) as usize }
            },
            Transition::FadeIn { completed } => if completed + len >= fade {
                Transition::Stable
            } else {
                Transition::FadeIn { completed: (completed + len) as usize }
            },
        }
    }

    /// Whether the stages are exchanged at the end of a block of `len` samples.
    pub open spec fn swaps(self, len: int) -> bool {
        self matches Transition::FadeOut { remaining } && remaining <= len
    }
}

/// A switch never steps: within a block, and from the last sample of a block
/// to the first of the next, the gain moves by at most one part of the fade
/// length. The stages are exchanged only when the gain is down to at most one
/// such part, and the new stage starts from silence.
pub proof fn law_no_gain_step(transition: Transition, fade: usize, len: int)
    requires
        fade > 0,
        len > 0,
        transition.within(fade),
    ensures
        transition.advanced(fade, len).within(fade),
        forall|i: int|
            0 <= i < len - 1 ==> -1 <= #[trigger] transition.level_at(fade, i + 1)
                - transition.level_at(fade, i) <= 1,
        -1 <= transition.advanced(fade, len).level(fade) - transition.level_at(fade, len - 1) <= 1,
        forall|i: int| 0 <= i < len ==> 0 <= #[trigger] transition.level_at(fade, i) <= fade,
        transition.swaps(len) ==> transition.level_at(fade, len - 1) <= 1,
        transition.swaps(len) ==> transition.advanced(fade, len).level(fade) == 0,
{
}

/// Samples until the engine is stable again.
pub open spec fn samples_to_go(transition: Transition, fade: usize) -> int {
    match transition {
        Transition::Stable => 0,
        Transition::FadeOut { remaining } => remaining + fade,
        Transition::FadeIn { completed } => fade - completed,
    }
}

/// Every block of at least one sample brings a switch closer to its end, by
/// its length or to the next phase, and a stable engine stays stable.
pub proof fn law_a_switch_ends(transition: Transition, fade: usize, len: int)
    requires
        fade > 0,
        len > 0,
        transition.within(fade),
    ensures
        0 <= samples_to_go(transition, fade) <= 2 * fade,
        transition is Stable ==> transition.advanced(fade, len) is Stable,
        !(transition is Stable) ==> samples_to_go(transition.advanced(fade, len), fade)
            < samples_to_go(transition, fade),
        samples_to_go(transition, fade) == 0 <==> transition is Stable,
{
}

/// A stage as contracts see it.
pub struct StageModel<T> {
    /// What the stage remembers.
    pub memory: T,
    /// Its identifier.
    pub name: Seq<char>,
    /// Its latency.
    pub delay: usize,
}

/// A waiting stage and its generation.
pub struct Candidate<T> {
    /// The generation under which it was published.
    pub generation: u64,
    /// The stage.
    pub stage: StageModel<T>,
}

/// The state of a switching engine.
pub struct SwitchState<T> {
    /// The audible stage.
    pub current: StageModel<T>,
    /// The generation of the audible stage.
    pub generation: u64,
    /// The stage that is being warmed up.
    pub pending: Option<Candidate<T>>,
    /// Where the switch stands.
    pub transition: Transition,
    /// The dry samples heard last.
    pub history: Seq<u32>,
    /// The intensity that the last block ended on.
    pub intensity: u32,
}

/// The engine once it has looked for a published stage: a stable engine that
/// finds one starts to fade out.
pub open spec fn accepted<T>(
    state: SwitchState<T>,
    offered: Option<Candidate<T>>,
    fade: usize,
) -> SwitchState<T> {
    match offered {
        Some(candidate) if state.transition is Stable => SwitchState {
            pending: Some(candidate),
            transition: Transition::FadeOut { remaining: fade },
            ..state
        },
        _ => state,
    }
}

/// The engine once the current stage has processed a block and the dry path
/// has heard it. The block ends on the intensity `target`; an empty one changes
/// no intensity.
pub open spec fn played<S: BlockStage>(
    state: SwitchState<S::State>,
    input: Seq<u32>,
    target: u32,
) -> SwitchState<S::State> {
    SwitchState {
        current: StageModel { memory: S::next(state.current.memory, input), ..state.current },
        history: mix::history_after(state.history, input),
        intensity: if input.len() > 0 {
            target
        } else {
            state.intensity
        },
        ..state
    }
}

/// The engine once a block has been played and the fade has advanced.
pub open spec fn faded<S: BlockStage>(
    state: SwitchState<S::State>,
    input: Seq<u32>,
    fade: usize,
) -> SwitchState<S::State> {
    let transition = state.transition.advanced(fade, input.len() as int);
    match state.pending {
        Some(candidate) => {
            let warmed = StageModel {
                memory: S::next(candidate.stage.memory, input),
                ..candidate.stage
            };
            if state.transition.swaps(input.len() as int) {
                SwitchState {
                    current: warmed,
                    generation: candidate.generation,
                    pending: None,
                    transition,
                    ..state
                }
            } else {
                SwitchState {
                    pending: Some(Candidate { stage: warmed, ..candidate }),
                    transition,
                    ..state
                }
            }
        },
        None => SwitchState { transition, ..state },
    }
}

/// The intensity never steps: whatever is switched in between, a block starts at
/// the intensity on which the block before it ended.
pub proof fn law_intensity_has_no_step<S: BlockStage>(
    state: SwitchState<S::State>,
    input: Seq<u32>,
    target: u32,
    fade: usize,
    offered: Option<Candidate<S::State>>,
)
    ensures
        ({
            let next = faded::<S>(played::<S>(state, input, target), input, fade);
            &&& accepted(next, offered, fade).intensity == played::<S>(
                state,
                input,
                target,
            ).intensity
            &&& input.len() > 0 ==> next.intensity == target
            &&& input.len() == 0 ==> next.intensity == state.intensity
        }),
{
}

/// What has to be done to a block of wet samples: blend in the delayed dry
/// samples, at an intensity that moves in a straight line over the block, then
/// scale each by its numerator over the fade length.
#[derive(Debug)]
pub struct BlockPlan {
    /// The dry samples that line up with the wet ones.
    pub dry: Vec<u32>,
    /// The intensity that the block before ended on.
    pub from: u32,
    /// The intensity that this block ends on.
    pub to: u32,
    /// The gain numerators.
    pub gains: Vec<usize>,
    /// The gain denominator.
    pub fade: usize,
}

/// Longest supported fade half, about 1.37 s.
pub const MAX_FADE_SAMPLES: usize = 65535;

/// The message for a fade that is too long.
pub open spec fn long_fade_message(fade: usize) -> Seq<char> {
    "switch fade of "@ + text::decimal(fade as nat)
        + " samples exceeds the supported maximum of 65535"@
}

/// Inference-thread owner of the active stage.
///
/// The pending stage is warmed (fed input) while the current one fades out, so
/// its internal pipeline is primed at activation time.
#[verifier::reject_recursive_types(S)]
pub struct SwitchingEngine<S: BlockStage> {
    slot: StageSlot<S>,
    current: S,
    current_generation: u64,
    pending: Option<(u64, S)>,
    transition: Transition,
    fade_samples: usize,
    dry: DryLine,
    intensity: IntensityReader,
    blended: u32,
}

/// A stage as contracts see it.
pub open spec fn model<S: BlockStage>(stage: S) -> StageModel<S::State> {
    StageModel { memory: stage.state(), name: stage.name(), delay: stage.delay() }
}

/// A published stage as contracts see it.
pub open spec fn candidate<S: BlockStage>(
    prepared: Option<PreparedStage<S>>,
) -> Option<Candidate<S::State>> {
    match prepared {
        Some(prepared) => Some(
            Candidate { generation: prepared.number(), stage: model(prepared.inner()) },
        ),
        None => None,
    }
}

impl<S: BlockStage> SwitchingEngine<S> {
    /// The engine's state.
    pub closed spec fn state(&self) -> SwitchState<S::State> {
        SwitchState {
            current: model(self.current),
            generation: self.current_generation,
            pending: match self.pending {
                Some(pair) => Some(Candidate { generation: pair.0, stage: model(pair.1) }),
                None => None,
            },
            transition: self.transition,
            history: self.dry.history(),
            intensity: self.blended,
        }
    }

    /// Whether this is the engine that finds what `publisher` publishes.
    pub closed spec fn listens_to(&self, publisher: StagePublisher<S>) -> bool {
        self.slot.queue() == publisher.queue
    }

    /// Where the engine reads the intensity.
    pub closed spec fn reads(&self) -> IntensityReader {
        self.intensity
    }

    /// What each look for a published stage has found.
    pub closed spec fn looked(&self) -> Seq<Option<PreparedStage<S>>> {
        self.slot.found()
    }

    /// The length of each fade half.
    pub closed spec fn fade(&self) -> usize {
        self.fade_samples
    }

    /// Whether the stages are intact, the fade lies inside its length, and a
    /// stage is pending exactly while the current one fades out.
    pub closed spec fn wf(&self) -> bool {
        &&& self.current.wf()
        &&& self.pending matches Some(pair) ==> pair.1.wf()
        &&& 0 < self.fade_samples <= MAX_FADE_SAMPLES
        &&& self.transition.within(self.fade_samples)
        &&& self.pending is Some <==> self.transition is FadeOut
        &&& self.dry.wf()
    }

    /// Creates a switching engine and its producer-side publisher.
    ///
    /// `fade_samples` is the length of each fade half (out and in) in samples
    /// at the engine rate. The engine reads `intensity` once per block, from the
    /// start.
    pub fn new(initial: S, fade_samples: usize, intensity: IntensityReader) -> (result: Result<
        (StagePublisher<S>, Self),
        StageError,
    >)
        requires
            initial.wf(),
        ensures
            match result {
                Ok(pair) => {
                    &&& 0 < fade_samples <= MAX_FADE_SAMPLES
                    &&& pair.1.wf()
                    &&& pair.1.listens_to(pair.0)
                    &&& pair.1.looked() == Seq::<Option<PreparedStage<S>>>::empty()
                    &&& pair.1.fade() == fade_samples
                    &&& pair.1.state() == (SwitchState {
                        current: model(initial),
                        generation: 0,
                        pending: None,
                        transition: Transition::Stable,
                        history: crate::signal::ring::silence(mix::DRY_RING_CAPACITY as nat),
                        intensity: pair.1.state().intensity,
                    })
                    &&& mix::clamped(pair.1.state().intensity) == pair.1.state().intensity
                    &&& pair.1.reads() == intensity
                },
                Err(StageError::Unsupported(reason)) => {
                    ||| fade_samples == 0 && reason@
                        == "switch fade must contain at least one sample"@
                    ||| fade_samples > MAX_FADE_SAMPLES && reason@ == long_fade_message(
                        fade_samples,
                    )
                },
                Err(_) => false,
            },
    {
        if fade_samples == 0 {
            return Err(
                StageError::Unsupported("switch fade must contain at least one sample".to_owned()),
            );
        }
        if fade_samples > MAX_FADE_SAMPLES {
            let mut reason = "switch fade of ".to_owned();
            push_decimal(&mut reason, fade_samples as u64);
            reason.append(" samples exceeds the supported maximum of 65535");
            return Err(StageError::Unsupported(reason));
        }
        let queue: Arc<ArrayQueue<PreparedStage<S>>> = Arc::new(ArrayQueue::new(1));
        let publisher = StagePublisher {
            queue: queue.clone(),
            generation: Arc::new(AtomicU64::new(0)),
        };
        let blended: u32 = intensity.get();
        Ok(
            (
                publisher,
                SwitchingEngine {
                    slot: StageSlot::new(queue),
                    current: initial,
                    current_generation: 0,
                    pending: None,
                    transition: Transition::Stable,
                    fade_samples,
                    dry: DryLine::new(),
                    intensity,
                    blended,
                },
            ),
        )
    }

    /// Identifier of the currently audible stage.
    pub fn active_id(&self) -> (id: String)
        requires
            self.wf(),
        ensures
            id@ == self.state().current.name,
    {
        self.current.id()
    }

    /// Monotonic generation assigned when the current stage was published.
    pub fn active_generation(&self) -> (generation: u64)
        ensures
            generation == self.state().generation,
    {
        self.current_generation
    }

    /// Where the switch stands.
    pub fn transition(&self) -> (transition: Transition)
        ensures
            transition == self.state().transition,
    {
        self.transition
    }

    /// Processes one block at the engine rate and advances any switch
    /// transition. A stable engine looks for a published stage first.
    ///
    /// `output` receives the wet samples of the active stage; the plan says
    /// how to blend and fade them. Whether a stage was found depends on the
    /// publisher's thread.
    pub fn process_block(&mut self, input: &[u32], output: &mut [u32]) -> (result: Result<
        BlockPlan,
        StageError,
    >)
        requires
            old(self).wf(),
        ensures
            final(self).wf(),
            final(self).fade() == old(self).fade(),
            final(output)@.len() == old(output)@.len(),
            forall|publisher: StagePublisher<S>|
                #[trigger] final(self).listens_to(publisher) == old(self).listens_to(publisher),
            final(self).reads() == old(self).reads(),
            if old(self).state().transition is Stable {
                let look = final(self).looked().last();
                &&& final(self).looked() == old(self).looked().push(look)
                &&& exists|target: u32|
                    mix::clamped(target) == target && #[trigger] block_done::<S>(
                        old(self).state(),
                        candidate(look),
                        target,
                        old(self).fade(),
                        input@,
                        final(self).state(),
                        old(output)@.len(),
                        final(output)@,
                        result,
                    )
            } else {
                &&& final(self).looked() == old(self).looked()
                &&& exists|target: u32|
                    mix::clamped(target) == target && #[trigger] block_done::<S>(
                        old(self).state(),
                        None,
                        target,
                        old(self).fade(),
                        input@,
                        final(self).state(),
                        old(output)@.len(),
                        final(output)@,
                        result,
                    )
            },
    {
        let target: u32 = self.intensity.get();
        if self.transition == Transition::Stable {
            let offered = self.slot.look();
            self.process_offered(offered, target, input, output)
        } else {
            self.process_offered(None, target, input, output)
        }
    }

    /// Processes one block at the engine rate, given what was found in the
    /// publisher's slot and the intensity that was read. Only a stable engine
    /// looks into the slot.
    pub fn process_offered(
        &mut self,
        offered: Option<PreparedStage<S>>,
        target: u32,
        input: &[u32],
        output: &mut [u32],
    ) -> (result: Result<BlockPlan, StageError>)
        requires
            old(self).wf(),
            offered is Some ==> old(self).state().transition is Stable,
        ensures
            final(self).wf(),
            final(self).looked() == old(self).looked(),
            final(self).reads() == old(self).reads(),
            forall|publisher: StagePublisher<S>|
                #[trigger] final(self).listens_to(publisher) == old(self).listens_to(publisher),
            final(self).fade() == old(self).fade(),
            final(output)@.len() == old(output)@.len(),
            block_done::<S>(
                old(self).state(),
                candidate(offered),
                target,
                old(self).fade(),
                input@,
                final(self).state(),
                old(output)@.len(),
                final(output)@,
                result,
            ),
    {
        let fade: usize = self.fade_samples;
        let len: usize = input.len();
        match offered {
            Some(prepared) => {
                let (generation, stage) = prepared.into_parts();
                self.pending = Some((generation, stage));
                self.transition = Transition::FadeOut { remaining: fade };
            },
            None => {},
        }
        let ghost begun = self.state();
        assert(begun == accepted(old(self).state(), candidate(offered), fade));
        match self.current.process_block(input, output) {
            Err(error) => {
                return Err(error);
            },
            Ok(()) => {},
        }
        let delay: usize = self.current.latency_samples();
        let dry: Vec<u32> = self.dry.delay_block(input, delay);
        let from: u32 = self.blended;
        let to: u32 = if len > 0 { target } else { from };
        self.blended = to;
        assert(self.state() == played::<S>(begun, input@, target));
        let ghost mixed = self.state();
        match self.transition {
            Transition::Stable => {
                let gains: Vec<usize> = self.gains(len);
                Ok(BlockPlan { dry, from, to, gains, fade })
            },
            Transition::FadeOut { remaining } => {
                let (generation, mut stage) = match self.pending.take() {
                    Some(pair) => pair,
                    None => {
                        assert(false);
                        return Err(
                            StageError::Unsupported(
                                "fade-out completed without a pending stage".to_owned(),
                            ),
                        );
                    },
                };
                let mut warmup: Vec<u32> = vec![0; len];
                let warmed = stage.process_block(input, warmup.as_mut_slice());
                match warmed {
                    Err(error) => {
                        self.pending = Some((generation, stage));
                        return Err(error);
                    },
                    Ok(()) => {},
                }
                let gains: Vec<usize> = self.gains(len);
                if remaining <= len {
                    self.current = stage;
                    self.current_generation = generation;
                    self.transition = Transition::FadeIn { completed: 0 };
                } else {
                    self.pending = Some((generation, stage));
                    self.transition = Transition::FadeOut { remaining: remaining - len };
                }
                assert(self.state() == faded::<S>(mixed, input@, fade));
                Ok(BlockPlan { dry, from, to, gains, fade })
            },
            Transition::FadeIn { completed } => {
                let gains: Vec<usize> = self.gains(len);
                self.transition = if len >= fade - completed {
                    Transition::Stable
                } else {
                    Transition::FadeIn { completed: completed + len }
                };
                assert(self.state() == faded::<S>(mixed, input@, fade));
                Ok(BlockPlan { dry, from, to, gains, fade })
            },
        }
    }

    /// The gain numerators of the next `len` samples.
    fn gains(&self, len: usize) -> (gains: Vec<usize>)
        requires
            0 < self.fade_samples <= MAX_FADE_SAMPLES,
            self.transition.within(self.fade_samples),
        ensures
            gains@.len() == len,
            forall|i: int|
                0 <= i < len ==> #[trigger] gains@[i] == self.transition.level_at(
                    self.fade_samples,
                    i,
                ),
    {
        let fade: usize = self.fade_samples;
        let mut gains: Vec<usize> = Vec::with_capacity(len);
        let mut level: usize = match self.transition {
            Transition::Stable => fade,
            Transition::FadeOut { remaining } => remaining,
            Transition::FadeIn { completed } => completed,
        };
        while gains.len() < len
            invariant
                fade == self.fade_samples,
                0 < fade <= MAX_FADE_SAMPLES,
                self.transition.within(fade),
                gains@.len() <= len,
                level == self.transition.level_at(fade, gains@.len() as int),
                forall|i: int|
                    0 <= i < gains@.len() ==> #[trigger] gains@[i] == self.transition.level_at(
                        fade,
                        i,
                    ),
            decreases len - gains@.len(),
        {
            gains.push(level);
            level = match self.transition {
                Transition::Stable => fade,
                Transition::FadeOut { .. } => if level > 0 { level - 1 } else { 0 },
                Transition::FadeIn { .. } => if level < fade { level + 1 } else { fade },
            };
        }
        gains
    }
}

/// What a block leads to, given what was found in the publisher's slot and the
/// intensity that was read: the state afterwards, the wet samples and the plan,
/// or the error of the current or of the warming stage. An output of another
/// length than the input is refused.
pub open spec fn block_done<S: BlockStage>(
    before: SwitchState<S::State>,
    offered: Option<Candidate<S::State>>,
    target: u32,
    fade: usize,
    input: Seq<u32>,
    after: SwitchState<S::State>,
    room: nat,
    output: Seq<u32>,
    result: Result<BlockPlan, StageError>,
) -> bool {
    let begun = accepted(before, offered, fade);
    if room != input.len() {
        &&& result == Err::<BlockPlan, StageError>(
            StageError::BufferLen { expected: input.len() as usize, got: room as usize },
        )
        &&& after == begun
    } else {
        match S::outcome(begun.current.memory, input) {
            Err(error) => {
                &&& result == Err::<BlockPlan, StageError>(error)
                &&& after == (SwitchState {
                    current: StageModel { memory: after.current.memory, ..begun.current },
                    ..begun
                })
            },
            Ok(wet) => {
                let mixed = played::<S>(begun, input, target);
                &&& output == wet
                &&& match (begun.pending, warming_error::<S>(begun.pending, input)) {
                    (Some(waiting), Some(error)) => {
                        &&& result == Err::<BlockPlan, StageError>(error)
                        &&& after.pending matches Some(kept)
                        &&& after == (SwitchState {
                            pending: Some(
                                Candidate {
                                    generation: waiting.generation,
                                    stage: StageModel {
                                        memory: kept.stage.memory,
                                        ..waiting.stage
                                    },
                                },
                            ),
                            ..mixed
                        })
                    },
                    _ => {
                        &&& result matches Ok(plan)
                        &&& plan.fade == fade
                        &&& plan.from == begun.intensity
                        &&& plan.to == mixed.intensity
                        &&& plan.dry@ == mix::delayed_block(
                            begun.history,
                            input,
                            mix::applied_delay(begun.current.delay),
                        )
                        &&& plan.gains@.len() == input.len()
                        &&& forall|i: int|
                            0 <= i < input.len() ==> #[trigger] plan.gains@[i]
                                == begun.transition.level_at(fade, i)
                        &&& after == faded::<S>(mixed, input, fade)
                    },
                }
            },
        }
    }
}

/// The error of a stage that is being warmed up, if it refuses the block.
pub open spec fn warming_error<S: BlockStage>(
    pending: Option<Candidate<S::State>>,
    input: Seq<u32>,
) -> Option<StageError> {
    match pending {
        None => None,
        Some(waiting) => match S::outcome(waiting.stage.memory, input) {
            Ok(_) => None,
            Err(error) => Some(error),
        },
    }
}

/// How many samples the first `count` blocks hold.
pub open spec fn samples_in(inputs: Seq<Seq<u32>>, count: int) -> int
    decreases count,
{
    if count <= 0 {
        0
    } else {
        samples_in(inputs, count - 1) + inputs[count - 1].len()
    }
}

/// What a stage remembers once it has heard the first `count` blocks.
pub open spec fn memory_after<S: BlockStage>(
    memory: S::State,
    inputs: Seq<Seq<u32>>,
    count: int,
) -> S::State
    decreases count,
{
    if count <= 0 {
        memory
    } else {
        S::next(memory_after::<S>(memory, inputs, count - 1), inputs[count - 1])
    }
}

/// Successive blocks of a stable engine that finds a stage before the first of them
/// and none later, and of which none fails.
pub open spec fn switch_blocks<S: BlockStage>(
    states: Seq<SwitchState<S::State>>,
    found: Candidate<S::State>,
    fade: usize,
    inputs: Seq<Seq<u32>>,
    targets: Seq<u32>,
    outputs: Seq<Seq<u32>>,
    plans: Seq<BlockPlan>,
) -> bool {
    &&& fade > 0
    &&& states.len() == inputs.len() + 1
    &&& states[0].transition is Stable
    &&& states[0].pending is None
    &&& forall|k: int|
        0 <= k < inputs.len() ==> block_done::<S>(
            #[trigger] states[k],
            if k == 0 {
                Some(found)
            } else {
                None
            },
            targets[k],
            fade,
            inputs[k],
            states[k + 1],
            inputs[k].len(),
            outputs[k],
            Ok::<BlockPlan, StageError>(plans[k]),
        )
}

/// Until the fade-out has lasted, the outgoing stage plays on and the gain falls by
/// one part of the fade length with every sample, down to silence; meanwhile the
/// stage that was found hears every block too, and once the fade-out has lasted it
/// takes over, under its own generation and having heard all of them.
pub proof fn law_a_found_stage_is_warmed_and_takes_over<S: BlockStage>(
    states: Seq<SwitchState<S::State>>,
    found: Candidate<S::State>,
    fade: usize,
    inputs: Seq<Seq<u32>>,
    targets: Seq<u32>,
    outputs: Seq<Seq<u32>>,
    plans: Seq<BlockPlan>,
    k: int,
)
    requires
        switch_blocks::<S>(states, found, fade, inputs, targets, outputs, plans),
        0 <= k < inputs.len(),
        samples_in(inputs, k) < fade,
    ensures
        ({
            let outgoing = states[0].current;
            let next = states[k + 1];
            let warmed = StageModel {
                memory: memory_after::<S>(found.stage.memory, inputs, k + 1),
                ..found.stage
            };
            &&& S::outcome(memory_after::<S>(outgoing.memory, inputs, k), inputs[k]) == Ok::<
                Seq<u32>,
                StageError,
            >(outputs[k])
            &&& plans[k].gains@.len() == inputs[k].len()
            &&& forall|i: int|
                0 <= i < inputs[k].len() ==> #[trigger] plans[k].gains@[i] == (if samples_in(
                    inputs,
                    k,
                ) + i < fade {
                    fade - samples_in(inputs, k) - i
                } else {
                    0
                })
            &&& samples_in(inputs, k + 1) < fade ==> {
                &&& next.current == (StageModel {
                    memory: memory_after::<S>(outgoing.memory, inputs, k + 1),
                    ..outgoing
                })
                &&& next.generation == states[0].generation
                &&& next.pending == Some(
                    Candidate { generation: found.generation, stage: warmed },
                )
                &&& next.transition == Transition::FadeOut {
                    remaining: (fade - samples_in(inputs, k + 1)) as usize,
                }
            }
            &&& samples_in(inputs, k + 1) >= fade ==> {
                &&& next.current == warmed
                &&& next.generation == found.generation
                &&& next.pending is None
                &&& next.transition == Transition::FadeIn { completed: 0 }
            }
        }),
    decreases k,
{
    let outgoing = states[0].current;
    let offered = if k == 0 {
        Some(found)
    } else {
        None
    };
    assert(block_done::<S>(
        states[k],
        offered,
        targets[k],
        fade,
        inputs[k],
        states[k + 1],
        inputs[k].len(),
        outputs[k],
        Ok::<BlockPlan, StageError>(plans[k]),
    ));
    if k > 0 {
        law_a_found_stage_is_warmed_and_takes_over::<S>(
            states,
            found,
            fade,
            inputs,
            targets,
            outputs,
            plans,
            k - 1,
        );
    }
    let begun = accepted(states[k], offered, fade);
    assert(begun.transition == Transition::FadeOut {
        remaining: (fade - samples_in(inputs, k)) as usize,
    });
    lemma_samples_are_counted(inputs, k);
}

proof fn lemma_samples_are_counted(inputs: Seq<Seq<u32>>, count: int)
    ensures
        samples_in(inputs, count) >= 0,
    decreases count,
{
    if count > 0 {
        lemma_samples_are_counted(inputs, count - 1);
    }
}

/// Behind the block that ended the fade-out the new stage plays, which has heard
/// every block since it was found, and the gain rises from silence by one part of
/// the fade length with every sample, up to unity, where it stays.
pub proof fn law_a_stage_that_took_over_fades_in<S: BlockStage>(
    states: Seq<SwitchState<S::State>>,
    found: Candidate<S::State>,
    fade: usize,
    inputs: Seq<Seq<u32>>,
    targets: Seq<u32>,
    outputs: Seq<Seq<u32>>,
    plans: Seq<BlockPlan>,
    swapped: int,
    k: int,
)
    requires
        switch_blocks::<S>(states, found, fade, inputs, targets, outputs, plans),
        0 <= swapped < k < inputs.len(),
        samples_in(inputs, swapped) < fade <= samples_in(inputs, swapped + 1),
    ensures
        ({
            let played = samples_in(inputs, k) - samples_in(inputs, swapped + 1);
            let next = states[k + 1];
            &&& played >= 0
            &&& S::outcome(memory_after::<S>(found.stage.memory, inputs, k), inputs[k]) == Ok::<
                Seq<u32>,
                StageError,
            >(outputs[k])
            &&& plans[k].gains@.len() == inputs[k].len()
            &&& forall|i: int|
                0 <= i < inputs[k].len() ==> #[trigger] plans[k].gains@[i] == (if played + i
                    < fade {
                    played + i
                } else {
                    fade as int
                })
            &&& next.current == (StageModel {
                memory: memory_after::<S>(found.stage.memory, inputs, k + 1),
                ..found.stage
            })
            &&& next.generation == found.generation
            &&& next.pending is None
            &&& next.transition == (if played + inputs[k].len() < fade {
                Transition::FadeIn { completed: (played + inputs[k].len()) as usize }
            } else {
                Transition::Stable
            })
        }),
    decreases k,
{
    assert(block_done::<S>(
        states[k],
        None,
        targets[k],
        fade,
        inputs[k],
        states[k + 1],
        inputs[k].len(),
        outputs[k],
        Ok::<BlockPlan, StageError>(plans[k]),
    ));
    if k == swapped + 1 {
        law_a_found_stage_is_warmed_and_takes_over::<S>(
            states,
            found,
            fade,
            inputs,
            targets,
            outputs,
            plans,
            swapped,
        );
    } else {
        law_a_stage_that_took_over_fades_in::<S>(
            states,
            found,
            fade,
            inputs,
            targets,
            outputs,
            plans,
            swapped,
            k - 1,
        );
    }
    assert(accepted(states[k], None, fade) == states[k]);
}

/// The dry samples of a block line up with its wet ones: each is what was heard as many
/// samples before as the stage delays that is audible in the block, whatever stage is
/// being warmed; and the intensity goes on from where the last block left it.
pub proof fn law_dry_follows_the_audible_stage<S: BlockStage>(
    before: SwitchState<S::State>,
    offered: Option<Candidate<S::State>>,
    target: u32,
    fade: usize,
    input: Seq<u32>,
    after: SwitchState<S::State>,
    output: Seq<u32>,
    plan: BlockPlan,
    i: int,
)
    requires
        block_done::<S>(
            before,
            offered,
            target,
            fade,
            input,
            after,
            input.len(),
            output,
            Ok::<BlockPlan, StageError>(plan),
        ),
        before.history.len() == mix::DRY_RING_CAPACITY,
        before.current.delay < mix::DRY_RING_CAPACITY,
        0 <= i < input.len(),
    ensures
        plan.dry@.len() == input.len(),
        plan.dry@[i] == (before.history + input)[before.history.len() + i - before.current.delay],
        after.history.len() == before.history.len(),
        after.history == (before.history + input).skip(input.len() as int),
        plan.from == before.intensity,
        plan.to == target,
        after.intensity == target,
        plan.fade == fade,
        S::outcome(before.current.memory, input) == Ok::<Seq<u32>, StageError>(output),
{
}

} // verus!
