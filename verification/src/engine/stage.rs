//! Common contracts implemented by every audio model.

use vstd::prelude::*;
use vstd::string::*;

use crate::text;
use crate::text::push_decimal;

verus! {

/// Rate of the shared pipeline, in hertz.
pub const PIPELINE_SAMPLE_RATE: u32 = 48000;

/// Samples per pipeline frame: 10 ms.
pub const PIPELINE_FRAME_SAMPLES: usize = 480;

/// What a stage removes.
#[derive(Clone, Copy, Debug, PartialEq, Eq, Structural)]
pub enum StageKind {
    /// Everything but speech.
    NoiseSuppression,
    /// Everyone but the enrolled speaker.
    SpeakerSuppression,
}

/// What a stage needs to know of its user.
#[derive(Clone, Copy, Debug, PartialEq, Eq, Structural)]
pub enum EnrollmentRequirement {
    /// Nothing.
    NotNeeded,
    /// An embedding of the user's voice.
    SpeakerEmbedding {
        /// Length of the embedding.
        dimensions: usize,
    },
}

/// Static description of a stage.
#[derive(Clone, Copy, Debug)]
pub struct StageDescriptor {
    /// Stable identifier.
    pub id: &'static str,
    /// Name shown to a user.
    pub display_name: &'static str,
    /// What the stage removes.
    pub kind: StageKind,
    /// Native rate in hertz.
    pub sample_rate: u32,
    /// Samples per frame.
    pub frame_samples: usize,
    /// Algorithmic delay in samples.
    pub algorithmic_delay_samples: usize,
    /// Frames that still carry signal after the input ends.
    pub tail_frames: usize,
    /// What the stage needs to know of its user.
    pub enrollment: EnrollmentRequirement,
}

/// Why a stage could not be set up or could not process a frame.
#[derive(Debug)]
pub enum StageError {
    /// A frame does not have the stage's frame length.
    InvalidFrameLength {
        /// The stage's identifier.
        stage: &'static str,
        /// The stage's frame length.
        expected: usize,
        /// The frame's length.
        actual: usize,
    },
    /// The stage cannot be set up like this.
    InvalidConfiguration {
        /// The stage's identifier.
        stage: &'static str,
        /// What is wrong.
        message: String,
    },
    /// The model failed.
    Backend {
        /// The stage's identifier.
        stage: &'static str,
        /// What went wrong.
        message: String,
    },
    /// The rate conversion failed.
    Resampling(String),
}

/// A [`StageError`] with its texts as character sequences.
pub enum StageFault {
    /// A frame does not have the stage's frame length.
    InvalidFrameLength {
        /// The stage's identifier.
        stage: Seq<char>,
        /// The stage's frame length.
        expected: nat,
        /// The frame's length.
        actual: nat,
    },
    /// The stage cannot be set up like this.
    InvalidConfiguration {
        /// The stage's identifier.
        stage: Seq<char>,
        /// What is wrong.
        message: Seq<char>,
    },
    /// The model failed.
    Backend {
        /// The stage's identifier.
        stage: Seq<char>,
        /// What went wrong.
        message: Seq<char>,
    },
    /// The rate conversion failed.
    Resampling {
        /// What went wrong.
        message: Seq<char>,
    },
}

impl StageFault {
    /// The text shown to a user.
    pub open spec fn text(self) -> Seq<char> {
        match self {
            StageFault::InvalidFrameLength { stage, expected, actual } => "stage "@ + stage
                + " expected "@ + text::decimal(expected) + " samples, received "@ + text::decimal(
                actual,
            ),
            StageFault::InvalidConfiguration { stage, message } =>
                "invalid stage configuration for "@ + stage + ": "@ + message,
            StageFault::Backend { stage, message } => stage + " backend failed: "@ + message,
            StageFault::Resampling { message } => "sample-rate conversion failed: "@ + message,
        }
    }
}

impl View for StageError {
    type V = StageFault;

    open spec fn view(&self) -> StageFault {
        match self {
            StageError::InvalidFrameLength { stage, expected, actual } =>
                StageFault::InvalidFrameLength {
                    stage: stage@,
                    expected: *expected as nat,
                    actual: *actual as nat,
                },
            StageError::InvalidConfiguration { stage, message } =>
                StageFault::InvalidConfiguration { stage: stage@, message: message@ },
            StageError::Backend { stage, message } => StageFault::Backend {
                stage: stage@,
                message: message@,
            },
            StageError::Resampling(message) => StageFault::Resampling { message: message@ },
        }
    }
}

impl StageError {

    /// Describes the failure in one line.
    pub fn message(&self) -> (text: String)
        ensures
            text@ == self@.text(),
    {
        match self {
            StageError::InvalidFrameLength { stage, expected, actual } => {
                let mut text = "stage ".to_owned();
                text.append(stage);
                text.append(" expected ");
                push_decimal(&mut text, *expected as u64);
                text.append(" samples, received ");
                push_decimal(&mut text, *actual as u64);
                text
            },
            StageError::InvalidConfiguration { stage, message } => {
                let mut text = "invalid stage configuration for ".to_owned();
                text.append(stage);
                text.append(": ");
                text.append(message.as_str());
                text
            },
            StageError::Backend { stage, message } => {
                let mut text = (*stage).to_owned();
                text.append(" backend failed: ");
                text.append(message.as_str());
                text
            },
            StageError::Resampling(message) => {
                let mut text = "sample-rate conversion failed: ".to_owned();
                text.append(message.as_str());
                text
            },
        }
    }
}

/// The fault that a stage cannot be set up, for a reason.
pub open spec fn misconfigured(stage: Seq<char>, reason: Seq<char>) -> StageFault {
    StageFault::InvalidConfiguration { stage, message: reason }
}

/// Whether a call failed with this fault.
pub open spec fn failed<T>(result: Result<T, StageError>, fault: StageFault) -> bool {
    result matches Err(error) && error@ == fault
}

/// A model behind the frame contract.
///
/// A stage is a deterministic machine: what it returns for a frame, and what
/// it remembers afterwards, are functions of what it remembers and of the
/// frame.
///
/// The specification functions say what an implementation does. One that is
/// written in ordinary Rust leaves them at their defaults, which say nothing.
pub trait AudioStage: Send + Sized {
    /// What the stage remembers between frames.
    type State;

    /// Whether the stage is intact.
    open spec fn wf(&self) -> bool {
        arbitrary()
    }

    /// What the stage remembers.
    open spec fn state(&self) -> Self::State {
        arbitrary()
    }

    /// The stage's static description.
    open spec fn about(&self) -> StageDescriptor {
        arbitrary()
    }

    /// What a stage that remembers this answers to a frame, given an output of
    /// the stage's frame length.
    open spec fn outcome(state: Self::State, input: Seq<u32>) -> Result<Seq<u32>, StageFault> {
        arbitrary()
    }

    /// What the stage remembers after it processed a frame without failing.
    open spec fn next(state: Self::State, input: Seq<u32>) -> Self::State {
        arbitrary()
    }

    /// What the stage remembers after a reset, or why it could not be reset.
    open spec fn cleared(state: Self::State) -> Result<Self::State, StageFault> {
        arbitrary()
    }

    /// The stage's static description.
    fn descriptor(&self) -> (descriptor: StageDescriptor)
        requires
            self.wf(),
        ensures
            descriptor == self.about(),
    ;

    /// Processes one frame.
    fn process_frame(&mut self, input: &[u32], output: &mut [u32]) -> (result: Result<
        (),
        StageError,
    >)
        requires
            old(self).wf(),
        ensures
            final(self).wf(),
            final(self).about() == old(self).about(),
            final(output)@.len() == old(output)@.len(),
            old(output)@.len() == old(self).about().frame_samples ==> match Self::outcome(
                old(self).state(),
                input@,
            ) {
                Ok(frame) => {
                    &&& result is Ok
                    &&& final(output)@ == frame
                    &&& final(self).state() == Self::next(old(self).state(), input@)
                },
                Err(fault) => failed(result, fault),
            },
    ;

    /// Forgets everything the stage has heard.
    fn reset(&mut self) -> (result: Result<(), StageError>)
        requires
            old(self).wf(),
        ensures
            final(self).wf(),
            final(self).about() == old(self).about(),
            match Self::cleared(old(self).state()) {
                Ok(state) => result is Ok && final(self).state() == state,
                Err(fault) => failed(result, fault),
            },
    ;
}

/// The fault of frames of these lengths, if one of them is wrong: the input
/// is looked at first.
pub open spec fn length_fault(descriptor: StageDescriptor, input: nat, output: nat) -> Option<
    StageFault,
> {
    if input != descriptor.frame_samples {
        Some(
            StageFault::InvalidFrameLength {
                stage: descriptor.id@,
                expected: descriptor.frame_samples as nat,
                actual: input,
            },
        )
    } else if output != descriptor.frame_samples {
        Some(
            StageFault::InvalidFrameLength {
                stage: descriptor.id@,
                expected: descriptor.frame_samples as nat,
                actual: output,
            },
        )
    } else {
        None
    }
}

/// Refuses frames that do not have the stage's frame length.
pub fn validate_frame_lengths(
    descriptor: StageDescriptor,
    input: &[u32],
    output: &[u32],
) -> (result: Result<(), StageError>)
    ensures
        match length_fault(descriptor, input@.len(), output@.len()) {
            None => result is Ok,
            Some(fault) => failed(result, fault),
        },
{
    if input.len() != descriptor.frame_samples {
        return Err(
            StageError::InvalidFrameLength {
                stage: descriptor.id,
                expected: descriptor.frame_samples,
                actual: input.len(),
            },
        );
    }
    if output.len() != descriptor.frame_samples {
        return Err(
            StageError::InvalidFrameLength {
                stage: descriptor.id,
                expected: descriptor.frame_samples,
                actual: output.len(),
            },
        );
    }
    Ok(())
}

/// Frames pass exactly where both have the stage's length; the fault names the length
/// that was wrong, and that of the input where both are.
pub proof fn law_only_whole_frames_pass(descriptor: StageDescriptor, input: nat, output: nat)
    ensures
        length_fault(descriptor, input, output) is None <==> input == descriptor.frame_samples
            && output == descriptor.frame_samples,
        length_fault(descriptor, input, output) matches Some(fault) ==> {
            &&& fault matches StageFault::InvalidFrameLength { stage, expected, actual }
            &&& stage == descriptor.id@
            &&& expected == descriptor.frame_samples
            &&& actual != expected
            &&& actual == input || input == expected && actual == output
        },
{
}

/// A message about lengths names the stage, then the expected length, and ends with the
/// one that came.
pub proof fn law_frame_lengths_are_told_in_order(stage: Seq<char>, expected: nat, actual: nat)
    ensures
        ({
            let told = (StageFault::InvalidFrameLength { stage, expected, actual }).text();
            &&& text::stands_behind(told, Seq::empty(), "stage "@, stage)
            &&& text::stands_behind(
                told,
                "stage "@ + stage,
                " expected "@,
                text::decimal(expected),
            )
            &&& text::ends_with(told, text::decimal(actual))
        }),
{
    let told = (StageFault::InvalidFrameLength { stage, expected, actual }).text();
    let front = "stage "@ + stage + " expected "@ + text::decimal(expected);
    let start = ("stage "@ + stage).len() + " expected "@.len();
    text::lemma_message_of_four("stage "@, stage, " expected "@, text::decimal(expected));
    assert(told =~= front + " samples, received "@ + text::decimal(actual));
    assert(told.take(front.len() as int) =~= front);
    assert(told.take(start as int) =~= front.take(start as int));
    assert(told.subrange(start as int, start as int + text::decimal(expected).len())
        =~= text::decimal(expected));
    assert(told.take(("stage "@).len() as int) =~= front.take(("stage "@).len() as int));
    assert(Seq::<char>::empty() + "stage "@ =~= "stage "@);
    assert(told.subrange("stage "@.len() as int, "stage "@.len() as int + stage.len())
        =~= stage);
    assert(told.skip(told.len() - text::decimal(actual).len()) =~= text::decimal(actual));
}

} // verus!
