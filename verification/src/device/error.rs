//! Failures of the device layer.

use vstd::prelude::*;
use vstd::string::*;

use crate::text;
use crate::text::push_decimal;

verus! {

/// Device lifecycle failures.
#[derive(Debug)]
pub enum CoreAudioError {
    /// A Core Audio call returned a nonzero status.
    Status {
        /// Operation being performed.
        operation: &'static str,
        /// Core Audio status code.
        status: i32,
    },
    /// No AUHAL component is installed.
    MissingAuHal,
    /// The processing worker could not start.
    Worker(String),
    /// A control call needs a running transport.
    NotRunning,
    /// The preview monitor path could not start. Monitor failures never affect
    /// the meeting-facing path.
    Monitor(String),
    /// The virtual output is not where the transport expects it.
    OutputRouting(String),
    /// Preview was refused because the output is a virtual loopback device,
    /// which would feed the processed voice into the meeting a second time.
    MonitorLoopbackOutput {
        /// UID of the rejected output device.
        uid: String,
    },
    /// Preview was refused because the output is an aggregate or Multi-Output
    /// device, which can contain the meeting loopback as a subdevice.
    MonitorAggregateOutput {
        /// UID of the rejected output device.
        uid: String,
    },
    /// Preview was refused because the output is the built-in speakers, which
    /// would feed the processed microphone straight back into itself.
    MonitorSpeakerOutput,
    /// This build does not target macOS.
    UnsupportedPlatform,
}

/// A signed number in decimal.
pub open spec fn signed_decimal(number: int) -> Seq<char> {
    if number < 0 {
        "-"@ + text::decimal((-number) as nat)
    } else {
        text::decimal(number as nat)
    }
}

/// Appends a signed number in decimal.
pub fn push_signed(text: &mut String, number: i32)
    ensures
        final(text)@ == old(text)@ + signed_decimal(number as int),
{
    if number < 0 {
        text.append("-");
        push_decimal(text, (-(number as i64)) as u64);
        assert(text@ =~= old(text)@ + signed_decimal(number as int));
    } else {
        push_decimal(text, number as u64);
    }
}

impl CoreAudioError {
    /// The text shown to a user.
    pub open spec fn spec_message(&self) -> Seq<char> {
        match self {
            CoreAudioError::Status { operation, status } => operation@
                + " failed with OSStatus "@ + signed_decimal(*status as int),
            CoreAudioError::MissingAuHal => "kAudioUnitSubType_HALOutput is unavailable"@,
            CoreAudioError::Worker(reason) => "audio processing worker failed: "@ + reason@,
            CoreAudioError::NotRunning => "the engine transport is not running"@,
            CoreAudioError::Monitor(reason) => "preview monitor failed: "@ + reason@,
            CoreAudioError::OutputRouting(reason) => "virtual output routing failed: "@ + reason@,
            CoreAudioError::MonitorLoopbackOutput { .. } =>
                "the system output is a virtual loopback device"@,
            CoreAudioError::MonitorAggregateOutput { .. } =>
                "the system output is a multi-output device"@,
            CoreAudioError::MonitorSpeakerOutput => "the built-in speakers would feed back"@,
            CoreAudioError::UnsupportedPlatform => "AUHAL is available only on macOS"@,
        }
    }

    /// Describes the failure in one line.
    pub fn message(&self) -> (text: String)
        ensures
            text@ == self.spec_message(),
    {
        match self {
            CoreAudioError::Status { operation, status } => {
                let mut text = (*operation).to_owned();
                text.append(" failed with OSStatus ");
                push_signed(&mut text, *status);
                text
            },
            CoreAudioError::MissingAuHal => "kAudioUnitSubType_HALOutput is unavailable".to_owned(),
            CoreAudioError::Worker(reason) => {
                let mut text = "audio processing worker failed: ".to_owned();
                text.append(reason.as_str());
                text
            },
            CoreAudioError::NotRunning => "the engine transport is not running".to_owned(),
            CoreAudioError::Monitor(reason) => {
                let mut text = "preview monitor failed: ".to_owned();
                text.append(reason.as_str());
                text
            },
            CoreAudioError::OutputRouting(reason) => {
                let mut text = "virtual output routing failed: ".to_owned();
                text.append(reason.as_str());
                text
            },
            CoreAudioError::MonitorLoopbackOutput { .. } =>
                "the system output is a virtual loopback device".to_owned(),
            CoreAudioError::MonitorAggregateOutput { .. } =>
                "the system output is a multi-output device".to_owned(),
            CoreAudioError::MonitorSpeakerOutput =>
                "the built-in speakers would feed back".to_owned(),
            CoreAudioError::UnsupportedPlatform => "AUHAL is available only on macOS".to_owned(),
        }
    }
}

/// Turns a Core Audio status into a result: zero is success.
pub fn check_status(status: i32, operation: &'static str) -> (result: Result<(), CoreAudioError>)
    ensures
        if status == 0 {
            result is Ok
        } else {
            result == Err::<(), CoreAudioError>(CoreAudioError::Status { operation, status })
        },
{
    if status == 0 {
        Ok(())
    } else {
        Err(CoreAudioError::Status { operation, status })
    }
}

/// Portable stub of the preview-target pre-flight check.
pub fn check_monitor_target() -> (result: Result<(), CoreAudioError>)
    ensures
        result matches Err(CoreAudioError::UnsupportedPlatform),
{
    Err(CoreAudioError::UnsupportedPlatform)
}

/// Portable stub of the per-device preview-target check.
pub fn check_monitor_device(_device: u32) -> (result: Result<(), CoreAudioError>)
    ensures
        result matches Err(CoreAudioError::UnsupportedPlatform),
{
    Err(CoreAudioError::UnsupportedPlatform)
}

/// A signed number in decimal keeps its sign and its digits.
pub proof fn law_signed_decimal_keeps_the_sign(number: int)
    ensures
        signed_decimal(number).len() > 0,
        number < 0 <==> signed_decimal(number)[0] == '-',
        number >= 0 ==> text::decimal_value(signed_decimal(number)) == number,
        number < 0 ==> text::decimal_value(signed_decimal(number).skip(1)) == -number,
{
    reveal_strlit("-");
    if number < 0 {
        text::law_decimal_reads_back((-number) as nat);
        assert(signed_decimal(number).skip(1) =~= text::decimal((-number) as nat));
    } else {
        text::law_decimal_reads_back(number as nat);
        assert(text::is_digit(text::decimal(number as nat)[0]));
    }
}

} // verus!
