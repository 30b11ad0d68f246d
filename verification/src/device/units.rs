//! How the audio units are configured.
//!
//! A unit is configured by a list of property writes. This module says which,
//! in which order and with which values; the caller performs them one by one
//! and stops at the first that fails.

use vstd::prelude::*;
use vstd::slice::slice_subrange;
use vstd::string::*;

use super::callback::MAX_CALLBACK_FRAMES;
use super::error;
use super::error::push_signed;
use super::error::CoreAudioError;
use super::routing;
use super::routing::{
    channel_map_bytes, render_channel_map, split_render_channels, VirtualOutputChannels,
};
use crate::text;
use crate::text::push_decimal;

verus! {

/// Element that carries captured samples.
pub const INPUT_BUS: u32 = 1;

/// Element that carries rendered samples.
pub const OUTPUT_BUS: u32 = 0;

/// The unit as a whole.
pub const SCOPE_GLOBAL: u32 = 0;

/// The side samples enter an element.
pub const SCOPE_INPUT: u32 = 1;

/// The side samples leave an element.
pub const SCOPE_OUTPUT: u32 = 2;

/// Property that selects the device.
pub const PROPERTY_CURRENT_DEVICE: u32 = 2000;

/// Property that holds the channel map.
pub const PROPERTY_CHANNEL_MAP: u32 = 2002;

/// Property that enables one direction.
pub const PROPERTY_ENABLE_IO: u32 = 2003;

/// Property that holds the stream format.
pub const PROPERTY_STREAM_FORMAT: u32 = 8;

/// Property that bounds the frames per callback.
pub const PROPERTY_MAXIMUM_FRAMES_PER_SLICE: u32 = 14;

/// Format code `lpcm`.
pub const FORMAT_LINEAR_PCM: u32 = 0x6c70_636d;

/// Samples are floating point and packed.
pub const FORMAT_FLAGS: u32 = 9;

/// The engine's sample rate.
pub const ENGINE_RATE: u32 = 48_000;

/// A packed single-precision stream format.
#[derive(Debug, Clone, Copy, PartialEq, Eq, Structural)]
pub struct StreamFormat {
    /// Samples per second and channel.
    pub sample_rate: u32,
    /// Format code.
    pub format_id: u32,
    /// Format flags.
    pub format_flags: u32,
    /// Bytes per packet.
    pub bytes_per_packet: u32,
    /// Frames per packet.
    pub frames_per_packet: u32,
    /// Bytes per frame.
    pub bytes_per_frame: u32,
    /// Interleaved channels.
    pub channels_per_frame: u32,
    /// Bits per sample.
    pub bits_per_channel: u32,
}

/// The packed format of `channels` interleaved channels at `sample_rate`.
pub open spec fn packed_format(sample_rate: u32, channels: u32) -> StreamFormat {
    StreamFormat {
        sample_rate,
        format_id: FORMAT_LINEAR_PCM,
        format_flags: FORMAT_FLAGS,
        bytes_per_packet: (4 * channels) as u32,
        frames_per_packet: 1,
        bytes_per_frame: (4 * channels) as u32,
        channels_per_frame: channels,
        bits_per_channel: 32,
    }
}

/// The packed format of `channels` interleaved channels at `sample_rate`.
pub fn pcm_format_at(sample_rate: u32, channels: u32) -> (format: StreamFormat)
    requires
        4 * channels <= u32::MAX,
    ensures
        format == packed_format(sample_rate, channels),
{
    StreamFormat {
        sample_rate,
        format_id: FORMAT_LINEAR_PCM,
        format_flags: FORMAT_FLAGS,
        bytes_per_packet: 4 * channels,
        frames_per_packet: 1,
        bytes_per_frame: 4 * channels,
        channels_per_frame: channels,
        bits_per_channel: 32,
    }
}

/// The packed format of `channels` interleaved channels at the engine rate.
pub fn pcm_format(channels: u32) -> (format: StreamFormat)
    requires
        4 * channels <= u32::MAX,
    ensures
        format == packed_format(ENGINE_RATE, channels),
{
    pcm_format_at(ENGINE_RATE, channels)
}

/// What a property is set to.
#[derive(Debug, Clone, Copy, PartialEq, Eq, Structural)]
pub enum PropertyValue {
    /// A number: a switch, a device or a bound.
    Number(u32),
    /// A stream format.
    Format(StreamFormat),
}

/// One property write, and what it is called when it fails.
#[derive(Debug, Clone, Copy)]
pub struct PropertyWrite {
    /// The property.
    pub property: u32,
    /// Where it applies.
    pub scope: u32,
    /// To which element.
    pub element: u32,
    /// The new value.
    pub value: PropertyValue,
    /// The operation, for the error.
    pub operation: &'static str,
}

/// What a property of a unit holds once some writes have been made, if one of them was
/// about it.
pub open spec fn written(
    writes: Seq<PropertyWrite>,
    property: u32,
    scope: u32,
    element: u32,
) -> Option<PropertyValue>
    decreases writes.len(),
{
    if writes.len() == 0 {
        None
    } else {
        let last = writes.last();
        if last.property == property && last.scope == scope && last.element == element {
            Some(last.value)
        } else {
            written(writes.drop_last(), property, scope, element)
        }
    }
}

/// Whether a unit captures, once some writes have been made.
pub open spec fn captures(writes: Seq<PropertyWrite>) -> bool {
    written(writes, PROPERTY_ENABLE_IO, SCOPE_INPUT, INPUT_BUS) == Some(PropertyValue::Number(1))
}

/// Whether a unit renders, once some writes have been made.
pub open spec fn renders(writes: Seq<PropertyWrite>) -> bool {
    written(writes, PROPERTY_ENABLE_IO, SCOPE_OUTPUT, OUTPUT_BUS) == Some(
        PropertyValue::Number(1),
    )
}

/// Whether a unit is bound to a device, once some writes have been made, and both
/// directions were decided before that.
pub open spec fn bound_to(writes: Seq<PropertyWrite>, device: u32) -> bool {
    &&& written(writes, PROPERTY_CURRENT_DEVICE, SCOPE_GLOBAL, OUTPUT_BUS) == Some(
        PropertyValue::Number(device),
    )
    &&& writes.len() > 2
    &&& writes[2].property == PROPERTY_CURRENT_DEVICE
    &&& written(writes.take(2), PROPERTY_ENABLE_IO, SCOPE_INPUT, INPUT_BUS) is Some
    &&& written(writes.take(2), PROPERTY_ENABLE_IO, SCOPE_OUTPUT, OUTPUT_BUS) is Some
}

/// What a unit hands over of what it captures, and takes of what it renders: the side
/// of each element that faces the client.
pub open spec fn client_formats(writes: Seq<PropertyWrite>) -> (
    Option<PropertyValue>,
    Option<PropertyValue>,
) {
    (
        written(writes, PROPERTY_STREAM_FORMAT, SCOPE_OUTPUT, INPUT_BUS),
        written(writes, PROPERTY_STREAM_FORMAT, SCOPE_INPUT, OUTPUT_BUS),
    )
}

proof fn lemma_written_first<T>(writes: Seq<T>)
    requires
        writes.len() >= 2,
    ensures
        writes.take(2).drop_last() == seq![writes[0]],
        writes.take(2).last() == writes[1],
        seq![writes[0]].drop_last() == Seq::<T>::empty(),
{
    assert(writes.take(2).drop_last() =~= seq![writes[0]]);
    assert(seq![writes[0]].drop_last() =~= Seq::<T>::empty());
}

/// Writes an "enable" switch.
pub open spec fn enable_write(
    scope: u32,
    element: u32,
    on: bool,
    operation: &'static str,
) -> PropertyWrite {
    PropertyWrite {
        property: PROPERTY_ENABLE_IO,
        scope,
        element,
        value: PropertyValue::Number(if on {
            1
        } else {
            0
        }),
        operation,
    }
}

/// Writes the device.
pub open spec fn device_write(device: u32, operation: &'static str) -> PropertyWrite {
    PropertyWrite {
        property: PROPERTY_CURRENT_DEVICE,
        scope: SCOPE_GLOBAL,
        element: OUTPUT_BUS,
        value: PropertyValue::Number(device),
        operation,
    }
}

/// Writes a stream format.
pub open spec fn format_write(
    scope: u32,
    element: u32,
    format: StreamFormat,
    operation: &'static str,
) -> PropertyWrite {
    PropertyWrite {
        property: PROPERTY_STREAM_FORMAT,
        scope,
        element,
        value: PropertyValue::Format(format),
        operation,
    }
}

/// Writes the bound on the frames per callback.
pub open spec fn frames_write(operation: &'static str) -> PropertyWrite {
    PropertyWrite {
        property: PROPERTY_MAXIMUM_FRAMES_PER_SLICE,
        scope: SCOPE_GLOBAL,
        element: OUTPUT_BUS,
        value: PropertyValue::Number(MAX_CALLBACK_FRAMES as u32),
        operation,
    }
}

fn enable_io(scope: u32, element: u32, on: bool, operation: &'static str) -> (write: PropertyWrite)
    ensures
        write == enable_write(scope, element, on, operation),
{
    PropertyWrite {
        property: PROPERTY_ENABLE_IO,
        scope,
        element,
        value: PropertyValue::Number(if on { 1 } else { 0 }),
        operation,
    }
}

fn select_device(device: u32, operation: &'static str) -> (write: PropertyWrite)
    ensures
        write == device_write(device, operation),
{
    PropertyWrite {
        property: PROPERTY_CURRENT_DEVICE,
        scope: SCOPE_GLOBAL,
        element: OUTPUT_BUS,
        value: PropertyValue::Number(device),
        operation,
    }
}

fn set_format(scope: u32, element: u32, format: StreamFormat, operation: &'static str) -> (write:
    PropertyWrite)
    ensures
        write == format_write(scope, element, format, operation),
{
    PropertyWrite {
        property: PROPERTY_STREAM_FORMAT,
        scope,
        element,
        value: PropertyValue::Format(format),
        operation,
    }
}

fn set_max_frames_per_slice(operation: &'static str) -> (write: PropertyWrite)
    ensures
        write == frames_write(operation),
{
    PropertyWrite {
        property: PROPERTY_MAXIMUM_FRAMES_PER_SLICE,
        scope: SCOPE_GLOBAL,
        element: OUTPUT_BUS,
        value: PropertyValue::Number(MAX_CALLBACK_FRAMES as u32),
        operation,
    }
}

/// Configures the unit on an aggregate device: both directions on, mono
/// capture, and one render channel per channel of the virtual output, so that
/// a one-to-one channel map can feed every one of them. The channel map comes
/// last, once the device's channel count can be read.
pub fn configure_auhal(device: u32, virtual_output: VirtualOutputChannels) -> (writes: Vec<
    PropertyWrite,
>)
    requires
        virtual_output.wf(),
        4 * virtual_output.width() <= u32::MAX,
    ensures
        writes@ == seq![
            enable_write(SCOPE_INPUT, INPUT_BUS, true, "enable AUHAL input"),
            enable_write(SCOPE_OUTPUT, OUTPUT_BUS, true, "enable AUHAL output"),
            device_write(device, "select Aggregate Device"),
            format_write(
                SCOPE_OUTPUT,
                INPUT_BUS,
                packed_format(ENGINE_RATE, 1),
                "set AUHAL capture format",
            ),
            format_write(
                SCOPE_INPUT,
                OUTPUT_BUS,
                packed_format(ENGINE_RATE, virtual_output.width() as u32),
                "set AUHAL render format",
            ),
            frames_write("set AUHAL frame bound"),
        ],
        captures(writes@),
        renders(writes@),
        bound_to(writes@, device),
        client_formats(writes@) == (
            Some(PropertyValue::Format(packed_format(ENGINE_RATE, 1))),
            Some(PropertyValue::Format(packed_format(ENGINE_RATE, virtual_output.width()))),
        ),
        written(writes@, PROPERTY_MAXIMUM_FRAMES_PER_SLICE, SCOPE_GLOBAL, OUTPUT_BUS) == Some(
            PropertyValue::Number(MAX_CALLBACK_FRAMES as u32),
        ),
{
    let writes = vec![
        enable_io(SCOPE_INPUT, INPUT_BUS, true, "enable AUHAL input"),
        enable_io(SCOPE_OUTPUT, OUTPUT_BUS, true, "enable AUHAL output"),
        select_device(device, "select Aggregate Device"),
        set_format(SCOPE_OUTPUT, INPUT_BUS, pcm_format(1), "set AUHAL capture format"),
        set_format(
            SCOPE_INPUT,
            OUTPUT_BUS,
            pcm_format(virtual_output.count()),
            "set AUHAL render format",
        ),
        set_max_frames_per_slice("set AUHAL frame bound"),
    ];
    proof {
        reveal_with_fuel(written, 8);
        lemma_written_first(writes@);
    }
    writes
}

/// Configures the input-only unit that captures at a microphone's own rate. The
/// unit does not convert captured samples, so the rates must agree.
pub fn configure_capture_auhal(device: u32, capture_rate: u32) -> (writes: Vec<PropertyWrite>)
    ensures
        writes@ == seq![
            enable_write(SCOPE_INPUT, INPUT_BUS, true, "enable capture AUHAL input"),
            enable_write(SCOPE_OUTPUT, OUTPUT_BUS, false, "disable capture AUHAL output"),
            device_write(device, "select capture device"),
            format_write(
                SCOPE_OUTPUT,
                INPUT_BUS,
                packed_format(capture_rate, 1),
                "set capture client format",
            ),
            frames_write("set capture frame bound"),
        ],
        captures(writes@),
        !renders(writes@),
        bound_to(writes@, device),
        client_formats(writes@) == (
            Some(PropertyValue::Format(packed_format(capture_rate, 1))),
            None::<PropertyValue>,
        ),
        written(writes@, PROPERTY_MAXIMUM_FRAMES_PER_SLICE, SCOPE_GLOBAL, OUTPUT_BUS) == Some(
            PropertyValue::Number(MAX_CALLBACK_FRAMES as u32),
        ),
{
    let writes = vec![
        enable_io(SCOPE_INPUT, INPUT_BUS, true, "enable capture AUHAL input"),
        enable_io(SCOPE_OUTPUT, OUTPUT_BUS, false, "disable capture AUHAL output"),
        select_device(device, "select capture device"),
        set_format(
            SCOPE_OUTPUT,
            INPUT_BUS,
            pcm_format_at(capture_rate, 1),
            "set capture client format",
        ),
        set_max_frames_per_slice("set capture frame bound"),
    ];
    proof {
        reveal_with_fuel(written, 8);
        lemma_written_first(writes@);
    }
    writes
}

/// Binds the output-only unit to the virtual output. Once that is done the
/// device's channel count can be read.
pub fn bind_output_auhal(device: u32) -> (writes: Vec<PropertyWrite>)
    ensures
        writes@ == seq![
            enable_write(SCOPE_INPUT, INPUT_BUS, false, "disable split output AUHAL input"),
            enable_write(SCOPE_OUTPUT, OUTPUT_BUS, true, "enable split output AUHAL output"),
            device_write(device, "select virtual output device"),
        ],
        !captures(writes@),
        renders(writes@),
        bound_to(writes@, device),
{
    let writes = vec![
        enable_io(SCOPE_INPUT, INPUT_BUS, false, "disable split output AUHAL input"),
        enable_io(SCOPE_OUTPUT, OUTPUT_BUS, true, "enable split output AUHAL output"),
        select_device(device, "select virtual output device"),
    ];
    proof {
        reveal_with_fuel(written, 8);
        lemma_written_first(writes@);
    }
    writes
}

/// Configures the output-only unit that is bound to the virtual output: one
/// client channel per channel of the device, at the engine rate. A device
/// without output channels is refused.
pub fn configure_output_auhal(device_output_channels: u32) -> (result: Result<
    PropertyWrite,
    CoreAudioError,
>)
    requires
        4 * device_output_channels <= u32::MAX,
    ensures
        match result {
            Ok(write) => {
                &&& device_output_channels > 0
                &&& write == format_write(
                    SCOPE_INPUT,
                    OUTPUT_BUS,
                    packed_format(ENGINE_RATE, device_output_channels),
                    "set split output render format",
                )
            },
            Err(CoreAudioError::OutputRouting(reason)) => device_output_channels == 0 && reason@
                == "the virtual output device reports no output channels (split transport)"@,
            Err(_) => false,
        },
{
    match split_render_channels(device_output_channels) {
        Ok(channels) => Ok(
            set_format(
                SCOPE_INPUT,
                OUTPUT_BUS,
                pcm_format(channels),
                "set split output render format",
            ),
        ),
        Err(error) => Err(error),
    }
}

/// Configures the output-only unit of the preview monitor: stereo at the engine
/// rate.
pub fn configure_monitor_auhal(device: u32) -> (writes: Vec<PropertyWrite>)
    ensures
        writes@ == seq![
            enable_write(SCOPE_INPUT, INPUT_BUS, false, "disable monitor AUHAL input"),
            enable_write(SCOPE_OUTPUT, OUTPUT_BUS, true, "enable monitor AUHAL output"),
            device_write(device, "select monitor output device"),
            format_write(
                SCOPE_INPUT,
                OUTPUT_BUS,
                packed_format(ENGINE_RATE, 2),
                "set monitor render format",
            ),
        ],
        !captures(writes@),
        renders(writes@),
        bound_to(writes@, device),
        client_formats(writes@) == (
            None::<PropertyValue>,
            Some(PropertyValue::Format(packed_format(ENGINE_RATE, 2))),
        ),
{
    let writes = vec![
        enable_io(SCOPE_INPUT, INPUT_BUS, false, "disable monitor AUHAL input"),
        enable_io(SCOPE_OUTPUT, OUTPUT_BUS, true, "enable monitor AUHAL output"),
        select_device(device, "select monitor output device"),
        set_format(SCOPE_INPUT, OUTPUT_BUS, pcm_format(2), "set monitor render format"),
    ];
    proof {
        reveal_with_fuel(written, 8);
        lemma_written_first(writes@);
    }
    writes
}

/// A channel map as text: the entries in brackets, separated by commas.
pub open spec fn map_entries(map: Seq<i32>) -> Seq<char>
    decreases map.len(),
{
    if map.len() == 0 {
        Seq::empty()
    } else if map.len() == 1 {
        error::signed_decimal(map[0] as int)
    } else {
        map_entries(map.drop_last()) + ", "@ + error::signed_decimal(map.last() as int)
    }
}

/// A channel map as text.
pub open spec fn map_text(map: Seq<i32>) -> Seq<char> {
    "["@ + map_entries(map) + "]"@
}

/// Appends a channel map.
fn push_map(text: &mut String, map: &[i32])
    ensures
        final(text)@ == old(text)@ + map_text(map@),
{
    text.append("[");
    let ghost start = text@;
    let mut i: usize = 0;
    assert(text@ =~= start + map_entries(map@.take(0)));
    while i < map.len()
        invariant
            i <= map@.len(),
            text@ == start + map_entries(map@.take(i as int)),
        decreases map@.len() - i,
    {
        let ghost before = text@;
        if i > 0 {
            text.append(", ");
        }
        push_signed(text, map[i]);
        proof {
            assert(map@.take(i + 1).drop_last() =~= map@.take(i as int));
            assert(text@ =~= start + map_entries(map@.take(i + 1)));
        }
        i = i + 1;
    }
    assert(map@.take(i as int) =~= map@);
    text.append("]");
    assert(text@ =~= old(text)@ + map_text(map@));
}

/// The routing that was asked for, for the start-time log.
pub open spec fn requested_text(
    device_channels: u32,
    virtual_output: VirtualOutputChannels,
    map: Seq<i32>,
) -> Seq<char> {
    "aggregate output channels "@ + text::decimal(device_channels as nat)
        + ", virtual output at channels "@ + text::decimal(virtual_output.start() as nat) + ".."@
        + text::decimal((virtual_output.start() + virtual_output.width()) as nat)
        + ", channel map requested "@ + map_text(map)
}

/// A channel map to set, its size in bytes, and its description.
#[derive(Debug)]
pub struct ChannelMapWrite {
    /// The entries, one per device channel.
    pub map: Vec<i32>,
    /// Size in bytes.
    pub bytes: u32,
    /// The description.
    pub description: String,
}

/// The channel map that places the render stream on the virtual output, once
/// the device's channel count has been read.
pub fn set_render_channel_map(device_channels: u32, virtual_output: VirtualOutputChannels) -> (result:
    Result<ChannelMapWrite, CoreAudioError>)
    requires
        virtual_output.wf(),
        virtual_output.start() + virtual_output.width() == device_channels
            ==> virtual_output.width() <= i32::MAX,
    ensures
        match result {
            Ok(write) => {
                &&& virtual_output.start() + virtual_output.width() == device_channels
                &&& 4 * device_channels <= u32::MAX
                &&& write.map@ == routing::channel_map(virtual_output)
                &&& write.bytes == 4 * device_channels
                &&& write.description@ == requested_text(
                    device_channels,
                    virtual_output,
                    write.map@,
                )
            },
            Err(CoreAudioError::OutputRouting(reason)) => if virtual_output.start()
                + virtual_output.width() != device_channels {
                reason@ == routing::mismatch_message(device_channels, virtual_output)
            } else {
                4 * device_channels > u32::MAX && reason@ == "channel map size overflow"@
            },
            Err(_) => false,
        },
{
    let map: Vec<i32> = match render_channel_map(device_channels, virtual_output) {
        Ok(map) => map,
        Err(error) => {
            return Err(error);
        },
    };
    let bytes: u32 = match channel_map_bytes(map.len()) {
        Ok(bytes) => bytes,
        Err(error) => {
            return Err(error);
        },
    };
    let mut description = "aggregate output channels ".to_owned();
    push_decimal(&mut description, device_channels as u64);
    description.append(", virtual output at channels ");
    push_decimal(&mut description, virtual_output.first() as u64);
    description.append("..");
    push_decimal(&mut description, virtual_output.end() as u64);
    description.append(", channel map requested ");
    push_map(&mut description, map.as_slice());
    assert(description@ =~= requested_text(device_channels, virtual_output, map@));
    Ok(ChannelMapWrite { map, bytes, description })
}

/// What reading the channel map back gave.
#[derive(Debug)]
pub enum AppliedMap {
    /// The device format could not be read.
    FormatUnreadable,
    /// The map is too long to ask for.
    SizeOverflow,
    /// The read failed.
    Failed {
        /// Its status.
        status: i32,
    },
    /// The entries that were filled, out of `device_channels`.
    Read {
        /// The buffer, one entry per device channel.
        entries: Vec<i32>,
        /// How many bytes of it were filled.
        filled: u32,
        /// Output channels of the device.
        device_channels: u32,
    },
}

/// The entries of a map buffer that were filled.
pub open spec fn filled_entries(entries: Seq<i32>, filled: u32) -> Seq<i32> {
    if filled / 4 < entries.len() {
        entries.take((filled / 4) as int)
    } else {
        entries
    }
}

/// What reading the channel map back gave, as text.
pub open spec fn applied_text(applied: AppliedMap) -> Seq<char> {
    match applied {
        AppliedMap::FormatUnreadable => "channel map read back: device format unreadable"@,
        AppliedMap::SizeOverflow => "channel map read back: size overflow"@,
        AppliedMap::Failed { status } =>
            "channel map read back after initialize: unreadable (OSStatus "@
            + error::signed_decimal(status as int) + ")"@,
        AppliedMap::Read { entries, filled, device_channels } =>
            "channel map read back after initialize "@ + map_text(
            filled_entries(entries@, filled),
        ) + " (device output channels then "@ + text::decimal(device_channels as nat) + ")"@,
    }
}

/// How large a buffer the channel map needs: one entry per device channel, if
/// their size in bytes can be counted.
pub fn applied_map_request(device_channels: Option<u32>) -> (request: Result<
    (usize, u32),
    AppliedMap,
>)
    ensures
        match device_channels {
            None => request matches Err(AppliedMap::FormatUnreadable),
            Some(channels) => if 4 * channels > u32::MAX {
                request matches Err(AppliedMap::SizeOverflow)
            } else {
                request == Ok::<(usize, u32), AppliedMap>((channels as usize, (4 * channels) as u32))
            },
        },
{
    match device_channels {
        None => Err(AppliedMap::FormatUnreadable),
        Some(channels) => match channel_map_bytes(channels as usize) {
            Ok(bytes) => Ok((channels as usize, bytes)),
            Err(_) => Err(AppliedMap::SizeOverflow),
        },
    }
}

/// Describes what reading the channel map back gave. An unreadable map is
/// reported, never an error.
pub fn describe_applied_channel_map(applied: &AppliedMap) -> (description: String)
    ensures
        description@ == applied_text(*applied),
{
    match applied {
        AppliedMap::FormatUnreadable =>
            "channel map read back: device format unreadable".to_owned(),
        AppliedMap::SizeOverflow => "channel map read back: size overflow".to_owned(),
        AppliedMap::Failed { status } => {
            let mut text = "channel map read back after initialize: unreadable (OSStatus ".to_owned();
            push_signed(&mut text, *status);
            text.append(")");
            text
        },
        AppliedMap::Read { entries, filled, device_channels } => {
            let count: usize = (*filled / 4) as usize;
            let shown: usize = if count < entries.len() { count } else { entries.len() };
            let mut text = "channel map read back after initialize ".to_owned();
            push_map(&mut text, slice_subrange(entries.as_slice(), 0, shown));
            proof {
                assert(entries@.subrange(0, shown as int) =~= filled_entries(entries@, *filled));
            }
            text.append(" (device output channels then ");
            push_decimal(&mut text, *device_channels as u64);
            text.append(")");
            text
        },
    }
}

/// The worker's real-time cadence: one engine block every 10 ms.
pub const WORKER_PERIOD_NS: u64 = 10_000_000;

/// Computation that is guaranteed per period.
pub const WORKER_COMPUTATION_NS: u64 = 5_000_000;

/// Deadline within each period: the whole period.
pub const WORKER_CONSTRAINT_NS: u64 = 10_000_000;

/// A real-time scheduling policy, in clock ticks.
#[derive(Debug, Clone, Copy, PartialEq, Eq, Structural)]
pub struct TimeConstraint {
    /// Ticks between two runs.
    pub period: u32,
    /// Ticks of computation per run.
    pub computation: u32,
    /// Ticks until the deadline.
    pub constraint: u32,
    /// Whether the thread may be preempted.
    pub preemptible: u32,
}

/// Nanoseconds in clock ticks of `numer / denom` nanoseconds each, rounded
/// down and capped.
pub open spec fn clock_ticks(ns: u64, numer: u32, denom: u32) -> u32 {
    let scaled = if ns * denom > u64::MAX {
        u64::MAX as int
    } else {
        ns * denom
    };
    let ticks = scaled / (numer as int);
    if ticks > u32::MAX {
        u32::MAX
    } else {
        ticks as u32
    }
}

fn ticks(ns: u64, numer: u32, denom: u32) -> (ticks: u32)
    requires
        numer > 0,
    ensures
        ticks == clock_ticks(ns, numer, denom),
{
    proof {
        assert(ns * denom >= 0) by (nonlinear_arith);
    }
    let scaled: u64 = match ns.checked_mul(denom as u64) {
        Some(product) => product,
        None => u64::MAX,
    };
    let ticks: u64 = scaled / numer as u64;
    if ticks > u32::MAX as u64 {
        u32::MAX
    } else {
        ticks as u32
    }
}

/// The worker's scheduling policy, given the clock's time base and whether it
/// could be read. A time base with a zero cannot be used.
pub fn worker_policy(readable: bool, numer: u32, denom: u32) -> (policy: Option<TimeConstraint>)
    ensures
        policy == (if !readable || numer == 0 || denom == 0 {
            None
        } else {
            Some(
                TimeConstraint {
                    period: clock_ticks(WORKER_PERIOD_NS, numer, denom),
                    computation: clock_ticks(WORKER_COMPUTATION_NS, numer, denom),
                    constraint: clock_ticks(WORKER_CONSTRAINT_NS, numer, denom),
                    preemptible: 1,
                },
            )
        }),
{
    if !readable || numer == 0 || denom == 0 {
        return None;
    }
    Some(
        TimeConstraint {
            period: ticks(WORKER_PERIOD_NS, numer, denom),
            computation: ticks(WORKER_COMPUTATION_NS, numer, denom),
            constraint: ticks(WORKER_CONSTRAINT_NS, numer, denom),
            preemptible: 1,
        },
    )
}

/// The computation is never declared longer than the deadline, nor the
/// deadline longer than the period.
pub proof fn law_policy_is_admissible(numer: u32, denom: u32)
    requires
        numer > 0,
    ensures
        clock_ticks(WORKER_COMPUTATION_NS, numer, denom) <= clock_ticks(
            WORKER_CONSTRAINT_NS,
            numer,
            denom,
        ),
        clock_ticks(WORKER_CONSTRAINT_NS, numer, denom) <= clock_ticks(
            WORKER_PERIOD_NS,
            numer,
            denom,
        ),
{
    let low = WORKER_COMPUTATION_NS * denom;
    let high = WORKER_CONSTRAINT_NS * denom;
    assert(low / (numer as int) <= high / (numer as int)) by (nonlinear_arith)
        requires
            low <= high,
            numer > 0,
    ;
}

/// Ticks are rounded down, by less than one tick, as long as nothing is capped.
pub proof fn law_ticks_are_rounded_down(ns: u64, numer: u32, denom: u32)
    requires
        numer > 0,
        ns * denom <= u64::MAX,
        ns * denom <= u32::MAX * numer,
    ensures
        clock_ticks(ns, numer, denom) * numer <= ns * denom < (clock_ticks(ns, numer, denom) + 1)
            * numer,
{
    let scaled = ns * denom;
    let n = numer as int;
    assert(scaled >= 0) by (nonlinear_arith)
        requires
            scaled == ns * denom,
            ns >= 0,
            denom >= 0,
    ;
    vstd::arithmetic::div_mod::lemma_fundamental_div_mod(scaled, n);
    vstd::arithmetic::div_mod::lemma_mod_bound(scaled, n);
    let q = scaled / n;
    assert(q * n <= scaled < (q + 1) * n) by (nonlinear_arith)
        requires
            scaled == n * q + scaled % n,
            0 <= scaled % n < n,
    ;
    assert(0 <= q <= u32::MAX) by (nonlinear_arith)
        requires
            q * n <= scaled < (q + 1) * n,
            0 <= scaled <= u32::MAX * n,
            n > 0,
    ;
}

/// What is shown of a map that was read back is what was filled, from its first entry
/// on, and never more than there is room for.
pub proof fn law_filled_entries_are_a_prefix(entries: Seq<i32>, filled: u32, i: int)
    ensures
        filled_entries(entries, filled).len() <= entries.len(),
        4 * filled_entries(entries, filled).len() <= filled,
        filled >= 4 * entries.len() ==> filled_entries(entries, filled) == entries,
        filled < 4 * entries.len() ==> filled < 4 * filled_entries(entries, filled).len() + 4,
        0 <= i < filled_entries(entries, filled).len() ==> filled_entries(entries, filled)[i]
            == entries[i],
{
}

/// A packed format adds up: a frame holds one sample of each channel, and a packet one
/// frame.
pub proof fn law_packed_formats_add_up(sample_rate: u32, channels: u32)
    requires
        4 * channels <= u32::MAX,
    ensures
        ({
            let format = packed_format(sample_rate, channels);
            &&& 8 * format.bytes_per_frame == format.bits_per_channel * format.channels_per_frame
            &&& format.bytes_per_packet == format.frames_per_packet * format.bytes_per_frame
            &&& format.frames_per_packet == 1
            &&& format.bits_per_channel == 32
            &&& format.channels_per_frame == channels
            &&& format.sample_rate == sample_rate
        }),
{
}

/// A channel map in the log can be read back: cut at the commas, it gives the entries,
/// each behind the first with a space before it.
pub proof fn law_map_entries_read_back(map: Seq<i32>)
    requires
        map.len() > 0,
    ensures
        text::split(map_entries(map), ',') == Seq::new(
            map.len(),
            |k: int|
                if k == 0 {
                    error::signed_decimal(map[0] as int)
                } else {
                    seq![' '] + error::signed_decimal(map[k] as int)
                },
        ),
{
    let parts = Seq::new(
        map.len(),
        |k: int|
            if k == 0 {
                error::signed_decimal(map[0] as int)
            } else {
                seq![' '] + error::signed_decimal(map[k] as int)
            },
    );
    lemma_entries_are_joined(map, parts);
    assert forall|k: int| 0 <= k < parts.len() implies text::free_of(
        #[trigger] parts[k],
        ',',
    ) by {
        lemma_numbers_hold_no_comma(map[k] as int);
        let number = error::signed_decimal(map[k] as int);
        assert forall|i: int| 0 <= i < parts[k].len() implies #[trigger] parts[k][i] != ',' by {
            if k == 0 {
                assert(number[i] != ',');
            } else if i > 0 {
                assert(number[i - 1] != ',');
            }
        }
    }
    text::law_split_undoes_joining(parts, ',');
}

proof fn lemma_numbers_hold_no_comma(number: int)
    ensures
        text::free_of(error::signed_decimal(number), ','),
{
    reveal_strlit("-");
    let size = (if number < 0 {
        -number
    } else {
        number
    }) as nat;
    text::law_decimal_reads_back(size);
    let digits = text::decimal(size);
    let shown = error::signed_decimal(number);
    assert forall|i: int| 0 <= i < shown.len() implies #[trigger] shown[i] != ',' by {
        if number < 0 {
            if i > 0 {
                assert(text::is_digit(digits[i - 1]));
            }
        } else {
            assert(text::is_digit(digits[i]));
        }
    }
}

proof fn lemma_entries_are_joined(map: Seq<i32>, parts: Seq<Seq<char>>)
    requires
        map.len() > 0,
        parts.len() == map.len(),
        parts[0] == error::signed_decimal(map[0] as int),
        forall|k: int|
            0 < k < map.len() ==> #[trigger] parts[k] == seq![' '] + error::signed_decimal(
                map[k] as int,
            ),
    ensures
        map_entries(map) == text::joined_by(parts, ','),
    decreases map.len(),
{
    if map.len() > 1 {
        let last = map.len() - 1;
        lemma_entries_are_joined(map.drop_last(), parts.drop_last());
        assert(parts[last] == seq![' '] + error::signed_decimal(map[last] as int));
        reveal_strlit(", ");
        assert(map_entries(map) =~= text::joined_by(parts, ','));
    }
}

} // verus!
