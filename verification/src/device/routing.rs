//! Output-channel routing for the aggregate transport: where the virtual
//! output sits inside the private Aggregate Device, and the AUHAL channel map
//! that steers the engine output there.
//!
//! The aggregate's output channels are those of its subdevices in order,
//! microphone first. The transport renders as many client channels as the
//! virtual output has; the map places client channel `i` on virtual output
//! channel `i` and leaves every channel ahead of the virtual output silent.

use vstd::prelude::*;
use vstd::string::*;

use crate::device::error::CoreAudioError;
use crate::text;
use crate::text::push_decimal;

verus! {

/// Channel map entry meaning "no client channel feeds this device channel".
pub const UNMAPPED_CHANNEL: i32 = -1;

/// Position of the virtual output's channels within an Aggregate Device's
/// output channel list.
///
/// `first` is the number of output channels contributed by the subdevices
/// ahead of the virtual output, and `count` is the virtual output's own
/// channel count, which is also that of the client stream.
#[derive(Debug, Clone, Copy, PartialEq, Eq, Structural)]
pub struct VirtualOutputChannels {
    first: u32,
    count: u32,
}

/// The message for a range that does not fit.
pub open spec fn overflow_message(first: u32, count: u32) -> Seq<char> {
    "virtual output channel range "@ + text::decimal(first as nat) + "+"@ + text::decimal(
        count as nat,
    ) + " overflows"@
}

impl VirtualOutputChannels {
    /// Channels ahead of the virtual output.
    pub closed spec fn start(self) -> u32 {
        self.first
    }

    /// Channels of the virtual output.
    pub closed spec fn width(self) -> u32 {
        self.count
    }

    /// Whether there is at least one channel and the end fits.
    pub open spec fn wf(self) -> bool {
        self.width() > 0 && self.start() + self.width() <= u32::MAX
    }

    /// Describes `count` virtual-output channels starting at device output
    /// channel `first`.
    pub fn new(first: u32, count: u32) -> (result: Result<Self, CoreAudioError>)
        ensures
            match result {
                Ok(range) => {
                    &&& count > 0
                    &&& first + count <= u32::MAX
                    &&& range.wf()
                    &&& range.start() == first
                    &&& range.width() == count
                },
                Err(CoreAudioError::OutputRouting(reason)) => {
                    ||| count == 0 && reason@ == "the virtual output reports no output channels"@
                    ||| count > 0 && first + count > u32::MAX && reason@ == overflow_message(
                        first,
                        count,
                    )
                },
                Err(_) => false,
            },
    {
        if count == 0 {
            return Err(
                CoreAudioError::OutputRouting(
                    "the virtual output reports no output channels".to_owned(),
                ),
            );
        }
        if first.checked_add(count).is_none() {
            let mut reason = "virtual output channel range ".to_owned();
            push_decimal(&mut reason, first as u64);
            reason.append("+");
            push_decimal(&mut reason, count as u64);
            reason.append(" overflows");
            return Err(CoreAudioError::OutputRouting(reason));
        }
        Ok(VirtualOutputChannels { first, count })
    }

    /// Device output channel index of the virtual output's first channel.
    pub fn first(self) -> (first: u32)
        ensures
            first == self.start(),
    {
        self.first
    }

    /// Number of virtual output channels.
    pub fn count(self) -> (count: u32)
        ensures
            count == self.width(),
    {
        self.count
    }

    /// One past the virtual output's last device output channel.
    pub fn end(self) -> (end: u32)
        requires
            self.wf(),
        ensures
            end == self.start() + self.width(),
    {
        self.first + self.count
    }
}

/// The message for a layout that does not match the device.
pub open spec fn mismatch_message(device_channels: u32, target: VirtualOutputChannels) -> Seq<
    char,
> {
    "the aggregate device reports "@ + text::decimal(device_channels as nat)
        + " output channel(s), but the virtual output was expected at channels "@ + text::decimal(
        target.start() as nat,
    ) + ".."@ + text::decimal((target.start() + target.width()) as nat)
        + " (microphone outputs first)"@
}

/// The channel map: silence ahead of the virtual output, then the client
/// channels one to one.
pub open spec fn channel_map(target: VirtualOutputChannels) -> Seq<i32> {
    Seq::new(
        (target.start() + target.width()) as nat,
        |i: int|
            if i < target.start() {
                UNMAPPED_CHANNEL
            } else {
                (i - target.start()) as i32
            },
    )
}

/// Builds the AUHAL output channel map that places a `target.count()`-channel
/// client stream on `target` in a device with `device_channels` output
/// channels.
///
/// The map is only valid when `target` ends exactly at the device's last
/// channel; anything else means that the composition and the device disagree
/// about the layout, and the transport must not guess.
pub fn render_channel_map(device_channels: u32, target: VirtualOutputChannels) -> (result: Result<
    Vec<i32>,
    CoreAudioError,
>)
    requires
        target.wf(),
        target.start() + target.width() == device_channels ==> target.width() <= i32::MAX,
    ensures
        match result {
            Ok(map) => {
                &&& target.start() + target.width() == device_channels
                &&& map@ == channel_map(target)
            },
            Err(CoreAudioError::OutputRouting(reason)) => {
                &&& target.start() + target.width() != device_channels
                &&& reason@ == mismatch_message(device_channels, target)
            },
            Err(_) => false,
        },
{
    if target.end() != device_channels {
        let mut reason = "the aggregate device reports ".to_owned();
        push_decimal(&mut reason, device_channels as u64);
        reason.append(" output channel(s), but the virtual output was expected at channels ");
        push_decimal(&mut reason, target.first() as u64);
        reason.append("..");
        push_decimal(&mut reason, target.end() as u64);
        reason.append(" (microphone outputs first)");
        return Err(CoreAudioError::OutputRouting(reason));
    }
    let first: u32 = target.first();
    let mut map: Vec<i32> = Vec::new();
    let mut channel: u32 = 0;
    while channel < device_channels
        invariant
            target.wf(),
            target.width() <= i32::MAX,
            first == target.start(),
            target.start() + target.width() == device_channels,
            channel <= device_channels,
            map@ == channel_map(target).take(channel as int),
        decreases device_channels - channel,
    {
        if channel < first {
            map.push(UNMAPPED_CHANNEL);
        } else {
            map.push((channel - first) as i32);
        }
        channel = channel + 1;
        assert(map@ =~= channel_map(target).take(channel as int));
    }
    assert(map@ =~= channel_map(target));
    Ok(map)
}

/// Every virtual output channel is fed, by the client channel of the same
/// number, and nothing else is: no client channel is named twice.
pub proof fn law_map_is_one_to_one(target: VirtualOutputChannels)
    requires
        target.wf(),
        target.width() <= i32::MAX,
    ensures
        channel_map(target).len() == target.start() + target.width(),
        forall|i: int|
            0 <= i < target.start() ==> #[trigger] channel_map(target)[i] == UNMAPPED_CHANNEL,
        forall|i: int|
            0 <= i < target.width() ==> #[trigger] channel_map(target)[target.start() + i] == i,
        forall|i: int, j: int|
            target.start() <= i < j < channel_map(target).len() ==> #[trigger] channel_map(
                target,
            )[i] != #[trigger] channel_map(target)[j],
{
}

/// Client render channel count for the split transport's output-only unit,
/// from the output channel count of the virtual output device: one client
/// channel per device channel.
pub fn split_render_channels(device_output_channels: u32) -> (result: Result<u32, CoreAudioError>)
    ensures
        match result {
            Ok(channels) => device_output_channels > 0 && channels == device_output_channels,
            Err(CoreAudioError::OutputRouting(reason)) => device_output_channels == 0 && reason@
                == "the virtual output device reports no output channels (split transport)"@,
            Err(_) => false,
        },
{
    if device_output_channels == 0 {
        return Err(
            CoreAudioError::OutputRouting(
                "the virtual output device reports no output channels (split transport)".to_owned(),
            ),
        );
    }
    Ok(device_output_channels)
}

/// Byte size of a channel map with `entries` slots.
pub fn channel_map_bytes(entries: usize) -> (result: Result<u32, CoreAudioError>)
    ensures
        match result {
            Ok(bytes) => bytes == 4 * entries,
            Err(CoreAudioError::OutputRouting(reason)) => 4 * entries > u32::MAX && reason@
                == "channel map size overflow"@,
            Err(_) => false,
        },
{
    if entries as u64 > (u32::MAX / 4) as u64 {
        return Err(CoreAudioError::OutputRouting("channel map size overflow".to_owned()));
    }
    Ok((entries * 4) as u32)
}

/// A layout that does not match is told as it is: the channels that the device reports
/// first, then where the virtual output was expected to begin and to end.
pub proof fn law_mismatches_are_told_in_order(
    device_channels: u32,
    target: VirtualOutputChannels,
)
    ensures
        ({
            let told = mismatch_message(device_channels, target);
            let shown = text::decimal(device_channels as nat);
            let between =
                " output channel(s), but the virtual output was expected at channels "@;
            let begins = text::decimal(target.start() as nat);
            let ends = text::decimal((target.start() + target.width()) as nat);
            let front = "the aggregate device reports "@ + shown;
            &&& text::stands_behind(
                told,
                Seq::empty(),
                "the aggregate device reports "@,
                shown,
            )
            &&& text::stands_behind(told, front, between, begins)
            &&& text::stands_behind(told, front + between + begins, ".."@, ends)
        }),
{
    let told = mismatch_message(device_channels, target);
    let shown = text::decimal(device_channels as nat);
    let between = " output channel(s), but the virtual output was expected at channels "@;
    let begins = text::decimal(target.start() as nat);
    let ends = text::decimal((target.start() + target.width()) as nat);
    let opening = "the aggregate device reports "@;
    let front = opening + shown;
    assert(told.take(opening.len() as int) =~= Seq::<char>::empty() + opening);
    assert(told.subrange(opening.len() as int, opening.len() as int + shown.len()) =~= shown);
    let second = (front.len() + between.len()) as int;
    assert(told.take(second) =~= front + between);
    assert(told.subrange(second, second + begins.len()) =~= begins);
    let third = ((front + between + begins).len() + ".."@.len()) as int;
    assert(told.take(third) =~= front + between + begins + ".."@);
    assert(told.subrange(third, third + ends.len()) =~= ends);
}

} // verus!
