//! Reading audio files: which reader to use, how samples are encoded, and
//! which packets of a container count.
//!
//! Opening files, decoding and averaging channels are done by the caller.

use vstd::prelude::*;
use vstd::string::*;

use crate::signal::block::ENGINE_SAMPLE_RATE;
use crate::text;
use crate::text::push_decimal;

verus! {

/// A character with the upper-case letters of ASCII lowered.
pub open spec fn ascii_lower(character: char) -> char {
    if 'A' <= character <= 'Z' {
        (character as u8 + 32) as char
    } else {
        character
    }
}

/// A text with the upper-case letters of ASCII lowered.
pub open spec fn ascii_lowered(original: Seq<char>) -> Seq<char> {
    original.map_values(|character: char| ascii_lower(character))
}

fn lower(character: char) -> (lowered: char)
    ensures
        lowered == ascii_lower(character),
{
    if 'A' <= character && character <= 'Z' {
        (character as u8 + 32) as char
    } else {
        character
    }
}

/// The extension that decides how a file is read, with the letters lowered.
pub fn lower_extension(extension: &str) -> (lowered: String)
    ensures
        lowered@ == ascii_lowered(extension@),
{
    let mut lowered = "".to_owned();
    proof {
        reveal_strlit("");
    }
    let ghost mapped = ascii_lowered(extension@);
    let length: usize = extension.unicode_len();
    let mut i: usize = 0;
    assert(lowered@ =~= mapped.take(0));
    while i < length
        invariant
            i <= length == extension@.len(),
            mapped == ascii_lowered(extension@),
            lowered@ == mapped.take(i as int),
        decreases length - i,
    {
        lowered.push(lower(extension.get_char(i)));
        i = i + 1;
        assert(lowered@ =~= mapped.take(i as int));
    }
    assert(lowered@ =~= mapped);
    lowered
}

/// Which reader a file gets.
#[derive(Debug, Clone, Copy, PartialEq, Eq, Structural)]
pub enum Reader {
    /// The WAV reader.
    Wav,
    /// The container reader.
    Container,
}

/// The reader for a file: by its extension, whatever its case.
pub fn reader_for(extension: Option<&str>) -> (reader: Reader)
    ensures
        reader == (match extension {
            Some(given) => if ascii_lowered(given@) == "wav"@ {
                Reader::Wav
            } else {
                Reader::Container
            },
            None => Reader::Container,
        }),
{
    match extension {
        Some(given) => {
            let lowered: String = lower_extension(given);
            if text::same_text(lowered.as_str(), "wav") {
                Reader::Wav
            } else {
                Reader::Container
            }
        },
        None => Reader::Container,
    }
}

/// How the samples of a WAV file are encoded.
#[derive(Debug, Clone, Copy, PartialEq, Eq, Structural)]
pub enum WavEncoding {
    /// Single-precision numbers.
    Float,
    /// Integers, to be divided by this full scale.
    Integer {
        /// Full scale: half the range of the samples.
        scale: u64,
    },
}

/// Two to the power of `exponent`.
pub open spec fn power_of_two(exponent: int) -> int
    decreases exponent,
{
    if exponent <= 0 {
        1
    } else {
        2 * power_of_two(exponent - 1)
    }
}

/// The message for an encoding that cannot be read.
pub open spec fn unsupported_text(float: bool, bits: u16) -> Seq<char> {
    "unsupported WAV encoding: "@ + (if float {
        "Float"@
    } else {
        "Int"@
    }) + " "@ + text::decimal(bits as nat) + " bit"@
}

/// How the samples of a WAV file are read: 32-bit numbers, or integers of up to
/// 32 bits.
pub fn wav_encoding(float: bool, bits: u16) -> (result: Result<WavEncoding, String>)
    ensures
        match result {
            Ok(WavEncoding::Float) => float && bits == 32,
            Ok(WavEncoding::Integer { scale }) => !float && 1 <= bits <= 32 && scale
                == power_of_two(bits - 1),
            Err(message) => {
                &&& float ==> bits != 32
                &&& !float ==> bits == 0 || bits > 32
                &&& message@ == unsupported_text(float, bits)
            },
        },
{
    if float && bits == 32 {
        return Ok(WavEncoding::Float);
    }
    if !float && 1 <= bits && bits <= 32 {
        let mut scale: u64 = 1;
        let mut exponent: u16 = 0;
        proof {
            lemma_power_bound(bits - 1);
        }
        while exponent < bits - 1
            invariant
                1 <= bits <= 32,
                exponent <= bits - 1,
                scale == power_of_two(exponent as int),
                scale * power_of_two(bits - 1 - exponent) <= 0x8000_0000,
            decreases bits - exponent,
        {
            proof {
                lemma_power_is_positive(bits - 2 - exponent);
                let rest = power_of_two(bits - 2 - exponent);
                assert(power_of_two(bits - 1 - exponent) == 2 * rest);
                assert(scale * (2 * rest) == (2 * scale) * rest) by (nonlinear_arith);
                assert(2 * scale <= (2 * scale) * rest) by (nonlinear_arith)
                    requires
                        rest >= 1,
                        scale >= 0,
                ;
            }
            scale = 2 * scale;
            exponent = exponent + 1;
        }
        return Ok(WavEncoding::Integer { scale });
    }
    let mut message = "unsupported WAV encoding: ".to_owned();
    if float {
        message.append("Float");
    } else {
        message.append("Int");
    }
    message.append(" ");
    push_decimal(&mut message, bits as u64);
    message.append(" bit");
    Err(message)
}

proof fn lemma_power_is_positive(exponent: int)
    ensures
        power_of_two(exponent) >= 1,
    decreases exponent,
{
    if exponent > 0 {
        lemma_power_is_positive(exponent - 1);
    }
}

proof fn lemma_power_bound(exponent: int)
    requires
        exponent <= 31,
    ensures
        power_of_two(exponent) <= 0x8000_0000,
    decreases 31 - exponent,
{
    reveal_with_fuel(power_of_two, 33);
    if 0 <= exponent < 31 {
        lemma_power_is_positive(exponent);
        lemma_power_bound(exponent + 1);
        assert(power_of_two(exponent + 1) == 2 * power_of_two(exponent));
    }
}

/// Channels of a frame; a file that claims none has one.
pub open spec fn frame_width(channels: usize) -> usize {
    if channels == 0 {
        1
    } else {
        channels
    }
}

/// Where the frames of an interleaved recording lie: how many whole ones there
/// are, and how wide each is. What is left over is dropped.
pub fn frame_layout(samples: usize, channels: usize) -> (layout: (usize, usize))
    ensures
        layout.1 == frame_width(channels),
        layout.0 == samples as int / (frame_width(channels) as int),
        layout.0 * layout.1 <= samples < layout.0 * layout.1 + layout.1,
        channels > 0 ==> layout.1 == channels,
        channels == 0 ==> layout == (samples, 1usize),
{
    let width: usize = if channels == 0 { 1 } else { channels };
    let frames: usize = samples / width;
    proof {
        vstd::arithmetic::div_mod::lemma_fundamental_div_mod(samples as int, width as int);
        assert(frames * width <= samples) by (nonlinear_arith)
            requires
                frames == samples as int / (width as int),
                samples == width * (samples as int / (width as int)) + samples as int % (
                width as int),
                samples as int % (width as int) >= 0,
        ;
    }
    (frames, width)
}

/// Whether a recording must be converted to the engine rate.
pub fn needs_conversion(sample_rate: u32) -> (needed: bool)
    ensures
        needed == (sample_rate != ENGINE_SAMPLE_RATE),
{
    sample_rate != ENGINE_SAMPLE_RATE
}

/// The first track that can be decoded.
pub fn first_decodable(decodable: &[bool]) -> (track: Option<usize>)
    ensures
        match track {
            Some(i) => {
                &&& i < decodable@.len()
                &&& decodable@[i as int]
                &&& forall|k: int| 0 <= k < i ==> !#[trigger] decodable@[k]
            },
            None => forall|k: int| 0 <= k < decodable@.len() ==> !#[trigger] decodable@[k],
        },
{
    let mut i: usize = 0;
    while i < decodable.len()
        invariant
            i <= decodable@.len(),
            forall|k: int| 0 <= k < i ==> !#[trigger] decodable@[k],
        decreases decodable@.len() - i,
    {
        if decodable[i] {
            return Some(i);
        }
        i = i + 1;
    }
    None
}

/// What reading a container gave.
#[derive(Debug, Clone, Copy, PartialEq, Eq, Structural)]
pub enum PacketEvent {
    /// A packet of this track.
    Packet(u32),
    /// The file has ended.
    EndOfFile,
    /// Reading failed.
    Failed,
}

/// What to do next.
#[derive(Debug, Clone, Copy, PartialEq, Eq, Structural)]
pub enum PacketStep {
    /// Decode the packet.
    Decode,
    /// Read on: the packet belongs to another track.
    Skip,
    /// Everything has been read.
    Finish,
    /// Give up.
    Fail,
}

/// Collects the decoded audio of one track of a container.
#[derive(Debug)]
pub struct TrackReader {
    track: u32,
    mono: Vec<u32>,
}

impl TrackReader {
    /// The track.
    pub closed spec fn chosen(&self) -> u32 {
        self.track
    }

    /// The samples collected so far.
    pub closed spec fn collected(&self) -> Seq<u32> {
        self.mono@
    }

    /// Begins to read a track.
    pub fn new(track: u32) -> (reader: Self)
        ensures
            reader.chosen() == track,
            reader.collected() == Seq::<u32>::empty(),
    {
        TrackReader { track, mono: Vec::new() }
    }

    /// What to do with what was read.
    pub fn next(&self, event: PacketEvent) -> (step: PacketStep)
        ensures
            step == (match event {
                PacketEvent::Packet(track) => if track == self.chosen() {
                    PacketStep::Decode
                } else {
                    PacketStep::Skip
                },
                PacketEvent::EndOfFile => PacketStep::Finish,
                PacketEvent::Failed => PacketStep::Fail,
            }),
    {
        match event {
            PacketEvent::Packet(track) => if track == self.track {
                PacketStep::Decode
            } else {
                PacketStep::Skip
            },
            PacketEvent::EndOfFile => PacketStep::Finish,
            PacketEvent::Failed => PacketStep::Fail,
        }
    }

    /// Adds what a packet was decoded to, averaged to mono. A packet without
    /// frames adds nothing.
    pub fn decoded(&mut self, samples: &[u32])
        ensures
            final(self).chosen() == old(self).chosen(),
            final(self).collected() == old(self).collected() + samples@,
    {
        self.mono.extend_from_slice(samples);
        assert(self.mono@ =~= old(self).mono@ + samples@);
    }

    /// The recording, unless nothing was decoded.
    pub fn finish(self, path: &str) -> (result: Result<Vec<u32>, String>)
        ensures
            match result {
                Ok(samples) => self.collected().len() > 0 && samples@ == self.collected(),
                Err(message) => self.collected().len() == 0 && message@
                    == "no audio frames decoded from "@ + path@,
            },
    {
        if self.mono.len() == 0 {
            let mut message = "no audio frames decoded from ".to_owned();
            message.append(path);
            return Err(message);
        }
        Ok(self.mono)
    }
}

/// What is said of a container that cannot be read.
pub fn unsupported_container(path: &str) -> (message: String)
    ensures
        message@ == "unsupported container/encoding in "@ + path@
            + " — convert it with `afconvert -f WAVE -d LEI16@48000 <in> out.wav` first (see README)"@,
{
    let mut message = "unsupported container/encoding in ".to_owned();
    message.append(path);
    message.append(
        " — convert it with `afconvert -f WAVE -d LEI16@48000 <in> out.wav` first (see README)",
    );
    message
}

/// The full scale of integer samples is half of what their bits can tell apart.
pub proof fn law_full_scale_is_a_power_of_two(bits: nat)
    requires
        bits > 0,
    ensures
        2 * power_of_two(bits - 1) == vstd::arithmetic::power2::pow2(bits),
    decreases bits,
{
    vstd::arithmetic::power2::lemma2_to64();
    vstd::arithmetic::power2::lemma_pow2_unfold(bits);
    if bits > 1 {
        law_full_scale_is_a_power_of_two((bits - 1) as nat);
    }
}

/// Lowering keeps the length and every character but the capital letters of ASCII,
/// each of which becomes its small letter; a second time it changes nothing.
pub proof fn law_lowering_changes_only_capitals(given: Seq<char>, i: int)
    requires
        0 <= i < given.len(),
    ensures
        ascii_lowered(given).len() == given.len(),
        ascii_lowered(ascii_lowered(given)) == ascii_lowered(given),
        'A' <= given[i] <= 'Z' ==> ascii_lowered(given)[i] as int - 'a' as int == given[i] as int
            - 'A' as int,
        !('A' <= given[i] <= 'Z') ==> ascii_lowered(given)[i] == given[i],
{
    assert(ascii_lowered(ascii_lowered(given)) =~= ascii_lowered(given));
}

} // verus!
