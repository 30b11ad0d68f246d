//! Ordering samples by loudness without floating-point arithmetic.
//!
//! Single-precision numbers of one sign are ordered like their bit patterns,
//! so the magnitude of a sample is its pattern without the sign bit, and the
//! peak of a block is the largest magnitude in it.

use vstd::prelude::*;

verus! {

/// Bit pattern of 1.0, full scale.
pub const FULL_SCALE: u32 = 0x3f80_0000;

/// Bit pattern of positive infinity. Larger magnitudes are not numbers.
pub const INFINITE: u32 = 0x7f80_0000;

/// First bit pattern with the sign bit set.
pub const SIGN_BIT: u32 = 0x8000_0000;

/// The pattern of the absolute value.
pub open spec fn magnitude_of(sample: u32) -> u32 {
    if sample >= SIGN_BIT {
        (sample - SIGN_BIT) as u32
    } else {
        sample
    }
}

/// Whether the sample is neither infinite nor "not a number".
pub open spec fn finite(sample: u32) -> bool {
    magnitude_of(sample) < INFINITE
}

/// The larger of `peak` and the magnitude of `sample`; a sample that is not a
/// number leaves `peak` as it is.
pub open spec fn louder(peak: u32, sample: u32) -> u32 {
    if magnitude_of(sample) <= INFINITE && magnitude_of(sample) > peak {
        magnitude_of(sample)
    } else {
        peak
    }
}

/// The peak of a block: zero for a block without numbers.
pub open spec fn peak_of(block: Seq<u32>) -> u32
    decreases block.len(),
{
    if block.len() == 0 {
        0
    } else {
        louder(peak_of(block.drop_last()), block.last())
    }
}

/// No number in a block is louder than its peak, and the peak is zero or one
/// of them.
pub proof fn law_peak_is_the_largest_magnitude(block: Seq<u32>)
    ensures
        forall|i: int|
            0 <= i < block.len() && magnitude_of(#[trigger] block[i]) <= INFINITE
                ==> magnitude_of(block[i]) <= peak_of(block),
        peak_of(block) == 0 || exists|i: int|
            0 <= i < block.len() && magnitude_of(#[trigger] block[i]) == peak_of(block),
        peak_of(block) <= INFINITE,
    decreases block.len(),
{
    if block.len() > 0 {
        let rest = block.drop_last();
        law_peak_is_the_largest_magnitude(rest);
        assert forall|i: int|
            0 <= i < block.len() && magnitude_of(#[trigger] block[i]) <= INFINITE implies
            magnitude_of(block[i]) <= peak_of(block) by {
            if i < rest.len() {
                assert(rest[i] == block[i]);
            }
        }
        if peak_of(block) != 0 {
            if peak_of(block) == peak_of(rest) {
                let i = choose|i: int|
                    0 <= i < rest.len() && magnitude_of(#[trigger] rest[i]) == peak_of(rest);
                assert(block[i] == rest[i]);
            } else {
                assert(block[block.len() - 1] == block.last());
            }
        }
    }
}

/// The pattern of the absolute value.
pub fn magnitude(sample: u32) -> (magnitude: u32)
    ensures
        magnitude == magnitude_of(sample),
        magnitude < SIGN_BIT,
{
    if sample >= SIGN_BIT {
        sample - SIGN_BIT
    } else {
        sample
    }
}

/// Whether the sample is neither infinite nor "not a number".
pub fn is_finite(sample: u32) -> (result: bool)
    ensures
        result == finite(sample),
{
    magnitude(sample) < INFINITE
}

/// The peak of a block, as a bit pattern.
pub fn block_peak(block: &[u32]) -> (peak: u32)
    ensures
        peak == peak_of(block@),
        peak <= INFINITE,
{
    let mut peak: u32 = 0;
    let mut i: usize = 0;
    assert(block@.take(0).len() == 0);
    while i < block.len()
        invariant
            i <= block@.len(),
            peak == peak_of(block@.take(i as int)),
            peak <= INFINITE,
        decreases block@.len() - i,
    {
        let loudness: u32 = magnitude(block[i]);
        if loudness <= INFINITE && loudness > peak {
            peak = loudness;
        }
        assert(block@.take(i + 1).drop_last() =~= block@.take(i as int));
        i = i + 1;
    }
    assert(block@.take(i as int) =~= block@);
    peak
}

/// The sign does not count, and a sample is finite exactly where its exponent is not
/// the highest one, as the format has it.
pub proof fn law_sign_does_not_count(sample: u32)
    requires
        sample < SIGN_BIT,
    ensures
        magnitude_of(sample) == sample,
        magnitude_of((sample + SIGN_BIT) as u32) == sample,
        finite(sample) == finite((sample + SIGN_BIT) as u32),
        finite(sample) <==> sample as int / 0x80_0000 != 255,
{
}

} // verus!
