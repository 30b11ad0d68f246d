//! Durations as single-precision numbers.
//!
//! Delays and block lengths are shown in milliseconds. The library computes them
//! on integers, rounding after each operation the way IEEE 754 does: to the
//! nearest number, and to the even one of two that are equally near.

use vstd::arithmetic::power2::pow2;
use vstd::prelude::*;

verus! {

/// `number / divisor`, rounded to nearest, halves to even.
pub open spec fn nearest_even(number: int, divisor: int) -> int {
    let whole = number / divisor;
    let rest = number % divisor;
    if 2 * rest > divisor || (2 * rest == divisor && whole % 2 == 1) {
        whole + 1
    } else {
        whole
    }
}

/// `number / divisor`, rounded to nearest, halves to even.
pub fn round_nearest_even(number: u128, divisor: u128) -> (rounded: u128)
    requires
        0 < divisor <= 0x4000_0000_0000_0000_0000_0000_0000_0000,
    ensures
        rounded == nearest_even(number as int, divisor as int),
        rounded <= number + 1,
{
    let whole: u128 = number / divisor;
    let rest: u128 = number % divisor;
    proof {
        assert(whole <= number) by (nonlinear_arith)
            requires
                whole == number / divisor,
                divisor > 0,
                number >= 0,
        ;
        assert(rest > 0 ==> whole < number) by (nonlinear_arith)
            requires
                whole == number / divisor,
                rest == number % divisor,
                divisor > 0,
                number >= 0,
        ;
    }
    if 2 * rest > divisor || (2 * rest == divisor && whole % 2 == 1) {
        whole + 1
    } else {
        whole
    }
}

/// A positive single-precision number: `significand * 2^exponent`, where the
/// significand has 24 bits.
#[derive(Debug, Clone, Copy, PartialEq, Eq, Structural)]
pub struct Single {
    /// The significand, from `2^23` on and below `2^24`.
    pub significand: u32,
    /// The power of two.
    pub exponent: i32,
}

/// The smallest significand, `2^23`.
pub const LOWEST: u32 = 0x80_0000;

/// The first number past the significands, `2^24`.
pub const LIMIT: u32 = 0x100_0000;

impl Single {
    /// Whether the significand has 24 bits and the exponent can be encoded.
    pub open spec fn wf(self) -> bool {
        &&& LOWEST <= self.significand < LIMIT
        &&& -149 <= self.exponent <= 104
    }
}

/// The significand and exponent nearest to `n / d * 2^e`, where the quotient is
/// below `2^24`.
pub open spec fn nearest_below(n: int, d: int, e: int) -> (int, int)
    decreases 2 * (d * LOWEST) - n,
{
    if n <= 0 || d <= 0 || n >= d * LOWEST {
        let rounded = nearest_even(n, d);
        if rounded == LIMIT {
            (LOWEST as int, e + 1)
        } else {
            (rounded, e)
        }
    } else {
        nearest_below(2 * n, d, e - 1)
    }
}

/// The significand and exponent nearest to `n / d * 2^e`.
pub open spec fn nearest(n: int, d: int, e: int) -> (int, int)
    decreases n / d,
    when n > 0 && d > 0
    via nearest_decreases
{
    if n >= d * LIMIT {
        nearest(n, 2 * d, e + 1)
    } else {
        nearest_below(n, d, e)
    }
}

#[via_fn]
proof fn nearest_decreases(n: int, d: int, e: int) {
    if n >= d * LIMIT {
        assert(0 <= n / (2 * d) < n / d) by (nonlinear_arith)
            requires
                n >= d * 0x100_0000,
                d > 0,
        ;
    }
}

/// How far rounding can move the exponent, and that the significand has 24 bits.
proof fn lemma_below_bounds(n: int, d: int, e: int, low: nat)
    requires
        0 < n < d * LIMIT,
        d > 0,
        n * pow2(low) >= d * LOWEST,
    ensures
        LOWEST <= nearest_below(n, d, e).0 < LIMIT,
        e - low <= nearest_below(n, d, e).1 <= e + 1,
    decreases low,
{
    if n >= d * LOWEST {
        let whole = n / d;
        assert(LOWEST <= whole < LIMIT) by (nonlinear_arith)
            requires
                whole == n / d,
                d * 0x80_0000 <= n < d * 0x100_0000,
                d > 0,
                LOWEST == 0x80_0000,
                LIMIT == 0x100_0000,
        ;
    } else {
        vstd::arithmetic::power2::lemma2_to64();
        if low == 0 {
            assert(n * pow2(0) == n) by (nonlinear_arith)
                requires
                    pow2(0) == 1,
            ;
        } else {
            vstd::arithmetic::power2::lemma_pow2_unfold(low);
            assert(2 * n * pow2((low - 1) as nat) == n * pow2(low)) by (nonlinear_arith)
                requires
                    pow2(low) == 2 * pow2((low - 1) as nat),
            ;
            lemma_below_bounds(2 * n, d, e - 1, (low - 1) as nat);
        }
    }
}

/// How far rounding can move the exponent, and that the significand has 24 bits.
proof fn lemma_nearest_bounds(n: int, d: int, e: int, low: nat, high: nat)
    requires
        n > 0,
        d > 0,
        n < d * LIMIT * pow2(high),
        n * pow2(low) >= d * LOWEST,
    ensures
        LOWEST <= nearest(n, d, e).0 < LIMIT,
        e - low <= nearest(n, d, e).1 <= e + high + 1,
    decreases high,
{
    vstd::arithmetic::power2::lemma2_to64();
    if n >= d * LIMIT {
        if high == 0 {
            assert(d * LIMIT * pow2(0) == d * LIMIT) by (nonlinear_arith)
                requires
                    pow2(0) == 1,
            ;
        } else {
            vstd::arithmetic::power2::lemma_pow2_unfold(high);
            assert(2 * d * LIMIT * pow2((high - 1) as nat) == d * LIMIT * pow2(high))
                by (nonlinear_arith)
                requires
                    pow2(high) == 2 * pow2((high - 1) as nat),
            ;
            vstd::arithmetic::power2::lemma_pow2_pos(low);
            assert(n * pow2(low) >= 2 * d * LOWEST) by (nonlinear_arith)
                requires
                    n >= d * 0x100_0000,
                    pow2(low) >= 1,
                    LOWEST == 0x80_0000,
                    d > 0,
            ;
            lemma_nearest_bounds(n, 2 * d, e + 1, low, (high - 1) as nat);
        }
    } else {
        lemma_below_bounds(n, d, e, low);
    }
}

/// The single-precision number nearest to `n / d * 2^e`. The bounds say how far
/// the quotient may lie from 24 bits.
fn round_single(n: u64, d: u64, e: i32, low: Ghost<nat>, high: Ghost<nat>) -> (single: Single)
    requires
        n > 0,
        d > 0,
        n < d * LIMIT * pow2(high@),
        n * pow2(low@) >= d * LOWEST,
        -149 <= e - low@,
        e + high@ + 1 <= 104,
    ensures
        single.wf(),
        (single.significand as int, single.exponent as int) == nearest(
            n as int,
            d as int,
            e as int,
        ),
        e - low@ <= single.exponent <= e + high@ + 1,
{
    proof {
        lemma_nearest_bounds(n as int, d as int, e as int, low@, high@);
    }
    let ghost wanted = nearest(n as int, d as int, e as int);
    let mut number: u128 = n as u128;
    let mut divisor: u128 = d as u128;
    let mut exponent: i32 = e;
    let ghost mut left = high@;
    while number >= divisor * 0x100_0000
        invariant
            0 < number == n,
            0 < divisor <= 0x1_0000_0000_0000_0000,
            number < divisor * LIMIT * pow2(left),
            nearest(number as int, divisor as int, exponent as int) == wanted,
            exponent + left == e + high@,
            e + high@ + 1 <= 104,
            -1000 <= exponent,
        decreases left,
    {
        proof {
            vstd::arithmetic::power2::lemma2_to64();
            if left == 0 {
                assert(divisor * LIMIT * pow2(0) == divisor * LIMIT) by (nonlinear_arith)
                    requires
                        pow2(0) == 1,
                ;
            } else {
                vstd::arithmetic::power2::lemma_pow2_unfold(left);
                assert(2 * divisor * LIMIT * pow2((left - 1) as nat) == divisor * LIMIT * pow2(
                    left,
                )) by (nonlinear_arith)
                    requires
                        pow2(left) == 2 * pow2((left - 1) as nat),
                ;
            }
            left = (left - 1) as nat;
        }
        divisor = 2 * divisor;
        exponent = exponent + 1;
    }
    proof {
        lemma_below_exponent(number as int, divisor as int, exponent as int);
    }
    while number < divisor * 0x80_0000
        invariant
            0 < number < divisor * LIMIT,
            0 < divisor <= 0x1_0000_0000_0000_0000,
            nearest_below(number as int, divisor as int, exponent as int) == wanted,
            wanted.1 <= exponent + 1 <= 106,
            -150 <= wanted.1,
        decreases 2 * (divisor * 0x80_0000) - number,
    {
        proof {
            lemma_below_exponent(2 * number as int, divisor as int, exponent - 1);
        }
        number = 2 * number;
        exponent = exponent - 1;
    }
    let rounded: u128 = round_nearest_even(number, divisor);
    if rounded == 0x100_0000 {
        Single { significand: LOWEST, exponent: exponent + 1 }
    } else {
        Single { significand: rounded as u32, exponent }
    }
}

/// Rounding raises the exponent by one at most.
proof fn lemma_below_exponent(n: int, d: int, e: int)
    ensures
        nearest_below(n, d, e).1 <= e + 1,
    decreases 2 * (d * LOWEST) - n,
{
    if !(n <= 0 || d <= 0 || n >= d * LOWEST) {
        lemma_below_exponent(2 * n, d, e - 1);
    }
}

/// The bit pattern of zero.
pub const ZERO_MS: u32 = 0;

/// The bit pattern of infinity.
pub const INFINITE_MS: u32 = 0x7f80_0000;

/// The bit pattern of a number that is none.
pub const UNDEFINED_MS: u32 = 0x7fc0_0000;

/// A count as a single-precision number.
pub open spec fn count_single(count: int) -> (int, int) {
    nearest(count, 1, 0)
}

/// The length of `samples` at `rate` in milliseconds, as the bit pattern of a
/// single-precision number: both counts are rounded, their quotient is rounded,
/// and a thousand times that is rounded again. Without a rate the quotient is
/// infinite, or undefined for no samples.
pub open spec fn milliseconds(samples: int, rate: int) -> int {
    if rate == 0 {
        if samples == 0 {
            UNDEFINED_MS as int
        } else {
            INFINITE_MS as int
        }
    } else if samples == 0 {
        ZERO_MS as int
    } else {
        let length = count_single(samples);
        let second = count_single(rate);
        let quotient = nearest(length.0, second.0, length.1 - second.1);
        let product = nearest(quotient.0 * 1000, 1, quotient.1);
        (product.1 + 150) * LOWEST + (product.0 - LOWEST)
    }
}

/// A count as a single-precision number.
fn single_of(count: u64) -> (single: Single)
    requires
        count > 0,
    ensures
        single.wf(),
        (single.significand as int, single.exponent as int) == count_single(count as int),
        -23 <= single.exponent <= 41,
{
    proof {
        vstd::arithmetic::power2::lemma2_to64();
        assert(count * pow2(23) >= LOWEST) by (nonlinear_arith)
            requires
                count >= 1,
                pow2(23) == 0x80_0000,
                LOWEST == 0x80_0000,
        ;
        vstd::arithmetic::power2::lemma_pow2_adds(8, 32);
        assert(LIMIT * pow2(40) == 0x1_0000_0000_0000_0000) by (nonlinear_arith)
            requires
                pow2(40) == 0x100_0000_0000,
                LIMIT == 0x100_0000,
        ;
    }
    round_single(count, 1, 0, Ghost(23), Ghost(40))
}

/// The length of `samples` at `rate` in milliseconds, as a bit pattern.
pub fn to_milliseconds(samples: usize, rate: u32) -> (bits: u32)
    ensures
        bits == milliseconds(samples as int, rate as int),
{
    if rate == 0 {
        return if samples == 0 {
            UNDEFINED_MS
        } else {
            INFINITE_MS
        };
    }
    if samples == 0 {
        return ZERO_MS;
    }
    let length: Single = single_of(samples as u64);
    let second: Single = single_of(rate as u64);
    let n: u64 = length.significand as u64;
    let d: u64 = second.significand as u64;
    proof {
        vstd::arithmetic::power2::lemma2_to64();
        assert(n < d * LIMIT * pow2(0)) by (nonlinear_arith)
            requires
                n < 0x100_0000,
                d >= 0x80_0000,
                pow2(0) == 1,
                LIMIT == 0x100_0000,
        ;
        assert(n * pow2(24) >= d * LOWEST) by (nonlinear_arith)
            requires
                n >= 0x80_0000,
                d < 0x100_0000,
                pow2(24) == 0x100_0000,
                LOWEST == 0x80_0000,
        ;
    }
    let quotient: Single = round_single(
        n,
        d,
        length.exponent - second.exponent,
        Ghost(24),
        Ghost(0),
    );
    let thousand: u64 = quotient.significand as u64 * 1000;
    proof {
        assert(thousand < LIMIT * pow2(10)) by (nonlinear_arith)
            requires
                thousand < 0x100_0000 * 1000,
                pow2(10) == 1024,
                LIMIT == 0x100_0000,
        ;
        assert(thousand * pow2(0) == thousand) by (nonlinear_arith)
            requires
                pow2(0) == 1,
        ;
    }
    let product: Single = round_single(thousand, 1, quotient.exponent, Ghost(0), Ghost(10));
    ((product.exponent + 150) as u32) * LOWEST + (product.significand - LOWEST)
}

/// Rounding is to nearest: what a quotient with 24 bits before the point is
/// rounded to misses it by at most half a unit of the last place.
pub proof fn law_rounding_is_nearest(n: int, d: int, e: int)
    requires
        d > 0,
        d * LOWEST <= n < d * LIMIT,
    ensures
        nearest(n, d, e) == (if nearest_even(n, d) == LIMIT {
            (LOWEST as int, e + 1)
        } else {
            (nearest_even(n, d), e)
        }),
        2 * (nearest_even(n, d) * d - n) <= d,
        2 * (n - nearest_even(n, d) * d) <= d,
{
    let whole = n / d;
    vstd::arithmetic::div_mod::lemma_fundamental_div_mod(n, d);
    vstd::arithmetic::div_mod::lemma_mod_bound(n, d);
    assert((whole + 1) * d == whole * d + d) by (nonlinear_arith);
    assert(d * whole == whole * d) by (nonlinear_arith);
    assert(n > 0) by (nonlinear_arith)
        requires
            n >= d * 0x80_0000,
            d > 0,
    ;
}

/// Halves are rounded to the even neighbour.
pub proof fn law_halves_go_to_even(whole: int, d: int)
    requires
        d > 0,
        whole >= 0,
    ensures
        nearest_even(whole * (2 * d) + d, 2 * d) % 2 == 0,
        nearest_even(whole * d, d) == whole,
{
    let n = whole * (2 * d) + d;
    vstd::arithmetic::div_mod::lemma_fundamental_div_mod_converse(n, 2 * d, whole, d);
    assert(whole * d + 0 == whole * d);
    vstd::arithmetic::div_mod::lemma_fundamental_div_mod_converse(whole * d, d, whole, 0);
}

/// A factor of two on both sides of a quotient changes no rounding.
proof fn lemma_even_scale(n: int, d: int)
    requires
        n > 0,
        d > 0,
    ensures
        nearest_even(2 * n, 2 * d) == nearest_even(n, d),
{
    vstd::arithmetic::div_mod::lemma_fundamental_div_mod(n, d);
    vstd::arithmetic::div_mod::lemma_mod_bound(n, d);
    let whole = n / d;
    let rest = n % d;
    assert(2 * n == whole * (2 * d) + 2 * rest) by (nonlinear_arith)
        requires
            n == d * whole + rest,
    ;
    vstd::arithmetic::div_mod::lemma_fundamental_div_mod_converse(2 * n, 2 * d, whole, 2 * rest);
}

proof fn lemma_below_scales(n: int, d: int, e: int)
    requires
        n > 0,
        d > 0,
    ensures
        nearest_below(2 * n, 2 * d, e) == nearest_below(n, d, e),
    decreases 2 * (d * LOWEST) - n,
{
    assert((2 * d) * LOWEST == 2 * (d * LOWEST));
    if n >= d * LOWEST {
        lemma_even_scale(n, d);
    } else {
        lemma_below_scales(2 * n, d, e - 1);
    }
}

proof fn lemma_nearest_scales(n: int, d: int, e: int)
    requires
        n > 0,
        d > 0,
    ensures
        nearest(2 * n, 2 * d, e) == nearest(n, d, e),
    decreases n / d,
{
    assert((2 * d) * LIMIT == 2 * (d * LIMIT));
    if n >= d * LIMIT {
        lemma_halved_quotient(n, d);
        lemma_nearest_scales(n, 2 * d, e + 1);
    } else {
        lemma_below_scales(n, d, e);
    }
}

proof fn lemma_halved_quotient(n: int, d: int)
    requires
        d > 0,
        n >= d * LIMIT,
    ensures
        0 <= n / (2 * d) < n / d,
{
    assert(n >= d * 0x100_0000);
    assert(n / (2 * d) < n / d && n / (2 * d) >= 0) by (nonlinear_arith)
        requires
            n >= d * 0x100_0000,
            d > 0,
    ;
}

proof fn lemma_below_shifts(n: int, d: int, e: int, by: int)
    ensures
        nearest_below(n, d, e + by) == (nearest_below(n, d, e).0, nearest_below(n, d, e).1 + by),
    decreases 2 * (d * LOWEST) - n,
{
    if !(n <= 0 || d <= 0 || n >= d * LOWEST) {
        lemma_below_shifts(2 * n, d, e - 1, by);
    }
}

/// The exponent goes along.
proof fn lemma_nearest_shifts(n: int, d: int, e: int, by: int)
    requires
        n > 0,
        d > 0,
    ensures
        nearest(n, d, e + by) == (nearest(n, d, e).0, nearest(n, d, e).1 + by),
    decreases n / d,
{
    if n >= d * LIMIT {
        lemma_halved_quotient(n, d);
        lemma_nearest_shifts(n, 2 * d, e + 1, by);
    } else {
        lemma_below_shifts(n, d, e, by);
    }
}

/// Twice the number has the same significand and the next exponent.
proof fn lemma_nearest_doubles(n: int, d: int, e: int)
    requires
        n > 0,
        d > 0,
    ensures
        nearest(2 * n, d, e) == (nearest(n, d, e).0, nearest(n, d, e).1 + 1),
{
    lemma_nearest_shifts(n, d, e, 1);
    assert(d * LIMIT == 2 * (d * LOWEST));
    if n >= d * LOWEST {
        lemma_nearest_scales(n, d, e + 1);
        assert(nearest(2 * n, d, e) == nearest(2 * n, 2 * d, e + 1));
    }
}

/// A length in milliseconds goes up with the samples and down with the rate: twice
/// the samples last exactly twice as long, at twice the rate they last exactly half
/// as long, and as many samples as the rate last exactly a thousand milliseconds.
/// Twice a single-precision number has the next exponent.
pub proof fn law_milliseconds_follow_the_length(samples: int, rate: int)
    requires
        samples > 0,
        rate > 0,
    ensures
        milliseconds(2 * samples, rate) == milliseconds(samples, rate) + LOWEST,
        milliseconds(samples, 2 * rate) == milliseconds(samples, rate) - LOWEST,
        milliseconds(samples, samples) == 0x447a_0000,
        milliseconds(0, rate) == ZERO_MS,
{
    let length = count_single(samples);
    let second = count_single(rate);
    lemma_count_is_positive(samples);
    lemma_count_is_positive(rate);
    lemma_nearest_doubles(samples, 1, 0);
    lemma_nearest_doubles(rate, 1, 0);
    let e = length.1 - second.1;
    lemma_nearest_shifts(length.0, second.0, e, 1);
    lemma_nearest_shifts(length.0, second.0, e, -1);
    let quotient = nearest(length.0, second.0, e);
    lemma_significand_is_positive(length.0, second.0, e);
    lemma_nearest_shifts(quotient.0 * 1000, 1, quotient.1, 1);
    lemma_nearest_shifts(quotient.0 * 1000, 1, quotient.1, -1);
    let unit = nearest(length.0, length.0, 0);
    lemma_unit(length.0);
    assert(length.1 - length.1 == 0);
    assert(nearest(8388608int * 1000, 1, -23) == (16384000int, -14int)) by {
        reveal_with_fuel(nearest, 12);
        reveal_with_fuel(nearest_below, 2);
    }
}

proof fn lemma_significand_is_positive(n: int, d: int, e: int)
    requires
        n > 0,
        d > 0,
    ensures
        nearest(n, d, e).0 >= LOWEST,
    decreases n / d,
{
    if n >= d * LIMIT {
        lemma_halved_quotient(n, d);
        lemma_significand_is_positive(n, 2 * d, e + 1);
    } else {
        lemma_below_is_positive(n, d, e);
    }
}

proof fn lemma_below_is_positive(n: int, d: int, e: int)
    requires
        n > 0,
        d > 0,
    ensures
        nearest_below(n, d, e).0 >= LOWEST,
    decreases 2 * (d * LOWEST) - n,
{
    if n >= d * LOWEST {
        let whole = n / d;
        assert(whole >= 0x80_0000) by (nonlinear_arith)
            requires
                whole == n / d,
                n >= d * 0x80_0000,
                d > 0,
        ;
    } else {
        lemma_below_is_positive(2 * n, d, e - 1);
    }
}

proof fn lemma_count_is_positive(count: int)
    requires
        count > 0,
    ensures
        count_single(count).0 >= LOWEST,
{
    lemma_significand_is_positive(count, 1, 0);
}

/// A number over itself is one.
proof fn lemma_unit(n: int)
    requires
        n > 0,
    ensures
        nearest(n, n, 0) == (LOWEST as int, -23int),
{
    lemma_unit_below(n, 0);
    assert(n < n * LIMIT) by (nonlinear_arith)
        requires
            n > 0,
            LIMIT == 0x100_0000,
    ;
}

proof fn lemma_unit_below(n: int, done: nat)
    requires
        n > 0,
        done <= 23,
    ensures
        nearest_below(n * vstd::arithmetic::power2::pow2(done), n, -(done as int)) == (
            LOWEST as int,
            -23int,
        ),
        done == 0 ==> nearest_below(n, n, 0) == (LOWEST as int, -23int),
    decreases 23 - done,
{
    vstd::arithmetic::power2::lemma2_to64();
    let p = vstd::arithmetic::power2::pow2(done) as int;
    let m = n * p;
    vstd::arithmetic::power2::lemma_pow2_pos(done);
    assert(m > 0) by (nonlinear_arith)
        requires
            m == n * p,
            n > 0,
            p > 0,
    ;
    if done == 23 {
        assert(m == n * LOWEST);
        assert(n * LOWEST == LOWEST * n + 0);
        vstd::arithmetic::div_mod::lemma_fundamental_div_mod_converse(m, n, LOWEST as int, 0);
    } else {
        vstd::arithmetic::power2::lemma_pow2_unfold(done + 1);
        vstd::arithmetic::power2::lemma_pow2_strictly_increases(done, 23);
        assert(p < LOWEST);
        assert(m < n * LOWEST) by (nonlinear_arith)
            requires
                m == n * p,
                p < LOWEST,
                n > 0,
        ;
        assert(2 * m == n * vstd::arithmetic::power2::pow2(done + 1)) by (nonlinear_arith)
            requires
                m == n * p,
                vstd::arithmetic::power2::pow2(done + 1) == 2 * p,
        ;
        lemma_unit_below(n, done + 1);
    }
    if done == 0 {
        assert(m == n) by (nonlinear_arith)
            requires
                m == n * p,
                p == 1,
        ;
    }
}

} // verus!
