//! Streaming polyphase FIR resampling: which samples meet which taps.
//!
//! Two families share one prototype design: [`Decimator`] / [`Interpolator`]
//! for the integer factors of the model path, and [`PolyphaseResampler`] for
//! the arbitrary ratios of the capture path. The multiply-accumulate over a
//! window of taps runs outside; the windows, phases, delays and the history
//! that is kept between blocks are decided here.

use vstd::prelude::*;

use crate::signal::ring;

verus! {

/// Taps of the prototype filter for an integer factor.
pub fn taps_for_factor(factor: usize) -> (taps: usize)
    requires
        40 * factor + 1 <= usize::MAX,
    ensures
        taps == 40 * factor + 1,
{
    40 * factor + 1
}

/// `a / b`, rounded up.
pub open spec fn ceiling(a: int, b: int) -> int {
    (a + b - 1) / b
}

/// The samples under a filter of `taps` taps whose newest sample is at `end`,
/// newest first: tap `k` meets `work[end - k]`.
pub open spec fn window(work: Seq<u32>, end: int, taps: nat) -> Seq<u32> {
    Seq::new(taps, |k: int| work[end - k])
}

/// The last samples of a stream that the next window still needs.
#[derive(Debug)]
struct History {
    samples: Vec<u32>,
}

impl History {
    /// A silent history.
    fn new(len: usize) -> (history: Self)
        ensures
            history.samples@ == ring::silence(len as nat),
    {
        let samples: Vec<u32> = vec![0; len];
        assert(samples@ =~= ring::silence(len as nat));
        History { samples }
    }

    /// The history followed by `input`; the end of that becomes the history.
    fn join(&mut self, input: &[u32]) -> (work: Vec<u32>)
        ensures
            work@ == old(self).samples@ + input@,
            final(self).samples@ == work@.skip(input@.len() as int),
            final(self).samples@.len() == old(self).samples@.len(),
    {
        let mut work: Vec<u32> = Vec::new();
        work.append(&mut self.samples);
        work.extend_from_slice(input);
        assert(work@ =~= old(self).samples@ + input@);
        let mut i: usize = input.len();
        while i < work.len()
            invariant
                input@.len() <= i <= work@.len(),
                self.samples@ == work@.subrange(input@.len() as int, i as int),
            decreases work@.len() - i,
        {
            self.samples.push(work[i]);
            i = i + 1;
            assert(self.samples@ =~= work@.subrange(input@.len() as int, i as int));
        }
        assert(self.samples@ =~= work@.skip(input@.len() as int));
        work
    }
}

/// Reduces the rate by an integer factor.
#[derive(Debug)]
pub struct Decimator {
    factor: usize,
    taps: usize,
    hist: History,
}

/// The windows of a decimated block: one for every `factor` samples, the first
/// ending at the block's first sample.
pub open spec fn decimated(
    history: Seq<u32>,
    input: Seq<u32>,
    factor: nat,
    taps: nat,
) -> Seq<Seq<u32>> {
    Seq::new(
        input.len() / factor,
        |i: int| window(history + input, history.len() + i * factor, taps),
    )
}

impl Decimator {
    /// Whether the history is one short of the filter.
    pub closed spec fn wf(&self) -> bool {
        &&& self.factor >= 2
        &&& self.taps == 40 * self.factor + 1
        &&& self.hist.samples@.len() == self.taps - 1
    }

    /// The rate factor.
    pub closed spec fn by(&self) -> nat {
        self.factor as nat
    }

    /// The number of taps.
    pub closed spec fn tap_count(&self) -> nat {
        self.taps as nat
    }

    /// The samples kept from earlier blocks.
    pub closed spec fn history(&self) -> Seq<u32> {
        self.hist.samples@
    }

    /// Creates a decimator with a silent history.
    pub fn new(factor: usize) -> (decimator: Self)
        requires
            factor >= 2,
            40 * factor + 1 <= usize::MAX,
        ensures
            decimator.wf(),
            decimator.by() == factor,
            decimator.tap_count() == 40 * factor + 1,
            decimator.history() == ring::silence((40 * factor) as nat),
    {
        let taps: usize = taps_for_factor(factor);
        Decimator { factor, taps, hist: History::new(taps - 1) }
    }

    /// Group delay in input samples.
    pub fn delay_input_samples(&self) -> (delay: usize)
        requires
            self.wf(),
        ensures
            delay == 20 * self.by(),
            2 * delay == self.tap_count() - 1,
    {
        (self.taps - 1) / 2
    }

    /// Feeds a block and returns the samples its windows lie in: the history,
    /// then the block.
    pub fn process(&mut self, input: &[u32]) -> (work: Vec<u32>)
        requires
            old(self).wf(),
            input@.len() % old(self).by() == 0,
        ensures
            final(self).wf(),
            final(self).by() == old(self).by(),
            final(self).tap_count() == old(self).tap_count(),
            work@ == old(self).history() + input@,
            final(self).history() == work@.skip(input@.len() as int),
    {
        self.hist.join(input)
    }

    /// Where the newest sample of output `index` lies in the samples that
    /// [`Decimator::process`] returned for a block of `input_len` samples.
    pub fn newest(&self, index: usize, input_len: usize) -> (at: usize)
        requires
            self.wf(),
            index < input_len / self.by() as usize,
            self.history().len() + input_len <= usize::MAX,
        ensures
            at == self.history().len() + index * self.by(),
            self.tap_count() - 1 <= at < self.history().len() + input_len,
    {
        let factor: usize = self.factor;
        assert(index * factor < input_len) by (nonlinear_arith)
            requires
                index < input_len / factor,
                factor >= 2,
        ;
        self.taps - 1 + index * factor
    }

    /// Silences the history.
    pub fn reset(&mut self)
        requires
            old(self).wf(),
        ensures
            final(self).wf(),
            final(self).by() == old(self).by(),
            final(self).tap_count() == old(self).tap_count(),
            final(self).history() == ring::silence((old(self).tap_count() - 1) as nat),
    {
        self.hist = History::new(self.taps - 1);
    }
}

/// Decimating a stream in two blocks gives the windows of decimating it in
/// one.
pub proof fn law_decimation_ignores_block_sizes(
    history: Seq<u32>,
    first: Seq<u32>,
    second: Seq<u32>,
    factor: nat,
    taps: nat,
)
    requires
        factor > 0,
        first.len() % factor == 0,
        taps <= history.len() + 1,
    ensures
        decimated(history, first + second, factor, taps) == decimated(history, first, factor, taps)
            + decimated((history + first).skip(first.len() as int), second, factor, taps),
{
    let whole = decimated(history, first + second, factor, taps);
    let left = decimated(history, first, factor, taps);
    let kept = (history + first).skip(first.len() as int);
    let right = decimated(kept, second, factor, taps);
    let blocks = (first.len() / factor) as int;
    let f = factor as int;
    vstd::arithmetic::div_mod::lemma_fundamental_div_mod(first.len() as int, f);
    assert(first.len() == blocks * f) by (nonlinear_arith)
        requires
            first.len() == f * blocks + first.len() % factor,
            first.len() % factor == 0,
    ;
    assert((first.len() + second.len()) / factor == blocks + second.len() / factor) by {
        vstd::arithmetic::div_mod::lemma_hoist_over_denominator(second.len() as int, blocks, factor);
        assert(second.len() + blocks * f == first.len() + second.len());
    }
    assert forall|i: int| 0 <= i < whole.len() implies whole[i] == (left + right)[i] by {
        if i < blocks {
            assert(0 <= i * f < first.len()) by (nonlinear_arith)
                requires
                    0 <= i < blocks,
                    f > 0,
                    first.len() == blocks * f,
            ;
            assert(whole[i] =~= left[i]);
        } else {
            let j = i - blocks;
            assert(i * f == blocks * f + j * f) by (nonlinear_arith)
                requires
                    i == blocks + j,
            ;
            assert(0 <= j * f) by (nonlinear_arith)
                requires
                    0 <= j,
                    f > 0,
            ;
            assert(j * f < second.len()) by (nonlinear_arith)
                requires
                    0 <= j < second.len() / factor,
                    f == factor,
                    f > 0,
            ;
            assert(whole[i] =~= right[j]) by {
                assert forall|k: int| 0 <= k < taps implies whole[i][k] == right[j][k] by {
                    assert((history + (first + second))[history.len() + i * f - k] == (kept
                        + second)[kept.len() + j * f - k]);
                }
            }
        }
    }
    assert(whole =~= left + right);
}

/// Raises the rate by an integer factor.
#[derive(Debug)]
pub struct Interpolator {
    factor: usize,
    phase_len: usize,
    hist: History,
}

impl Interpolator {
    /// Whether the history is one short of a phase.
    pub closed spec fn wf(&self) -> bool {
        &&& self.factor >= 2
        &&& 40 * self.factor + 1 <= usize::MAX
        &&& self.phase_len == 41
        &&& self.hist.samples@.len() == self.phase_len - 1
    }

    /// The rate factor.
    pub closed spec fn by(&self) -> nat {
        self.factor as nat
    }

    /// The samples kept from earlier blocks.
    pub closed spec fn history(&self) -> Seq<u32> {
        self.hist.samples@
    }

    /// Creates an interpolator with a silent history. Its filter's taps are
    /// dealt out to `factor` phases; the longest of them has 41.
    pub fn new(factor: usize) -> (interpolator: Self)
        requires
            factor >= 2,
            40 * factor + 1 <= usize::MAX,
        ensures
            interpolator.wf(),
            interpolator.by() == factor,
            interpolator.history() == ring::silence(40),
            ceiling(40 * factor + 1, factor as int) == 41,
    {
        proof {
            let f = factor as int;
            assert(40 * f + 1 + f - 1 == 41 * f + 0);
            vstd::arithmetic::div_mod::lemma_div_multiples_vanish(41, f);
            assert(41 * f == f * 41) by (nonlinear_arith);
        }
        Interpolator { factor, phase_len: 41, hist: History::new(40) }
    }

    /// Group delay in output samples.
    pub fn delay_output_samples(&self) -> (delay: usize)
        requires
            self.wf(),
        ensures
            delay == 20 * self.by(),
    {
        (taps_for_factor(self.factor) - 1) / 2
    }

    /// The phase and the position within it of one of the filter's taps.
    pub fn phase_of(&self, tap: usize) -> (place: (usize, usize))
        requires
            self.wf(),
        ensures
            place.0 < self.by(),
            tap == place.1 * self.by() + place.0,
    {
        let factor: usize = self.factor;
        proof {
            vstd::arithmetic::div_mod::lemma_fundamental_div_mod(tap as int, factor as int);
            assert(factor * (tap / factor) == (tap / factor) * factor) by (nonlinear_arith);
        }
        (tap % factor, tap / factor)
    }

    /// Feeds a block and returns the samples its windows lie in: the history,
    /// then the block. Each input sample yields one output per phase; the
    /// newest sample under them is that input sample.
    pub fn process(&mut self, input: &[u32]) -> (work: Vec<u32>)
        requires
            old(self).wf(),
        ensures
            final(self).wf(),
            final(self).by() == old(self).by(),
            work@ == old(self).history() + input@,
            final(self).history() == work@.skip(input@.len() as int),
    {
        self.hist.join(input)
    }

    /// Silences the history.
    pub fn reset(&mut self)
        requires
            old(self).wf(),
        ensures
            final(self).wf(),
            final(self).by() == old(self).by(),
            final(self).history() == ring::silence(40),
    {
        self.hist = History::new(40);
    }
}

/// Every tap has one place and every place one tap: two taps never share a
/// phase and a position.
pub proof fn law_phases_partition_the_taps(left: (int, int), right: (int, int), factor: int)
    requires
        factor > 0,
        0 <= left.0 < factor,
        0 <= right.0 < factor,
        left.1 * factor + left.0 == right.1 * factor + right.0,
    ensures
        left == right,
{
    assert((left.1 - right.1) * factor == right.0 - left.0) by (nonlinear_arith)
        requires
            left.1 * factor + left.0 == right.1 * factor + right.0,
    ;
    assert(left.1 == right.1) by (nonlinear_arith)
        requires
            (left.1 - right.1) * factor == right.0 - left.0,
            -factor < right.0 - left.0 < factor,
            factor > 0,
    ;
}

/// Fewest filter phases of a [`PolyphaseResampler`].
pub const MIN_PHASES: u64 = 128;

/// Half of the filter's span, in periods of the lower rate.
pub const HALF_SPAN_LOW_RATE: u64 = 20;

/// The greatest common divisor, by Euclid's rule.
pub open spec fn common_divisor(a: nat, b: nat) -> nat
    decreases b,
{
    if b == 0 {
        a
    } else {
        common_divisor(b, a % b)
    }
}

/// Whether `d` divides `n`.
pub open spec fn divides(d: int, n: int) -> bool {
    exists|k: int| n == #[trigger] (d * k)
}

proof fn lemma_divides_sum(d: int, a: int, b: int, q: int)
    requires
        divides(d, a),
        divides(d, b),
    ensures
        divides(d, q * a + b),
        divides(d, b - q * a),
{
    let i = choose|k: int| a == #[trigger] (d * k);
    let j = choose|k: int| b == #[trigger] (d * k);
    assert(q * a + b == d * (q * i + j)) by (nonlinear_arith)
        requires
            a == d * i,
            b == d * j,
    ;
    assert(b - q * a == d * (j - q * i)) by (nonlinear_arith)
        requires
            a == d * i,
            b == d * j,
    ;
}

/// Euclid's rule finds the greatest common divisor: the result divides both
/// numbers, and every common divisor divides the result.
pub proof fn law_common_divisor_is_greatest(a: nat, b: nat)
    ensures
        divides(common_divisor(a, b) as int, a as int),
        divides(common_divisor(a, b) as int, b as int),
        forall|d: int|
            #[trigger] divides(d, a as int) && divides(d, b as int) ==> divides(
                d,
                common_divisor(a, b) as int,
            ),
    decreases b,
{
    if b == 0 {
        assert(a as int == (a as int) * 1);
        assert(0int == (a as int) * 0);
    } else {
        let r = a % b;
        let g = common_divisor(a, b) as int;
        law_common_divisor_is_greatest(b, r);
        vstd::arithmetic::div_mod::lemma_fundamental_div_mod(a as int, b as int);
        let q = (a as int) / (b as int);
        assert(a as int == q * (b as int) + r as int) by (nonlinear_arith)
            requires
                a as int == (b as int) * q + r as int,
        ;
        lemma_divides_sum(g, b as int, r as int, q);
        assert forall|d: int| #[trigger]
            divides(d, a as int) && divides(d, b as int) implies divides(d, g) by {
            lemma_divides_sum(d, b as int, a as int, q);
            assert(r as int == a as int - q * (b as int));
            assert(divides(d, b as int) && divides(d, r as int));
        }
    }
}

/// The greatest common divisor of two numbers that are not both zero is
/// positive and no larger than either that is not zero.
proof fn lemma_common_divisor_bounds(a: nat, b: nat)
    requires
        a > 0,
        b > 0,
    ensures
        0 < common_divisor(a, b) <= a,
        common_divisor(a, b) <= b,
{
    law_common_divisor_is_greatest(a, b);
    let g = common_divisor(a, b) as int;
    let i = choose|k: int| a as int == #[trigger] (g * k);
    let j = choose|k: int| b as int == #[trigger] (g * k);
    assert(0 < g <= a) by (nonlinear_arith)
        requires
            a as int == g * i,
            a > 0,
            g >= 0,
    ;
    assert(g <= b) by (nonlinear_arith)
        requires
            b as int == g * j,
            b > 0,
            g > 0,
    ;
}

/// The greatest common divisor.
pub fn gcd(a: u64, b: u64) -> (divisor: u64)
    ensures
        divisor == common_divisor(a as nat, b as nat),
{
    let mut x: u64 = a;
    let mut y: u64 = b;
    while y != 0
        invariant
            common_divisor(x as nat, y as nat) == common_divisor(a as nat, b as nat),
        decreases y,
    {
        let r: u64 = x % y;
        x = y;
        y = r;
    }
    x
}

/// The numbers that define a polyphase filter between two rates.
#[derive(Debug, Clone, Copy, PartialEq, Eq, Structural)]
pub struct PolyphasePlan {
    /// Output samples per `down` input samples, in lowest terms.
    pub up: u64,
    /// Input samples per `up` output samples, in lowest terms.
    pub down: u64,
    /// Phases of the filter.
    pub num_phases: u64,
    /// Phases per output sample.
    pub step: u64,
    /// Delay in output samples.
    pub delay_output: u64,
    /// Taps of the prototype filter.
    pub num_taps: u64,
    /// Taps of the longest phase.
    pub phase_len: u64,
}

/// The larger of two numbers.
pub open spec fn larger(a: int, b: int) -> int {
    if a >= b {
        a
    } else {
        b
    }
}

impl PolyphasePlan {
    /// The plan for two rates.
    pub open spec fn between(self, input_rate: u32, output_rate: u32) -> bool {
        let divisor = common_divisor(input_rate as nat, output_rate as nat);
        let oversampling = ceiling(MIN_PHASES as int, self.up as int);
        &&& self.up == output_rate as nat / divisor
        &&& self.down == input_rate as nat / divisor
        &&& self.num_phases == self.up * oversampling
        &&& self.step == self.down * oversampling
        &&& self.delay_output == ceiling(
            HALF_SPAN_LOW_RATE * larger(self.num_phases as int, self.step as int),
            self.step as int,
        )
        &&& self.num_taps == 2 * (self.step * self.delay_output) + 1
        &&& self.phase_len == ceiling(self.num_taps as int, self.num_phases as int)
    }

    /// Plans the filter between two rates.
    pub fn new(input_rate: u32, output_rate: u32) -> (plan: Self)
        requires
            input_rate > 0,
            output_rate > 0,
        ensures
            plan.between(input_rate, output_rate),
            plan.up > 0,
            plan.down > 0,
            plan.num_phases >= MIN_PHASES,
            plan.step > 0,
            plan.phase_len > 0,
    {
        let divisor: u64 = gcd(input_rate as u64, output_rate as u64);
        proof {
            lemma_common_divisor_bounds(input_rate as nat, output_rate as nat);
            lemma_quotient_bounds(output_rate as int, divisor as int);
            lemma_quotient_bounds(input_rate as int, divisor as int);
        }
        let up: u64 = output_rate as u64 / divisor;
        let down: u64 = input_rate as u64 / divisor;
        let oversampling: u64 = (MIN_PHASES + up - 1) / up;
        proof {
            lemma_ceiling_bounds(MIN_PHASES as int, up as int);
            assert(1 <= oversampling <= 128);
            assert(MIN_PHASES <= up * oversampling <= MIN_PHASES + up - 1) by (nonlinear_arith)
                requires
                    MIN_PHASES <= oversampling * up <= MIN_PHASES + up - 1,
            ;
            assert(0 < down * oversampling <= 0x1_0000_0000 * 128) by (nonlinear_arith)
                requires
                    0 < down <= 0x1_0000_0000,
                    1 <= oversampling <= 128,
            ;
        }
        let num_phases: u64 = up * oversampling;
        let step: u64 = down * oversampling;
        let widest: u64 = if num_phases >= step { num_phases } else { step };
        let span: u64 = HALF_SPAN_LOW_RATE * widest;
        let delay_output: u64 = (span + step - 1) / step;
        proof {
            lemma_ceiling_bounds(span as int, step as int);
            assert(step * delay_output == delay_output * step) by (nonlinear_arith);
        }
        let num_taps: u64 = 2 * (step * delay_output) + 1;
        proof {
            lemma_ceiling_bounds(num_taps as int, num_phases as int);
        }
        let phase_len: u64 = (num_taps + num_phases - 1) / num_phases;
        PolyphasePlan { up, down, num_phases, step, delay_output, num_taps, phase_len }
    }
}

/// A quotient of a positive number by one of its lower bounds is positive.
proof fn lemma_quotient_bounds(n: int, d: int)
    requires
        0 < d <= n,
    ensures
        0 < n / d <= n,
{
    assert(0 < n / d <= n) by (nonlinear_arith)
        requires
            0 < d <= n,
    ;
}

/// A quotient rounded up is the least multiplier that reaches the dividend.
proof fn lemma_ceiling_bounds(a: int, b: int)
    requires
        a > 0,
        b > 0,
    ensures
        0 < ceiling(a, b) <= a,
        a <= ceiling(a, b) * b <= a + b - 1,
{
    let q = ceiling(a, b);
    let n = a + b - 1;
    vstd::arithmetic::div_mod::lemma_fundamental_div_mod(n, b);
    vstd::arithmetic::div_mod::lemma_mod_bound(n, b);
    assert(q * b == b * q) by (nonlinear_arith);
    assert(0 < q <= a) by (nonlinear_arith)
        requires
            a <= q * b <= a + b - 1,
            a > 0,
            b > 0,
    ;
}

/// Both terms of a plan's ratio are positive.
pub proof fn lemma_ratio_is_positive(plan: PolyphasePlan, input_rate: u32, output_rate: u32)
    requires
        input_rate > 0,
        output_rate > 0,
        plan.between(input_rate, output_rate),
    ensures
        plan.up > 0,
        plan.down > 0,
{
    let g = common_divisor(input_rate as nat, output_rate as nat) as int;
    lemma_common_divisor_bounds(input_rate as nat, output_rate as nat);
    lemma_quotient_bounds(output_rate as int, g);
    lemma_quotient_bounds(input_rate as int, g);
}

/// How large a plan's numbers can get.
pub proof fn lemma_plan_sizes(plan: PolyphasePlan, input_rate: u32, output_rate: u32)
    requires
        input_rate > 0,
        output_rate > 0,
        plan.between(input_rate, output_rate),
    ensures
        plan.num_phases <= output_rate + 127,
        plan.step <= 128 * input_rate,
        plan.phase_len <= 42 * input_rate + 44,
        (plan.phase_len - 1) * plan.num_phases <= plan.num_taps,
{
    let g = common_divisor(input_rate as nat, output_rate as nat) as int;
    lemma_common_divisor_bounds(input_rate as nat, output_rate as nat);
    lemma_quotient_bounds(output_rate as int, g);
    lemma_quotient_bounds(input_rate as int, g);
    let over = ceiling(MIN_PHASES as int, plan.up as int);
    lemma_ceiling_bounds(MIN_PHASES as int, plan.up as int);
    let phases = plan.num_phases as int;
    let step = plan.step as int;
    let taps = plan.num_taps as int;
    assert(MIN_PHASES <= phases <= plan.up + 127) by (nonlinear_arith)
        requires
            phases == plan.up * over,
            MIN_PHASES <= over * plan.up <= MIN_PHASES + plan.up - 1,
            MIN_PHASES == 128,
    ;
    assert(0 < step <= 128 * plan.down) by (nonlinear_arith)
        requires
            step == plan.down * over,
            0 < over <= MIN_PHASES,
            MIN_PHASES == 128,
            plan.down > 0,
    ;
    let widest = larger(phases, step);
    lemma_ceiling_bounds(HALF_SPAN_LOW_RATE * widest, step);
    assert(plan.step * plan.delay_output == plan.delay_output * plan.step) by (nonlinear_arith);
    assert(taps <= 42 * widest);
    lemma_ceiling_bounds(taps, phases);
    let len = plan.phase_len as int;
    assert((len - 1) * phases <= taps) by (nonlinear_arith)
        requires
            len * phases <= taps + phases - 1,
    ;
    assert(len <= 42 * plan.down + 44) by (nonlinear_arith)
        requires
            (len - 1) * phases <= 42 * widest,
            widest == phases || widest == step,
            step <= 128 * plan.down,
            phases >= 128,
            plan.down > 0,
    ;
}

/// The plan's ratio is that of the rates, in lowest terms; the filter's delay
/// is a whole number of output samples, and it spans at least twenty periods
/// of the lower rate on each side, and no output sample more than that takes. There
/// are as few phases as reach the least number, and as few taps in each as hold all.
pub proof fn law_plan_is_exact(plan: PolyphasePlan, input_rate: u32, output_rate: u32)
    requires
        input_rate > 0,
        output_rate > 0,
        plan.between(input_rate, output_rate),
    ensures
        plan.up * input_rate == plan.down * output_rate,
        forall|d: int| d > 0 && #[trigger] divides(d, plan.up as int) && divides(
            d,
            plan.down as int,
        ) ==> d == 1,
        plan.num_phases * plan.down == plan.step * plan.up,
        plan.num_taps - 1 == 2 * (plan.step * plan.delay_output),
        plan.step * plan.delay_output >= HALF_SPAN_LOW_RATE * plan.num_phases,
        plan.step * plan.delay_output >= HALF_SPAN_LOW_RATE * plan.step,
        plan.step * (plan.delay_output - 1) < HALF_SPAN_LOW_RATE * plan.num_phases || plan.step
            * (plan.delay_output - 1) < HALF_SPAN_LOW_RATE * plan.step,
        MIN_PHASES <= plan.num_phases < MIN_PHASES + plan.up,
        (plan.phase_len - 1) * plan.num_phases < plan.num_taps <= plan.phase_len
            * plan.num_phases,
{
    let g = common_divisor(input_rate as nat, output_rate as nat) as int;
    law_common_divisor_is_greatest(input_rate as nat, output_rate as nat);
    lemma_common_divisor_bounds(input_rate as nat, output_rate as nat);
    let i = choose|k: int| input_rate as int == #[trigger] (g * k);
    let o = choose|k: int| output_rate as int == #[trigger] (g * k);
    vstd::arithmetic::div_mod::lemma_div_multiples_vanish(i, g);
    vstd::arithmetic::div_mod::lemma_div_multiples_vanish(o, g);
    assert(plan.down == i && plan.up == o);
    assert(plan.up * input_rate == plan.down * output_rate) by (nonlinear_arith)
        requires
            input_rate as int == g * i,
            output_rate as int == g * o,
            plan.down == i,
            plan.up == o,
    ;
    assert forall|d: int| d > 0 && #[trigger] divides(d, plan.up as int) && divides(
        d,
        plan.down as int,
    ) implies d == 1 by {
        let m = choose|k: int| plan.up as int == #[trigger] (d * k);
        let n = choose|k: int| plan.down as int == #[trigger] (d * k);
        assert(output_rate as int == (g * d) * m) by (nonlinear_arith)
            requires
                output_rate as int == g * o,
                o == d * m,
        ;
        assert(input_rate as int == (g * d) * n) by (nonlinear_arith)
            requires
                input_rate as int == g * i,
                i == d * n,
        ;
        assert(divides(g * d, input_rate as int));
        assert(divides(g * d, output_rate as int));
        assert(divides(g * d, g));
        let t = choose|k: int| g == #[trigger] ((g * d) * k);
        assert(d == 1) by (nonlinear_arith)
            requires
                g == (g * d) * t,
                g > 0,
                d > 0,
        ;
    }
    lemma_quotient_bounds(output_rate as int, g);
    lemma_quotient_bounds(input_rate as int, g);
    let over = ceiling(MIN_PHASES as int, plan.up as int);
    lemma_ceiling_bounds(MIN_PHASES as int, plan.up as int);
    assert(plan.num_phases * plan.down == plan.step * plan.up) by (nonlinear_arith)
        requires
            plan.num_phases == plan.up * over,
            plan.step == plan.down * over,
    ;
    assert(plan.step > 0) by (nonlinear_arith)
        requires
            plan.step == plan.down * over,
            plan.down > 0,
            over > 0,
    ;
    let widest = larger(plan.num_phases as int, plan.step as int);
    lemma_ceiling_bounds(HALF_SPAN_LOW_RATE * widest, plan.step as int);
    let step = plan.step as int;
    let delay = plan.delay_output as int;
    assert(step * (delay - 1) < HALF_SPAN_LOW_RATE * widest) by (nonlinear_arith)
        requires
            delay * step <= HALF_SPAN_LOW_RATE * widest + step - 1,
    ;
    assert(plan.num_taps > 0) by (nonlinear_arith)
        requires
            plan.num_taps == 2 * (step * delay) + 1,
            step >= 0,
            delay >= 0,
    ;
    assert(plan.num_phases >= MIN_PHASES && plan.num_phases < MIN_PHASES + plan.up)
        by (nonlinear_arith)
        requires
            plan.num_phases == plan.up * over,
            MIN_PHASES <= over * plan.up <= MIN_PHASES + plan.up - 1,
    ;
    lemma_ceiling_bounds(plan.num_taps as int, plan.num_phases as int);
    let len = plan.phase_len as int;
    let phases = plan.num_phases as int;
    assert((len - 1) * phases < plan.num_taps) by (nonlinear_arith)
        requires
            len * phases <= plan.num_taps + phases - 1,
    ;
    assert(plan.step * plan.delay_output == plan.delay_output * plan.step) by (nonlinear_arith);
}

/// How many outputs a resampler produces from prototype position `pos` on,
/// while the sample ahead of each is buffered.
pub open spec fn output_count(pos: int, len: int, phases: int, step: int) -> int
    decreases len * phases + step - pos,
    when phases > 0 && step > 0
{
    if pos / phases + 1 < len {
        proof {
            assert(pos < len * phases) by (nonlinear_arith)
                requires
                    pos / phases + 1 < len,
                    phases > 0,
            ;
        }
        1 + output_count(pos + step, len, phases, step)
    } else {
        0
    }
}

/// Feeding a stream in two blocks produces as many outputs as feeding it in
/// one.
pub proof fn law_output_count_ignores_block_sizes(
    pos: int,
    first_len: int,
    whole_len: int,
    phases: int,
    step: int,
)
    requires
        phases > 0,
        step > 0,
        first_len <= whole_len,
    ensures
        output_count(pos, whole_len, phases, step) == output_count(pos, first_len, phases, step)
            + output_count(
            pos + output_count(pos, first_len, phases, step) * step,
            whole_len,
            phases,
            step,
        ),
    decreases first_len * phases + step - pos,
{
    if pos / phases + 1 < first_len {
        assert(pos < first_len * phases) by (nonlinear_arith)
            requires
                pos / phases + 1 < first_len,
                phases > 0,
        ;
        law_output_count_ignores_block_sizes(pos + step, first_len, whole_len, phases, step);
        let rest = output_count(pos + step, first_len, phases, step);
        assert(pos + step + rest * step == pos + (1 + rest) * step) by (nonlinear_arith);
    } else {
        assert(pos + 0 * step == pos);
    }
}

/// Dropping consumed samples from the buffer, and moving the position back by
/// as many, changes neither the outputs nor their phases.
pub proof fn law_dropping_consumed_samples_changes_nothing(
    pos: int,
    len: int,
    dropped: int,
    phases: int,
    step: int,
)
    requires
        phases > 0,
        step > 0,
    ensures
        output_count(pos - dropped * phases, len - dropped, phases, step) == output_count(
            pos,
            len,
            phases,
            step,
        ),
        (pos - dropped * phases) % phases == pos % phases,
        (pos - dropped * phases) / phases == pos / phases - dropped,
    decreases len * phases + step - pos,
{
    vstd::arithmetic::div_mod::lemma_mod_multiples_vanish(-dropped, pos, phases);
    assert(phases * (-dropped) + pos == pos - dropped * phases) by (nonlinear_arith);
    vstd::arithmetic::div_mod::lemma_hoist_over_denominator(pos, -dropped, phases as nat);
    assert(pos + (-dropped) * phases == pos - dropped * phases) by (nonlinear_arith);
    if pos / phases + 1 < len {
        assert(pos < len * phases) by (nonlinear_arith)
            requires
                pos / phases + 1 < len,
                phases > 0,
        ;
        law_dropping_consumed_samples_changes_nothing(pos + step, len, dropped, phases, step);
        assert(pos - dropped * phases + step == pos + step - dropped * phases);
    }
}

/// Where one output lies: the newest sample under the filter, and the phase.
#[derive(Debug, Clone, Copy, PartialEq, Eq, Structural)]
pub struct Position {
    /// Index of the newest sample.
    pub base: usize,
    /// Filter phase.
    pub phase: usize,
}

/// The buffer and the position of a resampler that runs at its nominal ratio.
#[derive(Debug)]
pub struct PolyphaseResampler {
    plan: PolyphasePlan,
    buf: Vec<u32>,
    pos: u64,
}

impl PolyphaseResampler {
    /// The plan.
    pub closed spec fn design(&self) -> PolyphasePlan {
        self.plan
    }

    /// The buffered samples, oldest first.
    pub closed spec fn buffered(&self) -> Seq<u32> {
        self.buf@
    }

    /// The position of the next output, in filter phases from the oldest
    /// buffered sample.
    pub closed spec fn position(&self) -> nat {
        self.pos as nat
    }

    /// Samples of look-behind.
    pub open spec fn look_behind(&self) -> int {
        self.design().phase_len - 1
    }

    /// Whether no output is due: the one at the position lacks its newest
    /// sample.
    pub open spec fn settled(&self) -> bool {
        self.position() as int / (self.design().num_phases as int) + 1 >= self.buffered().len()
    }

    /// Whether the next output has its whole look-behind buffered.
    pub closed spec fn wf(&self) -> bool {
        &&& self.plan.num_phases > 0
        &&& self.plan.step > 0
        &&& self.plan.phase_len > 0
        &&& self.plan.phase_len <= usize::MAX
        &&& self.plan.num_phases <= usize::MAX
        &&& (self.plan.phase_len - 1) * self.plan.num_phases <= self.pos
    }

    /// Creates a resampler with a silent look-behind.
    pub fn new(input_rate: u32, output_rate: u32) -> (resampler: Self)
        requires
            input_rate > 0,
            output_rate > 0,
            42 * input_rate + 44 <= usize::MAX,
            output_rate + 127 <= usize::MAX,
        ensures
            resampler.wf(),
            resampler.design().between(input_rate, output_rate),
            resampler.buffered() == ring::silence(resampler.look_behind() as nat),
            resampler.position() == resampler.look_behind() * resampler.design().num_phases,
            resampler.settled(),
    {
        let plan: PolyphasePlan = PolyphasePlan::new(input_rate, output_rate);
        proof {
            lemma_plan_sizes(plan, input_rate, output_rate);
        }
        let behind: usize = (plan.phase_len - 1) as usize;
        let buf: Vec<u32> = vec![0; behind];
        assert(buf@ =~= ring::silence(behind as nat));
        assert((plan.phase_len - 1) * plan.num_phases >= 0) by (nonlinear_arith)
            requires
                plan.phase_len > 0,
        ;
        proof {
            vstd::arithmetic::div_mod::lemma_div_by_multiple(
                plan.phase_len - 1,
                plan.num_phases as int,
            );
        }
        PolyphaseResampler { plan, buf, pos: (plan.phase_len - 1) * plan.num_phases }
    }

    /// The conversion ratio, output samples to input samples.
    pub fn ratio(&self) -> (ratio: (u64, u64))
        ensures
            ratio == (self.design().up, self.design().down),
    {
        (self.plan.up, self.plan.down)
    }

    /// Delay in output samples.
    pub fn delay_output_samples(&self) -> (delay: u64)
        ensures
            delay == self.design().delay_output,
    {
        self.plan.delay_output
    }

    /// The buffered samples, oldest first.
    pub fn samples(&self) -> (samples: &[u32])
        ensures
            samples@ == self.buffered(),
    {
        self.buf.as_slice()
    }

    /// Feeds a block and returns where each output lies. Output `k` of the
    /// block is `k` steps past the position.
    pub fn process(&mut self, input: &[u32]) -> (positions: Vec<Position>)
        requires
            old(self).wf(),
            old(self).buffered().len() + input@.len() <= usize::MAX,
            (old(self).buffered().len() + input@.len()) * old(self).design().num_phases
                + old(self).design().step <= u64::MAX,
        ensures
            final(self).wf(),
            final(self).settled(),
            final(self).design() == old(self).design(),
            final(self).buffered() == old(self).buffered() + input@,
            positions@.len() == output_count(
                old(self).position() as int,
                final(self).buffered().len() as int,
                old(self).design().num_phases as int,
                old(self).design().step as int,
            ),
            final(self).position() == old(self).position() + positions@.len()
                * old(self).design().step,
            forall|k: int|
                0 <= k < positions@.len() ==> {
                    let at = old(self).position() + k * old(self).design().step;
                    &&& #[trigger] positions@[k].base == at / (old(self).design().num_phases as int)
                    &&& positions@[k].phase == at % (old(self).design().num_phases as int)
                    &&& old(self).look_behind() <= positions@[k].base
                        < final(self).buffered().len() - 1
                    &&& positions@[k].base * old(self).design().num_phases + positions@[k].phase
                        == at
                    &&& positions@[k].phase < old(self).design().num_phases
                },
    {
        self.buf.extend_from_slice(input);
        assert(self.buf@ =~= old(self).buf@ + input@);
        let len: usize = self.buf.len();
        let phases: u64 = self.plan.num_phases;
        let step: u64 = self.plan.step;
        let ghost start = self.pos as int;
        let ghost p = phases as int;
        let ghost s = step as int;
        let mut positions: Vec<Position> = Vec::new();
        assert(start + 0 * s == start) by (nonlinear_arith);
        while len > 1 && self.pos / phases < (len - 1) as u64
            invariant
                self.wf(),
                self.plan == old(self).plan,
                self.buf@ == old(self).buf@ + input@,
                len == self.buf@.len(),
                phases == self.plan.num_phases,
                step == self.plan.step,
                p == phases,
                s == step,
                start == old(self).pos,
                len * p + s <= u64::MAX,
                start >= (self.plan.phase_len - 1) * p,
                self.pos == start + positions@.len() * s,
                positions@.len() + output_count(self.pos as int, len as int, p, s) == output_count(
                    start,
                    len as int,
                    p,
                    s,
                ),
                forall|k: int|
                    0 <= k < positions@.len() ==> {
                        let at = start + k * s;
                        &&& #[trigger] positions@[k].base == at / p
                        &&& positions@[k].phase == at % p
                        &&& self.plan.phase_len - 1 <= positions@[k].base < len - 1
                    },
            decreases len * p + s - self.pos,
        {
            let base: u64 = self.pos / phases;
            let phase: u64 = self.pos % phases;
            proof {
                let pos = self.pos as int;
                assert(pos < len * p) by (nonlinear_arith)
                    requires
                        pos / p + 1 < len,
                        p > 0,
                ;
                assert(self.plan.phase_len - 1 <= pos / p) by (nonlinear_arith)
                    requires
                        pos >= (self.plan.phase_len - 1) * p,
                        p > 0,
                ;
                assert(start + (positions@.len() + 1) * s == pos + s) by (nonlinear_arith)
                    requires
                        pos == start + positions@.len() * s,
                ;
                assert(output_count(pos, len as int, p, s) == 1 + output_count(
                    pos + s,
                    len as int,
                    p,
                    s,
                ));
            }
            positions.push(Position { base: base as usize, phase: phase as usize });
            self.pos = self.pos + step;
        }
        proof {
            assert forall|k: int| 0 <= k < positions@.len() implies (#[trigger] positions@[k]).base
                * p + positions@[k].phase == start + k * s && positions@[k].phase < p by {
                let at = start + k * s;
                vstd::arithmetic::div_mod::lemma_fundamental_div_mod(at, p);
                vstd::arithmetic::div_mod::lemma_mod_bound(at, p);
                assert(positions@[k].base == at / p);
                assert(p * (at / p) == (at / p) * p) by (nonlinear_arith);
            }
        }
        positions
    }

    /// Drops the samples that no later output needs.
    pub fn retire(&mut self) -> (dropped: usize)
        requires
            old(self).wf(),
        ensures
            final(self).wf(),
            final(self).design() == old(self).design(),
            ({
                let base = old(self).position() as int / (old(self).design().num_phases as int);
                let spare = if base > old(self).look_behind() {
                    base - old(self).look_behind()
                } else {
                    0
                };
                dropped == (if spare < old(self).buffered().len() {
                    spare
                } else {
                    old(self).buffered().len() as int
                })
            }),
            final(self).buffered() == old(self).buffered().skip(dropped as int),
            final(self).position() == old(self).position() - dropped
                * old(self).design().num_phases,
            old(self).settled() ==> {
                &&& final(self).settled()
                &&& final(self).buffered().len() <= old(self).look_behind() + 1
            },
    {
        let phases: u64 = self.plan.num_phases;
        let base: u64 = self.pos / phases;
        let behind: u64 = self.plan.phase_len - 1;
        let spare: u64 = if base > behind { base - behind } else { 0 };
        let dropped: usize = if spare < self.buf.len() as u64 {
            spare as usize
        } else {
            self.buf.len()
        };
        proof {
            let pos = self.pos as int;
            let p = phases as int;
            vstd::arithmetic::div_mod::lemma_fundamental_div_mod(pos, p);
            assert(dropped * p <= pos - behind * p) by (nonlinear_arith)
                requires
                    dropped <= spare,
                    base > behind ==> spare == base - behind,
                    base <= behind ==> spare == 0,
                    base == pos / p,
                    pos == p * (pos / p) + pos % p,
                    pos % p >= 0,
                    p > 0,
                    behind * p <= pos,
            ;
            assert(behind * p >= 0) by (nonlinear_arith)
                requires
                    p > 0,
                    behind >= 0,
            ;
            assert(dropped * p >= 0) by (nonlinear_arith)
                requires
                    p > 0,
            ;
        }
        proof {
            let pos = self.pos as int;
            let p = phases as int;
            assert((pos - dropped * p) / p == pos / p - dropped) by {
                vstd::arithmetic::div_mod::lemma_hoist_over_denominator(
                    pos,
                    -(dropped as int),
                    p as nat,
                );
                assert(pos + -(dropped as int) * p == pos - dropped * p) by (nonlinear_arith);
            }
        }
        let kept = self.buf.split_off(dropped);
        self.buf = kept;
        self.pos = self.pos - dropped as u64 * phases;
        dropped
    }

    /// Restarts the stream with a silent look-behind.
    pub fn reset(&mut self)
        requires
            old(self).wf(),
        ensures
            final(self).wf(),
            final(self).design() == old(self).design(),
            final(self).buffered() == ring::silence(old(self).look_behind() as nat),
            final(self).position() == old(self).look_behind() * old(self).design().num_phases,
            final(self).settled(),
    {
        let behind: usize = (self.plan.phase_len - 1) as usize;
        assert(behind * self.plan.num_phases >= 0) by (nonlinear_arith)
            requires
                self.plan.num_phases > 0,
        ;
        self.buf = vec![0; behind];
        assert(self.buf@ =~= ring::silence(behind as nat));
        proof {
            vstd::arithmetic::div_mod::lemma_div_by_multiple(
                behind as int,
                self.plan.num_phases as int,
            );
        }
        self.pos = behind as u64 * self.plan.num_phases;
    }
}

/// A resampler gives exactly the outputs whose newest sample, and the one ahead of it,
/// are there: output `k` is given if and only if the position `k` steps on still lies
/// before the last sample of the buffer.
pub proof fn law_outputs_wait_for_the_sample_ahead(
    pos: int,
    len: int,
    phases: int,
    step: int,
    k: int,
)
    requires
        phases > 0,
        step > 0,
        k >= 0,
    ensures
        k < output_count(pos, len, phases, step) <==> (pos + k * step) / phases < len - 1,
        output_count(pos, len, phases, step) >= 0,
    decreases len * phases + step - pos,
{
    if pos / phases + 1 < len {
        assert(len * phases - pos > 0) by (nonlinear_arith)
            requires
                pos / phases + 1 < len,
                phases > 0,
        ;
        if k > 0 {
            law_outputs_wait_for_the_sample_ahead(pos + step, len, phases, step, k - 1);
            assert(pos + step + (k - 1) * step == pos + k * step) by (nonlinear_arith);
        } else {
            law_outputs_wait_for_the_sample_ahead(pos + step, len, phases, step, 0);
            assert(0 * step == 0);
        }
    } else {
        assert(k * step >= 0) by (nonlinear_arith)
            requires
                k >= 0,
                step > 0,
        ;
        vstd::arithmetic::div_mod::lemma_div_is_ordered(pos, pos + k * step, phases);
    }
}

/// A resampler is settled exactly where no output is due.
pub proof fn law_settled_means_nothing_is_due(resampler: PolyphaseResampler)
    requires
        resampler.design().num_phases > 0,
        resampler.design().step > 0,
    ensures
        resampler.settled() <==> output_count(
            resampler.position() as int,
            resampler.buffered().len() as int,
            resampler.design().num_phases as int,
            resampler.design().step as int,
        ) == 0,
{
    law_outputs_wait_for_the_sample_ahead(
        resampler.position() as int,
        resampler.buffered().len() as int,
        resampler.design().num_phases as int,
        resampler.design().step as int,
        0,
    );
    assert(0 * resampler.design().step == 0);
}

} // verus!
