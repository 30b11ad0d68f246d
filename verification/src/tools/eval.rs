//! Evaluation material: how the mixture is laid out, which parts of it are
//! measured, and how the listening set is shuffled.
//!
//! A mixture has three segments of one length: the voice alone, both talking,
//! and the other speaker alone.

use vstd::prelude::*;
use vstd::string::*;

use crate::signal::ring;
use crate::signal::ring::SILENCE;
use crate::text;
use crate::text::push_decimal;

verus! {

/// Samples skipped at the start of every region before measuring, so that a
/// model's reaction to a new condition does not count against it: 250 ms.
pub const REGION_GUARD: usize = 12_000;

/// Frame by which silence is trimmed: 10 ms.
pub const TRIM_FRAME: usize = 480;

/// Shortest segment the metrics are meaningful for: one second.
pub const MIN_SEGMENT: usize = 48_000;

/// A range of samples.
#[derive(Debug, Clone, Copy, PartialEq, Eq, Structural)]
pub struct Region {
    /// First sample.
    pub start: usize,
    /// Sample after the last one.
    pub end: usize,
}

/// The three conditions of a mixture.
#[derive(Debug, Clone, Copy, PartialEq, Eq, Structural)]
pub struct Regions {
    /// Only the user's voice is present.
    pub target_only: Region,
    /// Voice and interferer overlap.
    pub both: Region,
    /// Only the interferer is present.
    pub interferer_only: Region,
}

/// The part of a recording between its first and its last loud frame, given
/// which of its frames are loud; empty when none is. Internal pauses are kept.
pub fn trim_silence(loud: &[bool]) -> (range: Region)
    requires
        loud@.len() * TRIM_FRAME <= usize::MAX,
    ensures
        if exists|i: int| 0 <= i < loud@.len() && loud@[i] {
            exists|first: int, last: int|
                #![trigger loud@[first], loud@[last]]
                {
                    &&& 0 <= first <= last < loud@.len()
                    &&& loud@[first] && loud@[last]
                    &&& forall|k: int| 0 <= k < loud@.len() && loud@[k] ==> first <= k <= last
                    &&& range.start == first * TRIM_FRAME
                    &&& range.end == (last + 1) * TRIM_FRAME
                }
        } else {
            range == (Region { start: 0, end: 0 })
        },
{
    let mut first: usize = 0;
    while first < loud.len() && !loud[first]
        invariant
            first <= loud@.len(),
            forall|k: int| 0 <= k < first ==> !loud@[k],
        decreases loud@.len() - first,
    {
        first = first + 1;
    }
    if first == loud.len() {
        return Region { start: 0, end: 0 };
    }
    assert(loud@[first as int]);
    let mut last: usize = loud.len() - 1;
    while !loud[last]
        invariant
            first <= last < loud@.len(),
            loud@[first as int],
            forall|k: int| last < k < loud@.len() ==> !loud@[k],
        decreases last,
    {
        last = last - 1;
    }
    proof {
        assert(loud@[first as int] && loud@[last as int]);
    }
    Region { start: first * TRIM_FRAME, end: (last + 1) * TRIM_FRAME }
}

/// A mixture before the interferer's gain is applied: the two tracks to add up,
/// and where the conditions lie.
#[derive(Debug)]
pub struct Mixture {
    /// The clean voice, silent outside its two segments.
    pub target: Vec<u32>,
    /// The interferer, silent outside its two segments.
    pub interferer: Vec<u32>,
    /// Region boundaries.
    pub regions: Regions,
}

/// The message for a recording that is too short.
pub open spec fn short_message(which: Seq<char>, len: int, segment_len: int) -> Seq<char> {
    which + " recording too short: "@ + text::decimal(len as nat) + " samples, need "@
        + text::decimal((2 * segment_len) as nat)
}

fn too_short(which: &str, len: usize, segment_len: usize) -> (message: String)
    requires
        2 * segment_len <= usize::MAX,
    ensures
        message@ == short_message(which@, len as int, segment_len as int),
{
    let mut message = which.to_owned();
    message.append(" recording too short: ");
    push_decimal(&mut message, len as u64);
    message.append(" samples, need ");
    push_decimal(&mut message, (2 * segment_len) as u64);
    message
}

/// The voice track: two segments of voice, then one of silence.
pub open spec fn target_track(target: Seq<u32>, segment_len: nat) -> Seq<u32> {
    target.take(2 * segment_len as int) + ring::silence(segment_len)
}

/// The interferer track: one segment of silence, then two of interferer.
pub open spec fn interferer_track(interferer: Seq<u32>, segment_len: nat) -> Seq<u32> {
    ring::silence(segment_len) + interferer.take(2 * segment_len as int)
}

/// Lays out the three segments. Each recording must supply two of them.
pub fn build_mixture(target: &[u32], interferer: &[u32], segment_len: usize) -> (result: Result<
    Mixture,
    String,
>)
    requires
        2 * segment_len <= usize::MAX,
        target@.len() >= 2 * segment_len && interferer@.len() >= 2 * segment_len ==> 3
            * segment_len <= usize::MAX,
    ensures
        match result {
            Err(message) => {
                ||| segment_len == 0 && message@ == "segment length must be positive"@
                ||| segment_len > 0 && target@.len() < 2 * segment_len && message@
                    == short_message("target"@, target@.len() as int, segment_len as int)
                ||| segment_len > 0 && target@.len() >= 2 * segment_len && interferer@.len() < 2
                    * segment_len && message@ == short_message(
                    "interferer"@,
                    interferer@.len() as int,
                    segment_len as int,
                )
            },
            Ok(mixture) => {
                &&& segment_len > 0
                &&& target@.len() >= 2 * segment_len
                &&& interferer@.len() >= 2 * segment_len
                &&& mixture.target@ == target_track(target@, segment_len as nat)
                &&& mixture.interferer@ == interferer_track(interferer@, segment_len as nat)
                &&& mixture.regions == (Regions {
                    target_only: Region { start: 0, end: segment_len },
                    both: Region { start: segment_len, end: (2 * segment_len) as usize },
                    interferer_only: Region {
                        start: (2 * segment_len) as usize,
                        end: (3 * segment_len) as usize,
                    },
                })
            },
        },
        result matches Ok(mixture) ==> {
            let regions = mixture.regions;
            &&& mixture.target@.len() == mixture.interferer@.len()
            &&& regions.target_only.start == 0
            &&& regions.target_only.end == regions.both.start
            &&& regions.both.end == regions.interferer_only.start
            &&& regions.interferer_only.end == mixture.target@.len()
            &&& forall|k: int|
                regions.target_only.start <= k < regions.target_only.end
                    ==> #[trigger] mixture.interferer@[k] == SILENCE
            &&& forall|k: int|
                regions.interferer_only.start <= k < regions.interferer_only.end
                    ==> #[trigger] mixture.target@[k] == SILENCE
        },
{
    if segment_len == 0 {
        return Err("segment length must be positive".to_owned());
    }
    if target.len() < 2 * segment_len {
        return Err(too_short("target", target.len(), segment_len));
    }
    if interferer.len() < 2 * segment_len {
        return Err(too_short("interferer", interferer.len(), segment_len));
    }
    let total: usize = 3 * segment_len;
    let mut voice: Vec<u32> = Vec::with_capacity(total);
    let mut other: Vec<u32> = Vec::with_capacity(total);
    let mut i: usize = 0;
    while i < total
        invariant
            segment_len > 0,
            total == 3 * segment_len,
            i <= total,
            target@.len() >= 2 * segment_len,
            interferer@.len() >= 2 * segment_len,
            voice@ == target_track(target@, segment_len as nat).take(i as int),
            other@ == interferer_track(interferer@, segment_len as nat).take(i as int),
        decreases total - i,
    {
        voice.push(if i < 2 * segment_len { target[i] } else { SILENCE });
        other.push(if i < segment_len { SILENCE } else { interferer[i - segment_len] });
        i = i + 1;
        assert(voice@ =~= target_track(target@, segment_len as nat).take(i as int));
        assert(other@ =~= interferer_track(interferer@, segment_len as nat).take(i as int));
    }
    assert(voice@ =~= target_track(target@, segment_len as nat));
    assert(other@ =~= interferer_track(interferer@, segment_len as nat));
    Ok(
        Mixture {
            target: voice,
            interferer: other,
            regions: Regions {
                target_only: Region { start: 0, end: segment_len },
                both: Region { start: segment_len, end: 2 * segment_len },
                interferer_only: Region { start: 2 * segment_len, end: 3 * segment_len },
            },
        },
    )
}

/// In each region exactly the named speakers are heard, and in the middle one
/// the second segment of the voice meets the first of the interferer.
pub proof fn law_regions_hold_their_speakers(
    target: Seq<u32>,
    interferer: Seq<u32>,
    segment_len: nat,
    k: int,
)
    requires
        target.len() >= 2 * segment_len,
        interferer.len() >= 2 * segment_len,
        0 <= k < 3 * segment_len,
    ensures
        target_track(target, segment_len).len() == 3 * segment_len,
        interferer_track(interferer, segment_len).len() == 3 * segment_len,
        k < 2 * segment_len ==> target_track(target, segment_len)[k] == target[k],
        k >= 2 * segment_len ==> target_track(target, segment_len)[k] == SILENCE,
        k < segment_len ==> interferer_track(interferer, segment_len)[k] == SILENCE,
        k >= segment_len ==> interferer_track(interferer, segment_len)[k] == interferer[k
            - segment_len],
{
}

/// The part of a region that is measured: without the guard, and inside what
/// there is.
pub fn measured(region: Region, len: usize) -> (range: Region)
    requires
        region.start + REGION_GUARD <= usize::MAX,
    ensures
        range.start <= len,
        range.end <= len,
        range.end == (if region.end < len {
            region.end
        } else {
            len
        }),
        ({
            let guarded = region.start + REGION_GUARD;
            let inside = if guarded < region.end {
                guarded
            } else {
                region.end as int
            };
            range.start == (if inside < len {
                inside
            } else {
                len as int
            })
        }),
        range.start <= range.end,
        range.start < range.end ==> {
            &&& range.start == region.start + REGION_GUARD
            &&& range.end <= region.end
            &&& range.end == region.end || range.end == len
        },
        region.start + REGION_GUARD < region.end <= len ==> range.end - range.start
            == region.end - region.start - REGION_GUARD,
{
    let guarded: usize = region.start + REGION_GUARD;
    let inside: usize = if guarded < region.end { guarded } else { region.end };
    Region {
        start: if inside < len { inside } else { len },
        end: if region.end < len { region.end } else { len },
    }
}

/// The segment length that the material supports: at most what was asked for,
/// and half of each recording; `None` when that is shorter than a second.
pub fn segment_length(requested: usize, target_len: usize, interferer_len: usize) -> (length:
    Option<usize>)
    ensures
        ({
            let half = if target_len / 2 < interferer_len / 2 {
                target_len / 2
            } else {
                interferer_len / 2
            };
            let chosen = if requested < half {
                requested
            } else {
                half
            };
            length == (if chosen < MIN_SEGMENT {
                None
            } else {
                Some(chosen)
            })
        }),
        match length {
            Some(chosen) => {
                &&& MIN_SEGMENT <= chosen <= requested
                &&& 2 * chosen <= target_len
                &&& 2 * chosen <= interferer_len
                &&& chosen == requested || 2 * chosen + 1 >= target_len || 2 * chosen + 1
                    >= interferer_len
            },
            None => requested < MIN_SEGMENT || target_len < 2 * MIN_SEGMENT || interferer_len < 2
                * MIN_SEGMENT,
        },
{
    let half: usize = if target_len / 2 < interferer_len / 2 {
        target_len / 2
    } else {
        interferer_len / 2
    };
    let chosen: usize = if requested < half { requested } else { half };
    if chosen < MIN_SEGMENT {
        None
    } else {
        Some(chosen)
    }
}

/// Weyl constant of the generator.
pub const GOLDEN_GAMMA: u64 = 0x9e37_79b9_7f4a_7c15;

/// The next state of the generator.
pub open spec fn stepped(state: u64) -> u64 {
    state.wrapping_add(GOLDEN_GAMMA)
}

/// What the generator gives in a state.
pub open spec fn mixed(state: u64) -> u64 {
    let a = (state ^ (state >> 30)).wrapping_mul(0xbf58_476d_1ce4_e5b9);
    let b = (a ^ (a >> 27)).wrapping_mul(0x94d0_49bb_1331_11eb);
    b ^ (b >> 31)
}

/// `order` with two places exchanged.
pub open spec fn exchanged(order: Seq<usize>, i: int, j: int) -> Seq<usize> {
    order.update(i, order[j]).update(j, order[i])
}

/// `order` with the places up to `i` shuffled: place `i` is exchanged with one
/// of the places up to it, then the rest likewise.
pub open spec fn shuffled(order: Seq<usize>, i: nat, state: u64) -> Seq<usize>
    decreases i,
{
    if i == 0 {
        order
    } else {
        let next = stepped(state);
        let j = mixed(next) as int % (i + 1int);
        shuffled(exchanged(order, i as int, j), (i - 1) as nat, next)
    }
}

/// The numbers from zero, in order.
pub open spec fn counting(n: nat) -> Seq<usize> {
    Seq::new(n, |i: int| i as usize)
}

/// The order of the blind listening set.
pub open spec fn blind(n: nat, seed: u64) -> Seq<usize> {
    if n == 0 {
        Seq::empty()
    } else {
        shuffled(counting(n), (n - 1) as nat, seed ^ GOLDEN_GAMMA)
    }
}

/// Whether a sequence holds each number below its length exactly once.
pub open spec fn permutes(order: Seq<usize>) -> bool {
    &&& forall|i: int| 0 <= i < order.len() ==> #[trigger] order[i] < order.len()
    &&& forall|i: int, j: int|
        0 <= i < j < order.len() ==> #[trigger] order[i] != #[trigger] order[j]
}

/// A deterministic permutation of `0..n` from `seed`, so that a listener cannot
/// infer a model from file order.
pub fn blind_order(n: usize, seed: u64) -> (order: Vec<usize>)
    ensures
        order@ == blind(n as nat, seed),
{
    let mut state: u64 = seed ^ GOLDEN_GAMMA;
    let mut order: Vec<usize> = Vec::with_capacity(n);
    while order.len() < n
        invariant
            order@.len() <= n,
            order@ == counting(n as nat).take(order@.len() as int),
        decreases n - order@.len(),
    {
        let next: usize = order.len();
        order.push(next);
        assert(order@ =~= counting(n as nat).take(order@.len() as int));
    }
    assert(order@ =~= counting(n as nat));
    if n == 0 {
        return order;
    }
    let mut i: usize = n - 1;
    while i > 0
        invariant
            i < n,
            order@.len() == n,
            blind(n as nat, seed) == shuffled(order@, i as nat, state),
        decreases i,
    {
        state = state.wrapping_add(GOLDEN_GAMMA);
        let a: u64 = (state ^ (state >> 30)).wrapping_mul(0xbf58_476d_1ce4_e5b9);
        let b: u64 = (a ^ (a >> 27)).wrapping_mul(0x94d0_49bb_1331_11eb);
        let z: u64 = b ^ (b >> 31);
        let j: usize = (z % (i as u64 + 1)) as usize;
        let at_i: usize = order[i];
        let at_j: usize = order[j];
        order.set(i, at_j);
        order.set(j, at_i);
        i = i - 1;
    }
    order
}

/// The blind order is a permutation: every model is heard exactly once.
pub proof fn law_blind_order_is_a_permutation(n: nat, seed: u64)
    requires
        n <= usize::MAX,
    ensures
        blind(n, seed).len() == n,
        permutes(blind(n, seed)),
{
    if n > 0 {
        lemma_shuffle_permutes(counting(n), (n - 1) as nat, seed ^ GOLDEN_GAMMA);
    }
}

proof fn lemma_shuffle_permutes(order: Seq<usize>, i: nat, state: u64)
    requires
        i < order.len(),
        permutes(order),
    ensures
        shuffled(order, i, state).len() == order.len(),
        permutes(shuffled(order, i, state)),
    decreases i,
{
    if i > 0 {
        let next = stepped(state);
        let j = mixed(next) as int % (i + 1int);
        let swapped = exchanged(order, i as int, j);
        assert(0 <= j <= i);
        assert(permutes(swapped));
        lemma_shuffle_permutes(swapped, (i - 1) as nat, next);
    }
}

/// The seed of one mixture's listening set.
pub fn mixture_seed(seed: u64, index: usize) -> (own: u64)
    ensures
        own == seed.wrapping_add(index as u64),
{
    seed.wrapping_add(index as u64)
}

/// The state in which the generator gives a number.
pub open spec fn unmixed(given: u64) -> u64 {
    let b = given ^ (given >> 31) ^ (given >> 62);
    let c = b.wrapping_mul(0x3196_42b2_d24d_8ec3);
    let a = c ^ (c >> 27) ^ (c >> 54);
    let d = a.wrapping_mul(0x96de_1b17_3f11_9089);
    d ^ (d >> 30) ^ (d >> 60)
}

/// What the generator gives tells its state, so that no two states give the same.
pub proof fn law_generator_can_be_undone(state: u64)
    ensures
        unmixed(mixed(state)) == state,
{
    let x = state ^ (state >> 30);
    let a = x.wrapping_mul(0xbf58_476d_1ce4_e5b9);
    let y = a ^ (a >> 27);
    let b = y.wrapping_mul(0x94d0_49bb_1331_11eb);
    let z = b ^ (b >> 31);
    assert(z == mixed(state));
    assert(z ^ (z >> 31) ^ (z >> 62) == b) by (bit_vector)
        requires
            z == b ^ (b >> 31),
    ;
    lemma_undo_second(y);
    assert(y ^ (y >> 27) ^ (y >> 54) == a) by (bit_vector)
        requires
            y == a ^ (a >> 27),
    ;
    lemma_undo_first(x);
    assert(x ^ (x >> 30) ^ (x >> 60) == state) by (bit_vector)
        requires
            x == state ^ (state >> 30),
    ;
}

proof fn lemma_undo_first(x: u64)
    ensures
        x.wrapping_mul(0xbf58_476d_1ce4_e5b9).wrapping_mul(0x96de_1b17_3f11_9089) == x,
{
    lemma_undo(x, 0xbf58_476d_1ce4_e5b9, 0x96de_1b17_3f11_9089, 8125545580553827436);
}

proof fn lemma_undo_second(x: u64)
    ensures
        x.wrapping_mul(0x94d0_49bb_1331_11eb).wrapping_mul(0x3196_42b2_d24d_8ec3) == x,
{
    lemma_undo(x, 0x94d0_49bb_1331_11eb, 0x3196_42b2_d24d_8ec3, 2077064247507883091);
}

/// A factor and its inverse undo each other.
proof fn lemma_undo(x: u64, factor: u64, inverse: u64, wraps: int)
    requires
        factor * inverse == 1 + wraps * 0x1_0000_0000_0000_0000,
    ensures
        x.wrapping_mul(factor).wrapping_mul(inverse) == x,
{
    let m = 0x1_0000_0000_0000_0000int;
    let p = x as int * factor as int;
    let q = p / m;
    let r = p % m;
    vstd::arithmetic::div_mod::lemma_fundamental_div_mod(p, m);
    assert(r == x.wrapping_mul(factor));
    let s = r * inverse as int;
    assert(s == x + (x as int * wraps - q * inverse as int) * m) by (nonlinear_arith)
        requires
            s == r * inverse as int,
            p == m * q + r,
            p == x as int * factor as int,
            factor * inverse == 1 + wraps * m,
    ;
    let k = x as int * wraps - q * inverse as int;
    vstd::arithmetic::div_mod::lemma_fundamental_div_mod_converse(s, m, k, x as int);
}

/// The last place of the blind order is the first draw, taken modulo the number of
/// models: no later draw touches it.
pub proof fn law_last_place_is_the_first_draw(n: nat, seed: u64)
    requires
        1 < n <= usize::MAX,
    ensures
        blind(n, seed)[n - 1] == mixed(stepped(seed ^ GOLDEN_GAMMA)) as int % n as int,
{
    let order = counting(n);
    let last = (n - 1) as nat;
    let next = stepped(seed ^ GOLDEN_GAMMA);
    let j = mixed(next) as int % (last + 1int);
    lemma_later_places_stay(exchanged(order, last as int, j), (last - 1) as nat, next, last as int);
}

/// Shuffling the places up to one leaves those behind it.
proof fn lemma_later_places_stay(order: Seq<usize>, i: nat, state: u64, place: int)
    requires
        i < place < order.len(),
    ensures
        shuffled(order, i, state)[place] == order[place],
    decreases i,
{
    if i > 0 {
        let next = stepped(state);
        let j = mixed(next) as int % (i + 1int);
        lemma_later_places_stay(
            exchanged(order, i as int, j),
            (i - 1) as nat,
            next,
            place,
        );
    }
}

/// The message for a recording that is too short says which one it is, how long it is,
/// and how long it must be.
pub proof fn law_short_recordings_are_named(which: Seq<char>, len: int, segment_len: int)
    ensures
        ({
            let told = short_message(which, len, segment_len);
            &&& told.take(which.len() as int) == which
            &&& text::stands_behind(
                told,
                which,
                " recording too short: "@,
                text::decimal(len as nat),
            )
            &&& text::ends_with(told, text::decimal((2 * segment_len) as nat))
        }),
{
    let told = short_message(which, len, segment_len);
    let start = (which.len() + " recording too short: "@.len()) as int;
    let have = text::decimal(len as nat);
    let need = text::decimal((2 * segment_len) as nat);
    assert(told.take(which.len() as int) =~= which);
    assert(told.take(start) =~= which + " recording too short: "@);
    assert(told.subrange(start, start + have.len()) =~= have);
    assert(told.skip(told.len() - need.len()) =~= need);
}

} // verus!
