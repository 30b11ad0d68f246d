//! Streams cut into frames of one length.

use vstd::prelude::*;

verus! {

/// Frame `k` of a stream.
pub open spec fn cut(stream: Seq<u32>, frame: nat, k: int) -> Seq<u32> {
    stream.subrange(k * frame, (k + 1) * frame)
}

/// Where the frames of a stream lie.
pub proof fn lemma_next_frame(k: int, frame: nat)
    requires
        k >= 0,
    ensures
        k * frame >= 0,
        (k + 1) * frame == k * frame + frame,
        (k + 1) * frame >= k * frame,
{
    assert(k * frame >= 0) by (nonlinear_arith)
        requires
            k >= 0,
            frame >= 0,
    ;
    assert((k + 1) * frame == k * frame + frame) by (nonlinear_arith);
}

/// The number of complete frames is the one that leaves less than a frame.
pub proof fn lemma_complete_frames(len: nat, frame: nat, count: nat)
    requires
        frame > 0,
        count * frame <= len,
        len - count * frame < frame,
    ensures
        count == len / frame,
{
    vstd::arithmetic::div_mod::lemma_fundamental_div_mod(len as int, frame as int);
    vstd::arithmetic::div_mod::lemma_mod_bound(len as int, frame as int);
    let whole = (len / frame) as int;
    let rest = (len % frame) as int;
    assert(count == whole) by (nonlinear_arith)
        requires
            len == frame * whole + rest,
            0 <= rest < frame,
            count * frame <= len,
            len - count * frame < frame,
            frame > 0,
    ;
}

/// Complete frames never hold more than there is.
pub proof fn lemma_complete_frames_fit(len: nat, frame: nat)
    requires
        frame > 0,
    ensures
        (len / frame) * frame <= len,
        len - (len / frame) * frame < frame,
{
    vstd::arithmetic::div_mod::lemma_fundamental_div_mod(len as int, frame as int);
    vstd::arithmetic::div_mod::lemma_mod_bound(len as int, frame as int);
    let whole = (len / frame) as int;
    assert(frame * whole == whole * frame) by (nonlinear_arith);
}

} // verus!
