//! Range clamping and window planning: the two stages that turn the caller's
//! raw bounds and target bucket count into a valid bucket layout.

use vstd::prelude::*;

use crate::model::clamped_hi;
use crate::model::clamped_lo;
use crate::model::planned_buckets;
use crate::model::planned_window;

verus! {

/// Clamps the requested sub-range `[mn, mx)` to a sequence of length `len`.
/// Out-of-range or inverted bounds are normalized silently: the start is cut
/// to `len`, the end is cut to `len` and then raised to the start, so the
/// clamped range is never inverted.
pub fn clamp_range(mn: usize, mx: usize, len: usize) -> (r: (usize, usize))
    ensures
        r.0 == clamped_lo(len as int, mn as int),
        r.1 == clamped_hi(len as int, mn as int, mx as int),
        r.0 <= r.1 <= len,
{
    let lo: usize = if mn < len {
        mn
    } else {
        len
    };
    let cut: usize = if mx < len {
        mx
    } else {
        len
    };
    let hi: usize = if cut > lo {
        cut
    } else {
        lo
    };
    (lo, hi)
}

/// Plans the bucket layout for a clamped range of `total_len` samples and a
/// target of `down_count` buckets: the bucket width (flooring, never zero)
/// and the number of full buckets of that width. The buckets never cover more
/// than `total_len` samples, and there are never more buckets than samples.
pub fn plan_windows(total_len: usize, down_count: usize) -> (r: (usize, usize))
    requires
        1 <= total_len,
        1 <= down_count,
    ensures
        r.0 == planned_window(total_len as int, down_count as int),
        r.1 == planned_buckets(total_len as int, down_count as int),
        1 <= r.0 <= total_len,
        1 <= r.1 <= total_len,
        r.1 * r.0 <= total_len,
{
    let q: usize = total_len / down_count;
    proof {
        vstd::arithmetic::div_mod::lemma_div_nonincreasing(total_len as int, down_count as int);
    }
    let ws: usize = if q == 0 {
        1
    } else {
        q
    };
    let bc: usize = total_len / ws;
    proof {
        vstd::arithmetic::div_mod::lemma_div_nonincreasing(total_len as int, ws as int);
        vstd::arithmetic::div_mod::lemma_div_non_zero(total_len as int, ws as int);
        vstd::arithmetic::div_mod::lemma_remainder_lower(total_len as int, ws as int);
    }
    (ws, bc)
}

} // verus!
