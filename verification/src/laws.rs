//! Laws of the downsampling model, stated over the spec functions the
//! executable contracts use.

use vstd::prelude::*;

use crate::model::bucket_window;
use crate::model::clamped_hi;
use crate::model::clamped_lo;
use crate::model::covered_end;
use crate::model::downsampled_index;
use crate::model::downsampled_value;
use crate::model::lemma_entries_len;
use crate::model::lemma_extremes_in_seq;
use crate::model::lemma_index_entries_at;
use crate::model::lemma_value_entries_at;
use crate::model::planned_buckets;
use crate::model::planned_window;
use crate::model::result_buckets;
use crate::model::seq_max;
use crate::model::seq_min;

verus! {

/// Both output sequences always hold exactly two entries per bucket.
pub proof fn lemma_output_shape(values: Seq<i64>, mn: int, mx: int, down_count: int)
    ensures
        downsampled_index(values, mn, mx, down_count).len() == 2 * result_buckets(
            values.len() as int,
            mn,
            mx,
            down_count,
        ),
        downsampled_value(values, mn, mx, down_count).len() == 2 * result_buckets(
            values.len() as int,
            mn,
            mx,
            down_count,
        ),
{
    let len = values.len() as int;
    let lo = clamped_lo(len, mn);
    let hi = clamped_hi(len, mn, mx);
    if !(lo >= hi || down_count == 0) {
        let ws = planned_window(hi - lo, down_count);
        let bc = planned_buckets(hi - lo, down_count);
        vstd::arithmetic::div_mod::lemma_div_pos_is_pos(hi - lo, ws);
        lemma_entries_len(values, lo, hi, ws, 0, bc);
    }
}

/// There are never more buckets than the clamped range has samples, whatever
/// target count the caller asked for.
pub proof fn lemma_bucket_count_bound(len: int, mn: int, mx: int, down_count: int)
    ensures
        0 <= result_buckets(len, mn, mx, down_count) <= clamped_hi(len, mn, mx) - clamped_lo(
            len,
            mn,
        ),
{
    let lo = clamped_lo(len, mn);
    let hi = clamped_hi(len, mn, mx);
    if !(lo >= hi || down_count == 0) {
        let ws = planned_window(hi - lo, down_count);
        vstd::arithmetic::div_mod::lemma_div_pos_is_pos(hi - lo, ws);
        vstd::arithmetic::div_mod::lemma_div_nonincreasing(hi - lo, ws);
    }
}

/// Bucket `b` of the output carries one sample as its own extreme pair: both
/// index entries hold the sample's absolute index and both value entries the
/// sample itself.
pub open spec fn own_sample_entries(
    values: Seq<i64>,
    mn: int,
    mx: int,
    down_count: int,
    b: int,
) -> bool {
    let lo = clamped_lo(values.len() as int, mn);
    let di = downsampled_index(values, mn, mx, down_count);
    let dv = downsampled_value(values, mn, mx, down_count);
    di[2 * b] == ((lo + b) as i32) && di[2 * b + 1] == ((lo + b) as i32) && dv[2 * b] == values[lo
        + b] && dv[2 * b + 1] == values[lo + b]
}

/// Full resolution: when the target bucket count covers the whole clamped
/// range, every sample becomes a bucket of its own, appearing twice in the
/// value sequence — once as its bucket's maximum and once as its minimum —
/// with its own absolute index on both entries.
pub proof fn lemma_full_resolution(values: Seq<i64>, mn: int, mx: int, down_count: int)
    requires
        values.len() <= i32::MAX as int,
        0 <= mn,
        0 <= mx,
        down_count >= clamped_hi(values.len() as int, mn, mx) - clamped_lo(
            values.len() as int,
            mn,
        ) > 0,
    ensures
        planned_window(
            clamped_hi(values.len() as int, mn, mx) - clamped_lo(values.len() as int, mn),
            down_count,
        ) == 1,
        result_buckets(values.len() as int, mn, mx, down_count) == clamped_hi(
            values.len() as int,
            mn,
            mx,
        ) - clamped_lo(values.len() as int, mn),
        forall|b: int|
            0 <= b < result_buckets(values.len() as int, mn, mx, down_count)
                ==> #[trigger] own_sample_entries(values, mn, mx, down_count, b),
{
    let len = values.len() as int;
    let lo = clamped_lo(len, mn);
    let hi = clamped_hi(len, mn, mx);
    let tl = hi - lo;
    if down_count > tl {
        vstd::arithmetic::div_mod::lemma_basic_div(tl, down_count);
    } else {
        vstd::arithmetic::div_mod::lemma_div_by_self(tl);
    }
    assert(planned_window(tl, down_count) == 1);
    vstd::arithmetic::div_mod::lemma_div_basics(tl);
    assert(planned_buckets(tl, down_count) == tl);
    assert forall|b: int|
        0 <= b < result_buckets(len, mn, mx, down_count) implies #[trigger] own_sample_entries(
        values,
        mn,
        mx,
        down_count,
        b,
    ) by {
        lemma_index_entries_at(lo, 1, 0, tl, 2 * b);
        lemma_index_entries_at(lo, 1, 0, tl, 2 * b + 1);
        lemma_value_entries_at(values, lo, hi, 1, 0, tl, 2 * b);
        lemma_value_entries_at(values, lo, hi, 1, 0, tl, 2 * b + 1);
        assert((2 * b) / 2 == b && (2 * b + 1) / 2 == b);
        assert((2 * b) % 2 == 0 && (2 * b + 1) % 2 == 1);
        let window = bucket_window(values, lo, hi, 1, b);
        assert(window =~= seq![values[lo + b]]);
        assert(window.drop_last() =~= Seq::<i64>::empty());
        assert(seq_max(Seq::<i64>::empty()) == i64::MIN);
        assert(seq_min(Seq::<i64>::empty()) == i64::MAX);
        assert(window.last() == values[lo + b]);
        assert(seq_max(window) == values[lo + b]);
        assert(seq_min(window) == values[lo + b]);
    }
}

/// Order preservation: the bucket start indices in the output are strictly
/// ascending, so the reduced sequences keep the temporal order of the input.
pub proof fn lemma_order_preservation(values: Seq<i64>, mn: int, mx: int, down_count: int)
    requires
        values.len() <= i32::MAX as int,
        0 <= mn,
        0 <= mx,
    ensures
        forall|a: int, b: int|
            #![trigger downsampled_index(values, mn, mx, down_count)[2 * a], downsampled_index(values, mn, mx, down_count)[2 * b]]
            0 <= a < b < result_buckets(values.len() as int, mn, mx, down_count) ==> (downsampled_index(
                values,
                mn,
                mx,
                down_count,
            )[2 * a] as int) < (downsampled_index(values, mn, mx, down_count)[2 * b] as int),
{
    let len = values.len() as int;
    let lo = clamped_lo(len, mn);
    let hi = clamped_hi(len, mn, mx);
    let bc = result_buckets(len, mn, mx, down_count);
    assert forall|a: int, b: int|
        #![trigger downsampled_index(values, mn, mx, down_count)[2 * a], downsampled_index(values, mn, mx, down_count)[2 * b]]
        0 <= a < b < bc implies (downsampled_index(
        values,
        mn,
        mx,
        down_count,
    )[2 * a] as int) < (downsampled_index(values, mn, mx, down_count)[2 * b] as int) by {
        let tl = hi - lo;
        let ws = planned_window(tl, down_count);
        vstd::arithmetic::div_mod::lemma_remainder_lower(tl, ws);
        lemma_index_entries_at(lo, ws, 0, bc, 2 * a);
        lemma_index_entries_at(lo, ws, 0, bc, 2 * b);
        assert((2 * a) / 2 == a && (2 * b) / 2 == b);
        vstd::arithmetic::mul::lemma_mul_nonnegative(a, ws);
        vstd::arithmetic::mul::lemma_mul_strict_inequality(a, b, ws);
        vstd::arithmetic::mul::lemma_mul_inequality(b, bc - 1, ws);
        vstd::arithmetic::mul::lemma_mul_is_distributive_sub_other_way(ws, bc, 1);
        assert(0 <= lo + a * ws < lo + b * ws <= lo + (bc - 1) * ws <= hi - ws < i32::MAX as int);
    }
}

/// Truncation: every output entry comes from the covered prefix of the
/// clamped range — an index entry points into it, and a value entry occurs
/// among its samples — so samples past `covered_end` never appear.
pub proof fn lemma_truncation(values: Seq<i64>, mn: int, mx: int, down_count: int)
    requires
        values.len() <= i32::MAX as int,
        0 <= mn,
        0 <= mx,
    ensures
        forall|k: int|
            #![trigger downsampled_index(values, mn, mx, down_count)[k]]
            0 <= k < downsampled_index(values, mn, mx, down_count).len() ==> clamped_lo(
                values.len() as int,
                mn,
            ) <= (downsampled_index(values, mn, mx, down_count)[k] as int) < covered_end(
                values.len() as int,
                mn,
                mx,
                down_count,
            ),
        forall|k: int|
            #![trigger downsampled_value(values, mn, mx, down_count)[k]]
            0 <= k < downsampled_value(values, mn, mx, down_count).len() ==> values.subrange(
                clamped_lo(values.len() as int, mn),
                covered_end(values.len() as int, mn, mx, down_count),
            ).contains(downsampled_value(values, mn, mx, down_count)[k]),
{
    let len = values.len() as int;
    let lo = clamped_lo(len, mn);
    let hi = clamped_hi(len, mn, mx);
    let di = downsampled_index(values, mn, mx, down_count);
    let dv = downsampled_value(values, mn, mx, down_count);
    lemma_output_shape(values, mn, mx, down_count);
    let bc = result_buckets(len, mn, mx, down_count);
    let tl = hi - lo;
    let ws = planned_window(tl, down_count);
    let end = covered_end(len, mn, mx, down_count);
    assert forall|k: int| #![trigger di[k]] 0 <= k < di.len() implies lo <= (di[k] as int)
        < end by {
        vstd::arithmetic::div_mod::lemma_remainder_lower(tl, ws);
        lemma_index_entries_at(lo, ws, 0, bc, k);
        let b = k / 2;
        vstd::arithmetic::mul::lemma_mul_nonnegative(b, ws);
        vstd::arithmetic::mul::lemma_mul_strict_inequality(b, bc, ws);
        assert(0 <= lo + b * ws < lo + bc * ws <= hi);
    }
    assert forall|k: int| #![trigger dv[k]] 0 <= k < dv.len() implies values.subrange(
        lo,
        end,
    ).contains(dv[k]) by {
        vstd::arithmetic::div_mod::lemma_remainder_lower(tl, ws);
        lemma_value_entries_at(values, lo, hi, ws, 0, bc, k);
        let b = k / 2;
        vstd::arithmetic::mul::lemma_mul_nonnegative(b, ws);
        vstd::arithmetic::mul::lemma_mul_strict_inequality(b, bc, ws);
        vstd::arithmetic::mul::lemma_mul_is_distributive_add_other_way(ws, b, 1);
        assert((b + 1) * ws <= bc * ws) by {
            vstd::arithmetic::mul::lemma_mul_inequality(b + 1, bc, ws);
        }
        let window = bucket_window(values, lo, hi, ws, b);
        assert(window.len() == ws >= 1);
        lemma_extremes_in_seq(window);
        let j = choose|j: int| 0 <= j < window.len() && window[j] == dv[k];
        assert(values.subrange(lo, end)[b * ws + j] == dv[k]);
    }
}

} // verus!
