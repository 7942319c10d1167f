//! Mathematical model of the downsampling pipeline: range clamping, window
//! planning, per-bucket extremes, and the output sequences each stage owes.

use vstd::prelude::*;

verus! {

/// Lower bound of the clamped sub-range: the requested start, cut to `len`.
pub open spec fn clamped_lo(len: int, mn: int) -> int {
    vstd::math::min(mn, len)
}

/// Upper bound of the clamped sub-range: the requested end, cut to `len` and
/// raised to the clamped lower bound, so that the range is never inverted.
pub open spec fn clamped_hi(len: int, mn: int, mx: int) -> int {
    vstd::math::max(vstd::math::min(mx, len), clamped_lo(len, mn))
}

/// Planned bucket width: the clamped range length divided (flooring) by the
/// requested bucket count, but never below one sample.
pub open spec fn planned_window(total_len: int, down_count: int) -> int
    recommends
        1 <= down_count,
{
    vstd::math::max(1, total_len / down_count)
}

/// Number of full buckets of the planned width that fit in the clamped range;
/// trailing samples beyond `planned_buckets * planned_window` are dropped.
pub open spec fn planned_buckets(total_len: int, down_count: int) -> int
    recommends
        1 <= down_count,
{
    total_len / planned_window(total_len, down_count)
}

/// Number of buckets the whole operation yields, degenerate inputs included.
pub open spec fn result_buckets(len: int, mn: int, mx: int, down_count: int) -> int {
    let lo = clamped_lo(len, mn);
    let hi = clamped_hi(len, mn, mx);
    if lo >= hi || down_count == 0 {
        0
    } else {
        planned_buckets(hi - lo, down_count)
    }
}

/// One past the absolute index of the last sample any bucket covers;
/// samples from here on are dropped by the flooring window plan.
pub open spec fn covered_end(len: int, mn: int, mx: int, down_count: int) -> int {
    let lo = clamped_lo(len, mn);
    let hi = clamped_hi(len, mn, mx);
    if lo >= hi || down_count == 0 {
        lo
    } else {
        lo + planned_buckets(hi - lo, down_count) * planned_window(hi - lo, down_count)
    }
}

/// First bucket of worker `w` when each worker takes `cs` consecutive
/// buckets out of `bc`; workers past the end get an empty range.
pub open spec fn chunk_first(w: int, cs: int, bc: int) -> int {
    vstd::math::min(w * cs, bc)
}

/// One past the last bucket of worker `w`: the next worker's first bucket.
pub open spec fn chunk_last(w: int, cs: int, bc: int) -> int {
    chunk_first(w + 1, cs, bc)
}

/// Maximum of a sample sequence, folded from the least key (the fold's seed),
/// so that the maximum of an empty sequence is the seed itself.
pub open spec fn seq_max(s: Seq<i64>) -> i64
    decreases s.len(),
{
    if s.len() == 0 {
        i64::MIN
    } else {
        let m = seq_max(s.drop_last());
        if s.last() >= m {
            s.last()
        } else {
            m
        }
    }
}

/// Minimum of a sample sequence, folded from the greatest key.
pub open spec fn seq_min(s: Seq<i64>) -> i64
    decreases s.len(),
{
    if s.len() == 0 {
        i64::MAX
    } else {
        let m = seq_min(s.drop_last());
        if s.last() <= m {
            s.last()
        } else {
            m
        }
    }
}

/// Absolute index of the first sample of bucket `b`.
pub open spec fn bucket_start(lo: int, ws: int, b: int) -> int {
    lo + b * ws
}

/// The samples of bucket `b`: a window of width `ws` starting at the bucket's
/// first sample, cut to the clamped range's end.
pub open spec fn bucket_window(values: Seq<i64>, lo: int, hi: int, ws: int, b: int) -> Seq<i64> {
    values.subrange(bucket_start(lo, ws, b), vstd::math::min(bucket_start(lo, ws, b) + ws, hi))
}

/// Index entries of buckets `b0 .. b1`: each bucket contributes its start
/// index twice, once for the maximum and once for the minimum entry.
pub open spec fn index_entries(lo: int, ws: int, b0: int, b1: int) -> Seq<i32>
    decreases b1 - b0,
{
    if b0 >= b1 {
        Seq::empty()
    } else {
        index_entries(lo, ws, b0, b1 - 1)
            + seq![(bucket_start(lo, ws, b1 - 1) as i32), (bucket_start(lo, ws, b1 - 1) as i32)]
    }
}

/// Value entries of buckets `b0 .. b1`: each bucket contributes its maximum
/// followed by its minimum.
pub open spec fn value_entries(
    values: Seq<i64>,
    lo: int,
    hi: int,
    ws: int,
    b0: int,
    b1: int,
) -> Seq<i64>
    decreases b1 - b0,
{
    if b0 >= b1 {
        Seq::empty()
    } else {
        value_entries(values, lo, hi, ws, b0, b1 - 1)
            + seq![
            seq_max(bucket_window(values, lo, hi, ws, b1 - 1)),
            seq_min(bucket_window(values, lo, hi, ws, b1 - 1)),
        ]
    }
}

/// The index sequence the whole operation owes for the given inputs.
pub open spec fn downsampled_index(values: Seq<i64>, mn: int, mx: int, down_count: int) -> Seq<
    i32,
> {
    let lo = clamped_lo(values.len() as int, mn);
    let hi = clamped_hi(values.len() as int, mn, mx);
    if lo >= hi || down_count == 0 {
        Seq::empty()
    } else {
        index_entries(lo, planned_window(hi - lo, down_count), 0, planned_buckets(hi - lo, down_count))
    }
}

/// The value sequence the whole operation owes for the given inputs.
pub open spec fn downsampled_value(values: Seq<i64>, mn: int, mx: int, down_count: int) -> Seq<
    i64,
> {
    let lo = clamped_lo(values.len() as int, mn);
    let hi = clamped_hi(values.len() as int, mn, mx);
    if lo >= hi || down_count == 0 {
        Seq::empty()
    } else {
        value_entries(
            values,
            lo,
            hi,
            planned_window(hi - lo, down_count),
            0,
            planned_buckets(hi - lo, down_count),
        )
    }
}

/// Both entry sequences of a bucket range have twice as many entries as the
/// range has buckets.
pub proof fn lemma_entries_len(values: Seq<i64>, lo: int, hi: int, ws: int, b0: int, b1: int)
    ensures
        index_entries(lo, ws, b0, b1).len() == if b0 <= b1 { 2 * (b1 - b0) } else { 0int },
        value_entries(values, lo, hi, ws, b0, b1).len() == if b0 <= b1 {
            2 * (b1 - b0)
        } else {
            0int
        },
    decreases b1 - b0,
{
    if b0 < b1 {
        lemma_entries_len(values, lo, hi, ws, b0, b1 - 1);
    }
}

/// Entry `k` of a bucket range's index sequence belongs to bucket `b0 + k / 2`
/// and holds that bucket's start index.
pub proof fn lemma_index_entries_at(lo: int, ws: int, b0: int, b1: int, k: int)
    requires
        b0 <= b1,
        0 <= k < 2 * (b1 - b0),
    ensures
        index_entries(lo, ws, b0, b1).len() == 2 * (b1 - b0),
        index_entries(lo, ws, b0, b1)[k] == (bucket_start(lo, ws, b0 + k / 2) as i32),
    decreases b1 - b0,
{
    lemma_entries_len(Seq::empty(), lo, 0, ws, b0, b1);
    lemma_entries_len(Seq::empty(), lo, 0, ws, b0, b1 - 1);
    if k < 2 * (b1 - 1 - b0) {
        lemma_index_entries_at(lo, ws, b0, b1 - 1, k);
    }
}

/// Entry `k` of a bucket range's value sequence belongs to bucket `b0 + k / 2`
/// and holds that bucket's maximum when `k` is even, its minimum when odd.
pub proof fn lemma_value_entries_at(
    values: Seq<i64>,
    lo: int,
    hi: int,
    ws: int,
    b0: int,
    b1: int,
    k: int,
)
    requires
        b0 <= b1,
        0 <= k < 2 * (b1 - b0),
    ensures
        value_entries(values, lo, hi, ws, b0, b1).len() == 2 * (b1 - b0),
        value_entries(values, lo, hi, ws, b0, b1)[k] == if k % 2 == 0 {
            seq_max(bucket_window(values, lo, hi, ws, b0 + k / 2))
        } else {
            seq_min(bucket_window(values, lo, hi, ws, b0 + k / 2))
        },
    decreases b1 - b0,
{
    lemma_entries_len(values, lo, hi, ws, b0, b1);
    lemma_entries_len(values, lo, hi, ws, b0, b1 - 1);
    if k < 2 * (b1 - 1 - b0) {
        lemma_value_entries_at(values, lo, hi, ws, b0, b1 - 1, k);
    }
}

/// Entry sequences of adjacent bucket ranges concatenate to the entry
/// sequence of the combined range.
pub proof fn lemma_entries_concat(
    values: Seq<i64>,
    lo: int,
    hi: int,
    ws: int,
    b0: int,
    bm: int,
    b1: int,
)
    requires
        b0 <= bm <= b1,
    ensures
        index_entries(lo, ws, b0, b1) == index_entries(lo, ws, b0, bm) + index_entries(
            lo,
            ws,
            bm,
            b1,
        ),
        value_entries(values, lo, hi, ws, b0, b1) == value_entries(values, lo, hi, ws, b0, bm)
            + value_entries(values, lo, hi, ws, bm, b1),
    decreases b1 - bm,
{
    if bm == b1 {
        assert(index_entries(lo, ws, b0, b1) =~= index_entries(lo, ws, b0, bm) + index_entries(
            lo,
            ws,
            bm,
            b1,
        ));
        assert(value_entries(values, lo, hi, ws, b0, b1) =~= value_entries(
            values,
            lo,
            hi,
            ws,
            b0,
            bm,
        ) + value_entries(values, lo, hi, ws, bm, b1));
    } else {
        lemma_entries_concat(values, lo, hi, ws, b0, bm, b1 - 1);
        assert(index_entries(lo, ws, b0, b1) =~= index_entries(lo, ws, b0, bm) + index_entries(
            lo,
            ws,
            bm,
            b1,
        ));
        assert(value_entries(values, lo, hi, ws, b0, b1) =~= value_entries(
            values,
            lo,
            hi,
            ws,
            b0,
            bm,
        ) + value_entries(values, lo, hi, ws, bm, b1));
    }
}

/// A non-empty sequence contains its maximum, and no sample above it; it
/// contains its minimum, and no sample below it.
pub proof fn lemma_extremes_in_seq(s: Seq<i64>)
    requires
        s.len() > 0,
    ensures
        s.contains(seq_max(s)),
        s.contains(seq_min(s)),
        forall|i: int| 0 <= i < s.len() ==> s[i] <= seq_max(s),
        forall|i: int| 0 <= i < s.len() ==> s[i] >= seq_min(s),
    decreases s.len(),
{
    if s.len() == 1 {
        assert(s[0] == s.last());
    } else {
        lemma_extremes_in_seq(s.drop_last());
        assert forall|i: int| 0 <= i < s.len() implies s[i] <= seq_max(s) && s[i] >= seq_min(
            s,
        ) by {
            if i < s.len() - 1 {
                assert(s.drop_last()[i] == s[i]);
            }
        }
        if s.last() < seq_max(s) {
            let j = choose|j: int| 0 <= j < s.drop_last().len() && s.drop_last()[j] == seq_max(s);
            assert(s[j] == seq_max(s));
        }
        if s.last() > seq_min(s) {
            let j = choose|j: int| 0 <= j < s.drop_last().len() && s.drop_last()[j] == seq_min(s);
            assert(s[j] == seq_min(s));
        }
    }
}

} // verus!
