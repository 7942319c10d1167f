//! Min/max downsampling of large ordered sample sequences.
//!
//! The library reduces an ordered sequence of samples to a bounded number of
//! fixed-width buckets, keeping the extreme (maximum and minimum) value of
//! each bucket so that a rendering of the reduced data preserves spikes.
//! Samples are held as `i64` keys; a caller that works in another totally
//! ordered sample domain maps its values through an order-preserving key
//! first and maps the reduced values back.

use vstd::prelude::*;

pub mod laws;
pub mod model;
pub mod par;
pub mod plan;
pub mod reduce;

use crate::model::chunk_first;
use crate::model::chunk_last;
use crate::model::downsampled_index;
use crate::model::downsampled_value;
use crate::model::index_entries;
use crate::model::lemma_entries_concat;
use crate::model::lemma_entries_len;
use crate::model::result_buckets;
use crate::model::value_entries;
use crate::par::par_reduce_chunks;
use crate::par::worker_count;
use crate::plan::clamp_range;
use crate::plan::plan_windows;

verus! {

/// Appends a copy of `src` to `dst`.
fn extend_vec<T: Copy>(dst: &mut Vec<T>, src: &Vec<T>)
    ensures
        final(dst)@ == old(dst)@ + src@,
{
    let ghost dst0 = dst@;
    proof {
        assert(dst0 + src@.subrange(0, 0) =~= dst0);
    }
    let mut k: usize = 0;
    while k < src.len()
        invariant
            k <= src@.len(),
            dst@ == dst0 + src@.subrange(0, k as int),
        decreases src@.len() - k,
    {
        dst.push(src[k]);
        k += 1;
        proof {
            assert(dst0 + src@.subrange(0, k as int) =~= (dst0 + src@.subrange(0, k - 1)).push(
                src@[k - 1],
            ));
        }
    }
    proof {
        assert(src@.subrange(0, src@.len() as int) =~= src@);
    }
}

/// The chunk width `cs` that deals `bc` buckets out to `nt` workers covers
/// all buckets, and not more than twice over.
proof fn lemma_chunking(bc: int, nt: int, cs: int) by (nonlinear_arith)
    requires
        1 <= nt <= bc,
        cs == bc / nt + if bc % nt != 0 {
            1int
        } else {
            0int
        },
    ensures
        1 <= cs <= bc,
        bc <= nt * cs <= 2 * bc,
{
}

/// Downsamples the sub-range `[mn, mx)` of `values` (bounds clamped, see
/// [`clamp_range`]) to at most `down_count` min/max buckets (width and count
/// planned by [`plan_windows`]). Every bucket contributes two entries to each
/// returned sequence: its start index, held twice in the index sequence, and
/// its maximum followed by its minimum in the value sequence, in ascending
/// bucket order. Degenerate inputs (an empty clamped range, or a target of
/// zero buckets) yield two empty sequences.
pub fn down_sample(values: &Vec<i64>, mn: usize, mx: usize, down_count: usize) -> (r: (
    Vec<i32>,
    Vec<i64>,
))
    requires
        values@.len() <= i32::MAX as int,
    ensures
        r.0@ == downsampled_index(values@, mn as int, mx as int, down_count as int),
        r.1@ == downsampled_value(values@, mn as int, mx as int, down_count as int),
        r.0@.len() == r.1@.len(),
        r.0@.len() == 2 * result_buckets(
            values@.len() as int,
            mn as int,
            mx as int,
            down_count as int,
        ),
        down_count == 0 ==> r.0@.len() == 0 && r.1@.len() == 0,
{
    let len: usize = values.len();
    let (lo, hi) = clamp_range(mn, mx, len);
    if lo >= hi || down_count == 0 {
        return (Vec::new(), Vec::new());
    }
    let total_len: usize = hi - lo;
    let (ws, bc) = plan_windows(total_len, down_count);
    if bc == 0 {
        return (Vec::new(), Vec::new());
    }
    let pool: usize = worker_count();
    let nt: usize = if pool <= bc {
        pool
    } else {
        bc
    };
    let cs: usize = bc / nt + if bc % nt != 0 {
        1
    } else {
        0
    };
    proof {
        lemma_chunking(bc as int, nt as int, cs as int);
    }
    let parts = par_reduce_chunks(values, lo, hi, ws, bc, cs, nt);
    let mut out_index: Vec<i32> = Vec::new();
    let mut out_value: Vec<i64> = Vec::new();
    let mut w: usize = 0;
    proof {
        assert(out_index@ =~= index_entries(lo as int, ws as int, 0, 0));
        assert(out_value@ =~= value_entries(values@, lo as int, hi as int, ws as int, 0, 0));
    }
    while w < nt
        invariant
            w <= nt,
            parts@.len() == nt as int,
            lo <= hi <= values@.len() <= i32::MAX as int,
            1 <= ws,
            bc * ws <= hi - lo,
            1 <= cs,
            bc as int <= nt as int * cs as int,
            forall|u: int|
                0 <= u < nt as int ==> (#[trigger] parts@[u]).0@ == index_entries(
                    lo as int,
                    ws as int,
                    chunk_first(u, cs as int, bc as int),
                    chunk_last(u, cs as int, bc as int),
                ),
            forall|u: int|
                0 <= u < nt as int ==> (#[trigger] parts@[u]).1@ == value_entries(
                    values@,
                    lo as int,
                    hi as int,
                    ws as int,
                    chunk_first(u, cs as int, bc as int),
                    chunk_last(u, cs as int, bc as int),
                ),
            out_index@ == index_entries(
                lo as int,
                ws as int,
                0,
                chunk_first(w as int, cs as int, bc as int),
            ),
            out_value@ == value_entries(
                values@,
                lo as int,
                hi as int,
                ws as int,
                0,
                chunk_first(w as int, cs as int, bc as int),
            ),
        decreases nt - w,
    {
        let part = &parts[w];
        extend_vec(&mut out_index, &part.0);
        extend_vec(&mut out_value, &part.1);
        proof {
            assert((w as int) * (cs as int) <= (w as int + 1) * (cs as int)) by (nonlinear_arith)
                requires
                    0 <= w as int,
                    0 <= cs as int,
            ;
            lemma_entries_concat(
                values@,
                lo as int,
                hi as int,
                ws as int,
                0,
                chunk_first(w as int, cs as int, bc as int),
                chunk_last(w as int, cs as int, bc as int),
            );
        }
        w += 1;
    }
    proof {
        lemma_entries_len(values@, lo as int, hi as int, ws as int, 0, bc as int);
    }
    (out_index, out_value)
}

} // verus!
