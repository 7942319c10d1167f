//! Bucketed min/max reduction: the per-bucket fold and the per-worker sweep
//! over a contiguous chunk of the bucket index space.

use vstd::prelude::*;

use crate::model::bucket_window;
use crate::model::chunk_first;
use crate::model::chunk_last;
use crate::model::index_entries;
use crate::model::seq_max;
use crate::model::seq_min;
use crate::model::value_entries;

verus! {

/// Folds one bucket's window to its extremes, seeding the maximum at the
/// least key and the minimum at the greatest, as the model's fold does.
fn reduce_bucket(values: &Vec<i64>, start: usize, stop: usize) -> (r: (i64, i64))
    requires
        start <= stop <= values@.len(),
    ensures
        r.0 == seq_max(values@.subrange(start as int, stop as int)),
        r.1 == seq_min(values@.subrange(start as int, stop as int)),
{
    let mut top: i64 = i64::MIN;
    let mut bot: i64 = i64::MAX;
    let mut j: usize = start;
    while j < stop
        invariant
            start <= j <= stop <= values@.len(),
            top == seq_max(values@.subrange(start as int, j as int)),
            bot == seq_min(values@.subrange(start as int, j as int)),
        decreases stop - j,
    {
        let v = values[j];
        proof {
            let grown = values@.subrange(start as int, j + 1);
            assert(grown.drop_last() =~= values@.subrange(start as int, j as int));
            assert(grown.last() == values@[j as int]);
        }
        if v > top {
            top = v;
        }
        if v < bot {
            bot = v;
        }
        j += 1;
    }
    (top, bot)
}

/// Processes worker `worker`'s chunk of the bucket index space: buckets
/// `worker * cs` (cut to `bc`) up to `(worker + 1) * cs` (cut to `bc`), each
/// reduced to its start index (twice) and its maximum and minimum.
pub fn reduce_chunk(
    values: &Vec<i64>,
    lo: usize,
    hi: usize,
    ws: usize,
    bc: usize,
    cs: usize,
    worker: usize,
) -> (r: (Vec<i32>, Vec<i64>))
    requires
        lo <= hi <= values@.len(),
        values@.len() <= i32::MAX as int,
        1 <= ws,
        bc * ws <= hi - lo,
        1 <= cs,
        (worker + 1) * cs <= usize::MAX,
    ensures
        r.0@ == index_entries(
            lo as int,
            ws as int,
            chunk_first(worker as int, cs as int, bc as int),
            chunk_last(worker as int, cs as int, bc as int),
        ),
        r.1@ == value_entries(
            values@,
            lo as int,
            hi as int,
            ws as int,
            chunk_first(worker as int, cs as int, bc as int),
            chunk_last(worker as int, cs as int, bc as int),
        ),
{
    proof {
        assert((worker as int) * (cs as int) + cs as int == (worker as int + 1) * (cs as int))
            by (nonlinear_arith);
    }
    let first: usize = worker * cs;
    if first >= bc {
        return (Vec::new(), Vec::new());
    }
    let past: usize = first + cs;
    let last: usize = if past < bc {
        past
    } else {
        bc
    };
    let mut down_index: Vec<i32> = Vec::new();
    let mut down_value: Vec<i64> = Vec::new();
    let mut b: usize = first;
    while b < last
        invariant
            first <= b <= last <= bc,
            lo <= hi <= values@.len() <= i32::MAX as int,
            1 <= ws,
            bc * ws <= hi - lo,
            down_index@ == index_entries(lo as int, ws as int, first as int, b as int),
            down_value@ == value_entries(
                values@,
                lo as int,
                hi as int,
                ws as int,
                first as int,
                b as int,
            ),
        decreases last - b,
    {
        proof {
            assert((b as int + 1) * (ws as int) <= (bc as int) * (ws as int) && (b as int) * (
            ws as int) + ws as int == (b as int + 1) * (ws as int)) by (nonlinear_arith)
                requires
                    0 <= b as int + 1 <= bc as int,
                    0 <= ws as int,
            ;
        }
        let start: usize = lo + b * ws;
        let past_window: usize = start + ws;
        let stop: usize = if past_window < hi {
            past_window
        } else {
            hi
        };
        let (top, bot) = reduce_bucket(values, start, stop);
        let idx: i32 = start as i32;
        down_index.push(idx);
        down_index.push(idx);
        down_value.push(top);
        down_value.push(bot);
        proof {
            assert(values@.subrange(start as int, stop as int) == bucket_window(
                values@,
                lo as int,
                hi as int,
                ws as int,
                b as int,
            ));
            assert(down_index@ =~= index_entries(lo as int, ws as int, first as int, b + 1));
            assert(down_value@ =~= value_entries(
                values@,
                lo as int,
                hi as int,
                ws as int,
                first as int,
                b + 1,
            ));
        }
        b += 1;
    }
    (down_index, down_value)
}

} // verus!
