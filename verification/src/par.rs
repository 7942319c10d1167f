//! The parallel fan-out: the only two places where the library leans on an
//! outside crate. Each worker's chunk is computed by the verified
//! [`reduce_chunk`](crate::reduce::reduce_chunk); the outside crate only runs
//! those calls in parallel and hands the results back in worker order.

use vstd::prelude::*;

use rayon::iter::IntoParallelIterator;
use rayon::iter::ParallelIterator;

use crate::model::chunk_first;
use crate::model::chunk_last;
use crate::model::index_entries;
use crate::model::value_entries;
use crate::reduce::reduce_chunk;

verus! {

/// Relies on rayon::current_num_threads: the number of threads of the pool,
/// which rayon builds with at least one thread whatever the machine or the
/// pool's configuration says. Nothing else holds of every outcome: the count
/// depends on the machine and the environment.
#[verifier::external_body]
pub(crate) fn worker_count() -> (n: usize)
    ensures
        1 <= n,
{
    rayon::current_num_threads()
}

/// Relies on rayon's parallel iterator over `0..workers` with map and
/// collect: an indexed parallel iterator applies the closure to every worker
/// id exactly once and collects the results into the vector in worker-id
/// order, whatever the scheduling. The closure only calls the verified
/// [`reduce_chunk`], whose contract pins each element of the result.
#[verifier::external_body]
pub(crate) fn par_reduce_chunks(
    values: &Vec<i64>,
    lo: usize,
    hi: usize,
    ws: usize,
    bc: usize,
    cs: usize,
    workers: usize,
) -> (r: Vec<(Vec<i32>, Vec<i64>)>)
    requires
        lo <= hi <= values@.len(),
        values@.len() <= i32::MAX as int,
        1 <= ws,
        bc * ws <= hi - lo,
        1 <= cs,
        workers * cs <= usize::MAX,
    ensures
        r@.len() == workers as int,
        forall|w: int|
            0 <= w < workers as int ==> (#[trigger] r@[w]).0@ == index_entries(
                lo as int,
                ws as int,
                chunk_first(w, cs as int, bc as int),
                chunk_last(w, cs as int, bc as int),
            ),
        forall|w: int|
            0 <= w < workers as int ==> (#[trigger] r@[w]).1@ == value_entries(
                values@,
                lo as int,
                hi as int,
                ws as int,
                chunk_first(w, cs as int, bc as int),
                chunk_last(w, cs as int, bc as int),
            ),
{
    (0..workers).into_par_iter().map(|w| reduce_chunk(values, lo, hi, ws, bc, cs, w)).collect()
}

} // verus!
