//! The share of the work done, compared without floating point.
use vstd::prelude::*;

verus! {

/// Whether parallelism stays allowed: the work done, `previous_total_work`,
/// plus the work of the next piece, `next_work_size`, reaches nine tenths
/// of the whole work, `initial_size`.
pub fn parallelism_allowed(next_work_size: usize, previous_total_work: u64, initial_size: usize) -> (r: bool)
    ensures
        r == ((next_work_size + previous_total_work) * 10 >= initial_size * 9),
{
    let done = next_work_size as u128 + previous_total_work as u128;
    done * 10 >= initial_size as u128 * 9
}

} // verus!
