//! Stable parallel merge sorts of slices, one per division policy of the
//! pieces: bounded depth, bounded size, or rayon's work-stealing counter.
use vstd::prelude::*;
use crate::algorithms::slice_merge_sort::{levels_for_threads, sort_levels, sort_with_policy, sorts, spec_levels_for_threads, MergeScheduling, SortPolicy};
use crate::pool::current_num_threads;

verus! {

/// Rayon's policy for the sorts: the counter starts at the division levels
/// for the pool's threads, and the first piece counts as created by no
/// thread.
fn rayon_sort_policy() -> (r: SortPolicy)
    ensures
        exists|threads: usize|
            r == (SortPolicy::Rayon {
                counter: #[trigger] spec_levels_for_threads(threads as nat) as usize,
                reset: spec_levels_for_threads(threads as nat) as usize,
                created_by: threads,
            }),
{
    let threads = current_num_threads();
    let levels = levels_for_threads(threads);
    let r = SortPolicy::Rayon { counter: levels as usize, reset: levels as usize, created_by: threads };
    assert(r == (SortPolicy::Rayon {
        counter: spec_levels_for_threads(threads as nat) as usize,
        reset: spec_levels_for_threads(threads as nat) as usize,
        created_by: threads,
    }));
    r
}

/// Merging under rayon's policy, with the division levels for the pool's
/// threads as budget.
fn rayon_merge_scheduling() -> (r: MergeScheduling)
    ensures
        exists|threads: usize|
            r == (MergeScheduling::Rayon {
                reset: #[trigger] spec_levels_for_threads(threads as nat) as usize,
            }),
{
    let threads = current_num_threads();
    let levels = levels_for_threads(threads);
    let r = MergeScheduling::Rayon { reset: levels as usize };
    assert(r == (MergeScheduling::Rayon { reset: spec_levels_for_threads(threads as nat) as usize }));
    r
}

/// Stable parallel merge sort; pieces are divided while the bounded depth
/// allows.
pub fn iter_sort_jc_adaptive(input: &mut [u32])
    ensures
        sorts(final(input)@, old(input)@),
        final(input)@.len() == old(input)@.len(),
{
    let levels = sort_levels();
    sort_with_policy(input, SortPolicy::Depth { levels }, MergeScheduling::Adaptive);
}

/// Stable parallel merge sort; pieces are divided while they hold more than
/// a `num_threads`-th of the input.
pub fn iter_sort_size_adaptive(input: &mut [u32], num_threads: usize)
    requires
        num_threads > 0,
    ensures
        sorts(final(input)@, old(input)@),
        final(input)@.len() == old(input)@.len(),
{
    let limit = input.len() / num_threads;
    sort_with_policy(input, SortPolicy::Size { limit }, MergeScheduling::Adaptive);
}

/// Stable parallel merge sort; pieces are divided following rayon's
/// work-stealing counter.
pub fn iter_sort_rayon_adaptive(input: &mut [u32])
    ensures
        sorts(final(input)@, old(input)@),
        final(input)@.len() == old(input)@.len(),
{
    let policy = rayon_sort_policy();
    sort_with_policy(input, policy, MergeScheduling::Adaptive);
}

/// Stable parallel merge sort; pieces are divided following rayon's
/// work-stealing counter.
pub fn iter_sort_rayon_rayon(input: &mut [u32])
    ensures
        sorts(final(input)@, old(input)@),
        final(input)@.len() == old(input)@.len(),
{
    let policy = rayon_sort_policy();
    sort_with_policy(input, policy, rayon_merge_scheduling());
}

/// Stable parallel merge sort; pieces are divided while they hold more than
/// a `num_threads`-th of the input.
pub fn iter_sort_size_rayon(input: &mut [u32], num_threads: usize)
    requires
        num_threads > 0,
    ensures
        sorts(final(input)@, old(input)@),
        final(input)@.len() == old(input)@.len(),
{
    let limit = input.len() / num_threads;
    sort_with_policy(input, SortPolicy::Size { limit }, rayon_merge_scheduling());
}

/// Stable parallel merge sort; pieces are divided while the bounded depth
/// allows.
pub fn iter_sort_jc_rayon(input: &mut [u32])
    ensures
        sorts(final(input)@, old(input)@),
        final(input)@.len() == old(input)@.len(),
{
    let levels = sort_levels();
    sort_with_policy(input, SortPolicy::Depth { levels }, rayon_merge_scheduling());
}

} // verus!
