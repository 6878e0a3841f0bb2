//! Stable parallel merge sort of slices.
use vstd::prelude::*;
use vstd::seq_lib::lemma_multiset_commutative;
use crate::algorithms::manual_merge::adaptive_slice_merge;
use crate::algorithms::producer_merge::{adaptive_producer_merge, rayon_slice_merge};
use crate::algorithms::merging::{lemma_merged_len, lemma_merged_multiset, lemma_merged_sorted, merged, sorted};
use crate::adaptors::rayon_policy::{may_divide, next_counter, spec_next_counter, thread_or_max};
use crate::pool::{current_num_threads, join};
use crate::utils::log2::{ceil_log2, floor_log2, spec_ceil_log2, spec_floor_log2};

verus! {

/// When a piece of the slice is divided in two halves sorted in parallel.
#[derive(Clone, Copy)]
pub enum SortPolicy {
    /// Divide while fewer than `levels` divisions were made above the piece.
    Depth { levels: u32 },
    /// Divide while the piece holds more than `limit` values.
    Size { limit: usize },
    /// Divide while `counter` is not exhausted, or when the piece runs on
    /// another thread than the one that created it (it was stolen), which
    /// resets the counter to `reset`.
    Rayon { counter: usize, reset: usize, created_by: usize },
}

impl SortPolicy {
    /// Whether a piece of `len` values is divided.
    pub fn should_divide(&self, len: usize) -> (r: bool)
        ensures
            r ==> len >= 2,
            *self matches SortPolicy::Depth { levels } ==> r == (len >= 2 && levels > 0),
            *self matches SortPolicy::Size { limit } ==> r == (len >= 2 && len > limit),
    {
        if len < 2 {
            return false;
        }
        match self {
            SortPolicy::Depth { levels } => *levels > 0,
            SortPolicy::Size { limit } => len > *limit,
            SortPolicy::Rayon { counter, reset: _, created_by } => {
                let current = thread_or_max();
                may_divide(*counter, *created_by, current)
            },
        }
    }

    /// The policy of both halves of a divided piece.
    pub fn divided(&self) -> (r: SortPolicy)
        ensures
            *self matches SortPolicy::Depth { levels } ==> r == (SortPolicy::Depth {
                levels: if levels > 0 { (levels - 1) as u32 } else { 0 },
            }),
            *self matches SortPolicy::Size { limit } ==> r == *self,
            *self matches SortPolicy::Rayon { counter, reset, created_by } ==> (r matches SortPolicy::Rayon { counter: c, reset: rs, created_by: _ }
                && rs == reset && (exists|t: usize| c == spec_next_counter(counter, reset, created_by, t))),
    {
        match self {
            SortPolicy::Depth { levels } => SortPolicy::Depth { levels: levels.saturating_sub(1) },
            SortPolicy::Size { limit } => SortPolicy::Size { limit: *limit },
            SortPolicy::Rayon { counter, reset, created_by } => {
                let current = thread_or_max();
                SortPolicy::Rayon {
                    counter: next_counter(*counter, *reset, *created_by, current),
                    reset: *reset,
                    created_by: current,
                }
            },
        }
    }
}

/// How two sorted halves are merged.
#[derive(Clone, Copy)]
pub enum MergeScheduling {
    /// With `adaptive_slice_merge`.
    Manual,
    /// With the merge producer under the adaptive scheduler.
    Adaptive,
    /// With the merge producer under rayon's policy, with a budget of
    /// `reset` divisions per thread.
    Rayon { reset: usize },
}

/// Merges the sorted `a` and `b` into `out` as `merge` says.
fn merge_halves(a: &mut [u32], b: &mut [u32], out: &mut [u32], merge: MergeScheduling)
    requires
        sorted(old(a)@),
        sorted(old(b)@),
        old(out)@.len() == old(a)@.len() + old(b)@.len(),
    ensures
        final(out)@ == merged(old(a)@, old(b)@),
        final(out)@.len() == old(out)@.len(),
        final(a)@ == old(a)@,
        final(b)@ == old(b)@,
{
    proof {
        lemma_merged_len(a@, b@);
    }
    match merge {
        MergeScheduling::Manual => adaptive_slice_merge(a, b, out),
        MergeScheduling::Adaptive => adaptive_producer_merge(a, b, out),
        MergeScheduling::Rayon { reset } => rayon_slice_merge(a, b, out, reset),
    }
}

/// A piece of the slice being sorted and the matching scratch space.
struct Piece<'a> {
    values: &'a mut [u32],
    scratch: &'a mut [u32],
}

/// `s` is a sorted rearrangement of `orig`.
pub open spec fn sorts(s: Seq<u32>, orig: Seq<u32>) -> bool {
    sorted(s) && s.to_multiset() == orig.to_multiset()
}

/// Merging two sorted rearrangements of the halves of `orig` sorts `orig`.
proof fn lemma_merge_sorts(x: Seq<u32>, y: Seq<u32>, orig: Seq<u32>, mid: int)
    requires
        0 <= mid <= orig.len(),
        sorts(x, orig.take(mid)),
        sorts(y, orig.skip(mid)),
    ensures
        sorts(merged(x, y), orig),
{
    lemma_merged_sorted(x, y);
    lemma_merged_multiset(x, y);
    assert(orig =~= orig.take(mid) + orig.skip(mid));
    lemma_multiset_commutative(orig.take(mid), orig.skip(mid));
}

fn sort_piece_in_place(piece: Piece, policy: SortPolicy, merge: MergeScheduling)
    requires
        piece.scratch@.len() == piece.values@.len(),
    ensures
        sorts(final(piece.values)@, old(piece.values)@),
        final(piece.values)@.len() == old(piece.values)@.len(),
        final(piece.scratch)@.len() == old(piece.scratch)@.len(),
    decreases piece.values@.len(), 2nat,
{
    sort_in_place(piece.values, piece.scratch, policy, merge)
}

fn sort_piece_into(piece: Piece, policy: SortPolicy, merge: MergeScheduling)
    requires
        piece.scratch@.len() == piece.values@.len(),
    ensures
        sorts(final(piece.scratch)@, old(piece.values)@),
        final(piece.scratch)@.len() == old(piece.scratch)@.len(),
        final(piece.values)@.len() == old(piece.values)@.len(),
    decreases piece.values@.len(), 2nat,
{
    sort_into(piece.values, piece.scratch, policy, merge)
}

/// Sorts `s` in place, using `t` (of the same length) as scratch space.
fn sort_in_place(s: &mut [u32], t: &mut [u32], policy: SortPolicy, merge: MergeScheduling)
    requires
        old(t)@.len() == old(s)@.len(),
    ensures
        sorts(final(s)@, old(s)@),
        final(s)@.len() == old(s)@.len(),
        final(t)@.len() == old(t)@.len(),
    decreases old(s)@.len(), 1nat,
{
    let n = s.len();
    let ghost orig = s@;
    if n < 2 {
        proof {
            assert(sorted(s@));
        }
        return ;
    }
    let mid = n / 2;
    let divide = policy.should_divide(n);
    let (s1, s2) = s.split_at_mut(mid);
    let (t1, t2) = t.split_at_mut(mid);
    let ghost gs1 = s1;
    let ghost gs2 = s2;
    let ghost gt1 = t1;
    let ghost gt2 = t2;
    if divide {
        let p = policy.divided();
        let left = Piece { values: s1, scratch: t1 };
        let right = Piece { values: s2, scratch: t2 };
        let f = move ||
            requires
                left.scratch@.len() == left.values@.len(),
            ensures
                sorts(final(left.scratch)@, left.values@),
                final(left.scratch)@.len() == left.scratch@.len(),
                final(left.values)@.len() == left.values@.len(),
            { sort_piece_into(left, p, merge) };
        let g = move ||
            requires
                right.scratch@.len() == right.values@.len(),
            ensures
                sorts(final(right.scratch)@, right.values@),
                final(right.scratch)@.len() == right.scratch@.len(),
                final(right.values)@.len() == right.values@.len(),
            { sort_piece_into(right, p, merge) };
        join(f, g);
    } else {
        sort_into(s1, t1, SortPolicy::Depth { levels: 0 }, merge);
        sort_into(s2, t2, SortPolicy::Depth { levels: 0 }, merge);
    }
    proof {
        assert(orig.take(mid as int) =~= orig.subrange(0, mid as int));
        assert(orig.skip(mid as int) =~= orig.subrange(mid as int, n as int));
    }
    let ghost whole = t@;
    let (t1, t2) = t.split_at_mut(mid);
    proof {
        assert(whole =~= final(gt1)@ + final(gt2)@);
        assert(final(gt1)@.len() == mid);
        assert(t1@ =~= final(gt1)@);
        assert(t2@ =~= final(gt2)@);
        lemma_merge_sorts(t1@, t2@, orig, mid as int);
    }
    merge_halves(t1, t2, s, merge);
}

/// Sorts the values of `s` into `t` (of the same length), using `s` as
/// scratch space.
fn sort_into(s: &mut [u32], t: &mut [u32], policy: SortPolicy, merge: MergeScheduling)
    requires
        old(t)@.len() == old(s)@.len(),
    ensures
        sorts(final(t)@, old(s)@),
        final(t)@.len() == old(t)@.len(),
        final(s)@.len() == old(s)@.len(),
    decreases old(s)@.len(), 0nat,
{
    let n = s.len();
    let ghost orig = s@;
    if n < 2 {
        let mut k: usize = 0;
        while k < n
            invariant
                k <= n,
                n == s@.len(),
                t@.len() == n,
                s@ == orig,
                forall|i: int| 0 <= i < k ==> t@[i] == orig[i],
            decreases n - k,
        {
            t[k] = s[k];
            k = k + 1;
        }
        proof {
            assert(t@ =~= orig);
        }
        return ;
    }
    let mid = n / 2;
    let divide = policy.should_divide(n);
    let (s1, s2) = s.split_at_mut(mid);
    let (t1, t2) = t.split_at_mut(mid);
    let ghost gs1 = s1;
    let ghost gs2 = s2;
    let ghost gt1 = t1;
    let ghost gt2 = t2;
    if divide {
        let p = policy.divided();
        let left = Piece { values: s1, scratch: t1 };
        let right = Piece { values: s2, scratch: t2 };
        let f = move ||
            requires
                left.scratch@.len() == left.values@.len(),
            ensures
                sorts(final(left.values)@, left.values@),
                final(left.values)@.len() == left.values@.len(),
                final(left.scratch)@.len() == left.scratch@.len(),
            { sort_piece_in_place(left, p, merge) };
        let g = move ||
            requires
                right.scratch@.len() == right.values@.len(),
            ensures
                sorts(final(right.values)@, right.values@),
                final(right.values)@.len() == right.values@.len(),
                final(right.scratch)@.len() == right.scratch@.len(),
            { sort_piece_in_place(right, p, merge) };
        join(f, g);
    } else {
        sort_in_place(s1, t1, SortPolicy::Depth { levels: 0 }, merge);
        sort_in_place(s2, t2, SortPolicy::Depth { levels: 0 }, merge);
    }
    proof {
        assert(orig.take(mid as int) =~= orig.subrange(0, mid as int));
        assert(orig.skip(mid as int) =~= orig.subrange(mid as int, n as int));
    }
    let ghost whole = s@;
    let (s1, s2) = s.split_at_mut(mid);
    proof {
        assert(whole =~= final(gs1)@ + final(gs2)@);
        assert(final(gs1)@.len() == mid);
        assert(s1@ =~= final(gs1)@);
        assert(s2@ =~= final(gs2)@);
        lemma_merge_sorts(s1@, s2@, orig, mid as int);
    }
    merge_halves(s1, s2, t, merge);
}

/// Division levels for `n` threads: `2 * ceil(log2 n) - floor(log2 n)`,
/// 0 when there is no thread.
pub open spec fn spec_levels_for_threads(n: nat) -> nat {
    (2 * spec_ceil_log2(n) - spec_floor_log2(n)) as nat
}

proof fn lemma_floor_le_ceil(n: nat)
    ensures
        spec_floor_log2(n) <= spec_ceil_log2(n),
    decreases n,
{
    if n >= 2 {
        lemma_floor_log2_monotonic((n - 1) as nat, n);
        lemma_floor_log2_step(n);
    }
}

proof fn lemma_floor_log2_monotonic(m: nat, n: nat)
    requires
        m <= n,
    ensures
        spec_floor_log2(m) <= spec_floor_log2(n),
    decreases n,
{
    if m > 1 {
        lemma_floor_log2_monotonic(m / 2, n / 2);
    }
}

proof fn lemma_floor_log2_step(n: nat)
    requires
        n >= 2,
    ensures
        spec_floor_log2(n) <= spec_floor_log2((n - 1) as nat) + 1,
    decreases n,
{
    if n - 1 >= 2 {
        if (n - 1) / 2 == n / 2 {
        } else {
            lemma_floor_log2_step(n / 2);
            assert((n / 2 - 1) as nat == (n - 1) / 2);
        }
    }
}

/// Division levels for `n` threads (see `spec_levels_for_threads`).
pub fn levels_for_threads(n: usize) -> (r: u32)
    ensures
        r == spec_levels_for_threads(n as nat),
{
    proof {
        lemma_floor_le_ceil(n as nat);
    }
    let c = ceil_log2(n);
    let f = floor_log2(n);
    2 * c - f
}

/// The division levels of the slice sorts: those for the pool's threads,
/// at most 5.
pub fn sort_levels() -> (r: u32)
    ensures
        r <= 5,
        exists|threads: usize|
            r == (if #[trigger] spec_levels_for_threads(threads as nat) < 5 {
                spec_levels_for_threads(threads as nat)
            } else {
                5
            }),
{
    let threads = current_num_threads();
    let l = levels_for_threads(threads);
    assert(spec_levels_for_threads(threads as nat) == l);
    if l < 5 {
        l
    } else {
        5
    }
}

/// Sorts `input` with `policy` deciding which pieces are sorted in parallel,
/// and `merge` how sorted halves are merged.
pub fn sort_with_policy(input: &mut [u32], policy: SortPolicy, merge: MergeScheduling)
    ensures
        sorts(final(input)@, old(input)@),
        final(input)@.len() == old(input)@.len(),
{
    let n = input.len();
    let mut buffer: Vec<u32> = vec![0u32; n];
    sort_in_place(input, buffer.as_mut_slice(), policy, merge);
}

/// This is a stable parallel merge sort for slices: the slice is halved a
/// bounded number of levels deep (always an even number, so that the sorted
/// values end up back in `input`), pieces are sorted in parallel, and pairs of
/// sorted halves are merged with `adaptive_slice_merge`.
pub fn slice_par_sort(input: &mut [u32])
    ensures
        sorts(final(input)@, old(input)@),
        final(input)@.len() == old(input)@.len(),
{
    let levels = sort_levels();
    sort_with_policy(input, SortPolicy::Depth { levels }, MergeScheduling::Manual);
}

} // verus!
