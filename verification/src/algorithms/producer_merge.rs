//! Merging two sorted slices into a third with the merge producer, divided
//! in parallel under rayon's policy or by the adaptive scheduler.
use vstd::prelude::*;
use crate::adaptive::{division_depth, FIRST_BLOCK, MAX_BLOCK};
use crate::adaptors::merge::Merge;
use crate::adaptors::rayon_policy::{may_divide, next_counter, thread_or_max};
use crate::algorithms::merging::{lemma_merged_len, merged, sorted};
use crate::pool::{current_num_threads, join};
use crate::slice::SliceProducer;
use crate::traits::{Divisible, Producer};

verus! {

/// A merge of two slices and the part of the output it writes.
struct MergePiece<'a> {
    merge: Merge<SliceProducer<'a, u32>, SliceProducer<'a, u32>>,
    out: &'a mut [u32],
}

/// What a piece of the merge writes: the merge of its two sides.
pub open spec fn merge_result<'a>(m: Merge<SliceProducer<'a, u32>, SliceProducer<'a, u32>>) -> Seq<u32> {
    merged(m.a.slice@, m.b.slice@)
}

fn write_piece(piece: MergePiece, counter: usize, reset: usize, created_by: usize)
    requires
        piece.merge.wf(),
        piece.out@.len() == piece.merge.a.slice@.len() + piece.merge.b.slice@.len(),
    ensures
        final(piece.out)@ == merge_result(piece.merge),
    decreases piece.out@.len(), 1nat,
{
    write_merge(piece.merge, piece.out, counter, reset, created_by)
}

/// Writes the merge of the sides of `m` into `out`. While rayon's policy
/// (a `counter` of divisions left on the thread `created_by`, reset to
/// `reset` after a steal) and the merge itself allow, the merge is divided
/// and both parts are written in parallel into the matching parts of `out`;
/// a piece that is not divided is written item by item.
fn write_merge(
    m: Merge<SliceProducer<'_, u32>, SliceProducer<'_, u32>>,
    out: &mut [u32],
    counter: usize,
    reset: usize,
    created_by: usize,
)
    requires
        m.wf(),
        old(out)@.len() == m.a.slice@.len() + m.b.slice@.len(),
    ensures
        final(out)@ == merge_result(m),
    decreases old(out)@.len(), 0nat,
{
    proof {
        lemma_merged_len(m.a.slice@, m.b.slice@);
    }
    let current = thread_or_max();
    if may_divide(counter, created_by, current) && m.should_be_divided() {
        let next = next_counter(counter, reset, created_by, current);
        let ghost whole_items = m.items();
        let (left, right) = m.divide();
        let n_left = left.a.slice.len() + left.b.slice.len();
        proof {
            lemma_merged_len(left.a.slice@, left.b.slice@);
            lemma_merged_len(right.a.slice@, right.b.slice@);
        }
        let (o1, o2) = out.split_at_mut(n_left);
        let ghost g1 = o1;
        let ghost g2 = o2;
        let lp = MergePiece { merge: left, out: o1 };
        let rp = MergePiece { merge: right, out: o2 };
        let f = move ||
            requires
                lp.merge.wf(),
                lp.out@.len() == lp.merge.a.slice@.len() + lp.merge.b.slice@.len(),
            ensures
                final(lp.out)@ == merge_result(lp.merge),
            { write_piece(lp, next, reset, current) };
        let g = move ||
            requires
                rp.merge.wf(),
                rp.out@.len() == rp.merge.a.slice@.len() + rp.merge.b.slice@.len(),
            ensures
                final(rp.out)@ == merge_result(rp.merge),
            { write_piece(rp, next, reset, current) };
        join(f, g);
        proof {
            assert(out@ =~= final(g1)@ + final(g2)@);
        }
    } else {
        let ghost target = merge_result(m);
        let n = out.len();
        let mut m = m;
        let mut i: usize = 0;
        while i < n
            invariant
                m.wf(),
                n == out@.len(),
                target.len() == n,
                i <= n,
                m.items() == target.skip(i as int),
                forall|k: int| 0 <= k < i ==> out@[k] == target[k],
            decreases n - i,
        {
            match m.next() {
                Some(x) => {
                    out[i] = x;
                },
                None => {
                    // A merge yields all its items.
                    assert(false);
                },
            }
            proof {
                assert(m.items() =~= target.skip(i + 1));
            }
            i = i + 1;
        }
        proof {
            assert(out@ =~= target);
        }
    }
}

fn write_piece_by_blocks(piece: MergePiece, block: usize, depth: u32)
    requires
        piece.merge.wf(),
        piece.out@.len() == piece.merge.a.slice@.len() + piece.merge.b.slice@.len(),
        block > 0,
    ensures
        final(piece.out)@ == merge_result(piece.merge),
    decreases piece.out@.len(), 1nat,
{
    write_merge_by_blocks(piece.merge, piece.out, block, depth)
}

/// Writes the merge of the sides of `m` into `out` with the adaptive
/// scheduler: a block of `block` values is written, then, while `depth`
/// allows and the merge should be divided, the rest of the merge is divided
/// and both parts are written in parallel; otherwise the next block, twice
/// as large (up to `MAX_BLOCK`), is written.
fn write_merge_by_blocks(
    m: Merge<SliceProducer<'_, u32>, SliceProducer<'_, u32>>,
    out: &mut [u32],
    block: usize,
    depth: u32,
)
    requires
        m.wf(),
        old(out)@.len() == m.a.slice@.len() + m.b.slice@.len(),
        block > 0,
    ensures
        final(out)@ == merge_result(m),
    decreases old(out)@.len(), 0nat,
{
    proof {
        lemma_merged_len(m.a.slice@, m.b.slice@);
    }
    let n = out.len();
    if n == 0 {
        proof {
            assert(out@ =~= merge_result(m));
        }
        return ;
    }
    if depth > 0 && m.should_be_divided() {
        let (left, right) = m.divide();
        let n_left = left.a.slice.len() + left.b.slice.len();
        proof {
            lemma_merged_len(left.a.slice@, left.b.slice@);
            lemma_merged_len(right.a.slice@, right.b.slice@);
        }
        let (o1, o2) = out.split_at_mut(n_left);
        let ghost g1 = o1;
        let ghost g2 = o2;
        let lp = MergePiece { merge: left, out: o1 };
        let rp = MergePiece { merge: right, out: o2 };
        let f = move ||
            requires
                lp.merge.wf(),
                lp.out@.len() == lp.merge.a.slice@.len() + lp.merge.b.slice@.len(),
            ensures
                final(lp.out)@ == merge_result(lp.merge),
            { write_piece_by_blocks(lp, FIRST_BLOCK, depth - 1) };
        let g = move ||
            requires
                rp.merge.wf(),
                rp.out@.len() == rp.merge.a.slice@.len() + rp.merge.b.slice@.len(),
            ensures
                final(rp.out)@ == merge_result(rp.merge),
            { write_piece_by_blocks(rp, FIRST_BLOCK, depth - 1) };
        join(f, g);
        proof {
            assert(out@ =~= final(g1)@ + final(g2)@);
        }
    } else {
        let ghost target = merge_result(m);
        let k = if block < n {
            block
        } else {
            n
        };
        let mut m = m;
        let mut i: usize = 0;
        while i < k
            invariant
                m.wf(),
                n == out@.len(),
                target.len() == n,
                i <= k <= n,
                m.items() == target.skip(i as int),
                m.a.slice@.len() + m.b.slice@.len() == n - i,
                forall|j: int| 0 <= j < i ==> out@[j] == target[j],
            decreases k - i,
        {
            match m.next() {
                Some(x) => {
                    out[i] = x;
                },
                None => {
                    // A merge yields all its items.
                    assert(false);
                },
            }
            proof {
                lemma_merged_len(m.a.slice@, m.b.slice@);
                assert(m.items() =~= target.skip(i + 1));
            }
            i = i + 1;
        }
        let next_block = if block <= MAX_BLOCK / 2 {
            2 * block
        } else {
            block
        };
        let ghost written = out@.take(k as int);
        let (head, tail) = out.split_at_mut(k);
        let ghost gh = head;
        let ghost gt = tail;
        proof {
            assert(head@ =~= written);
        }
        write_merge_by_blocks(m, tail, next_block, depth);
        proof {
            assert(out@ =~= final(gh)@ + final(gt)@);
            assert(final(gh)@ == written);
            assert(out@ =~= target);
        }
    }
}

/// Merges the sorted slices `left` and `right` into `output` with the merge
/// producer under the adaptive scheduler: blocks of growing sizes are
/// written, and the merge is divided in parallel between blocks, as deep as
/// the pool's threads call for.
pub fn adaptive_producer_merge(left: &[u32], right: &[u32], output: &mut [u32])
    requires
        sorted(left@),
        sorted(right@),
        old(output)@.len() == left@.len() + right@.len(),
    ensures
        final(output)@ == merged(left@, right@),
{
    let m = Merge { a: SliceProducer { slice: left }, b: SliceProducer { slice: right } };
    let depth = division_depth();
    let total: usize = output.len();
    assert(total == m.a.slice@.len() + m.b.slice@.len());
    write_merge_by_blocks(m, output, FIRST_BLOCK, depth);
}

/// Merges the sorted slices `left` and `right` into `output` with the merge
/// producer, divided in parallel under rayon's policy with a budget of
/// `reset` divisions per thread.
pub fn rayon_slice_merge(left: &[u32], right: &[u32], output: &mut [u32], reset: usize)
    requires
        sorted(left@),
        sorted(right@),
        old(output)@.len() == left@.len() + right@.len(),
    ensures
        final(output)@ == merged(left@, right@),
{
    let m = Merge { a: SliceProducer { slice: left }, b: SliceProducer { slice: right } };
    let created_by = current_num_threads();
    let total: usize = output.len();
    assert(total == m.a.slice@.len() + m.b.slice@.len());
    write_merge(m, output, reset, reset, created_by);
}

} // verus!
