//! Works by blocks of given sizes, one block after the other.
use vstd::prelude::*;
use crate::schedulers::sequential_scheduler;
use crate::traits::{fold_items, lemma_fold_split, monoid, Divisible, Producer, Reducer};

verus! {

/// The sum of the first `i` sizes.
pub open spec fn sizes_sum(sizes: Seq<usize>, i: int) -> nat
    decreases i,
{
    if i <= 0 || sizes.len() == 0 {
        0
    } else {
        (sizes_sum(sizes, i - 1) + sizes[i - 1]) as nat
    }
}

/// How many of `n` items the blocks of `sizes` cover.
pub open spec fn covered(sizes: Seq<usize>, n: nat) -> nat {
    let total = sizes_sum(sizes, sizes.len() as int);
    if total < n {
        total
    } else {
        n
    }
}

/// The sums of sizes grow with the number of sizes summed.
pub proof fn lemma_sizes_sum_monotone(sizes: Seq<usize>, i: int, j: int)
    requires
        0 <= i <= j <= sizes.len(),
    ensures
        sizes_sum(sizes, i) <= sizes_sum(sizes, j),
    decreases j - i,
{
    if i < j {
        lemma_sizes_sum_monotone(sizes, i, j - 1);
    }
}

/// The reduction by blocks of `items` from `acc`: the next block holds the
/// next size of `sizes` of the items (no more than are left); its fold from
/// the identity is reduced into the result; it stops when no item or no
/// size is left.
pub open spec fn blocks_fold<T, R: Reducer<T>>(reducer: R, acc: T, sizes: Seq<usize>, items: Seq<T>) -> T
    decreases sizes.len(),
{
    if sizes.len() == 0 || items.len() == 0 {
        acc
    } else {
        let c = if sizes[0] < items.len() {
            sizes[0] as int
        } else {
            items.len() as int
        };
        blocks_fold(
            reducer,
            reducer.spec_reduce(acc, fold_items(reducer, reducer.spec_identity(), items.take(c))),
            sizes.drop_first(),
            items.skip(c),
        )
    }
}

/// Cuts the work of `base` into blocks whose sizes come from
/// `blocks_sizes`, and works on the blocks one after the other.
pub struct ByBlocks<I, S> {
    pub base: I,
    pub blocks_sizes: Option<S>,
}

/// What working by blocks needs of a producer: it can tell its length, and
/// can be cut at any position into parts that keep its items.
pub open spec fn cuttable_by_blocks<P: Producer>(p: P) -> bool {
    &&& p.wf()
    &&& p.can_preview()
    &&& p.exact()
    &&& p.splits_items()
    &&& p.always_divisible()
}

impl<P: Producer> ByBlocks<P, Vec<usize>> {
    /// Reduces the items block by block: each size of `blocks_sizes`, in
    /// order, gives the size of the next block (no more than the items
    /// left); each block is folded on this thread, and the results are
    /// combined in order. Work stops when no item is left or no size is
    /// left: the items after the last block are not reduced.
    pub fn reduce<R: Reducer<P::Item>>(self, reducer: &R) -> (r: P::Item)
        requires
            cuttable_by_blocks(self.base),
            reducer.wf(),
            self.blocks_sizes is Some,
        ensures
            self.base.complete() ==> r == blocks_fold(
                *reducer,
                reducer.spec_identity(),
                self.blocks_sizes.unwrap()@,
                self.base.items(),
            ),
            self.base.complete() && monoid(*reducer) ==> r == fold_items(
                *reducer,
                reducer.spec_identity(),
                self.base.items().take(
                    covered(self.blocks_sizes.unwrap()@, self.base.items().len()) as int,
                ),
            ),
    {
        let ghost all = self.base.items();
        let ghost n = all.len();
        let ghost id = reducer.spec_identity();
        let sizes = self.blocks_sizes.unwrap();
        let mut remaining = self.base;
        let mut acc = reducer.identity();
        let ghost mut consumed: nat = 0;
        let ghost target = blocks_fold(*reducer, id, sizes@, all);
        proof {
            assert(sizes@.skip(0) =~= sizes@);
            assert(all.take(0) =~= Seq::<P::Item>::empty());
            assert(all.skip(0) =~= all);
        }
        let mut i: usize = 0;
        while i < sizes.len()
            invariant_except_break
                consumed == (if sizes_sum(sizes@, i as int) < n {
                    sizes_sum(sizes@, i as int)
                } else {
                    n
                }),
            invariant
                self.blocks_sizes is Some,
                target == blocks_fold(*reducer, id, sizes@, all),
                self.base.complete() ==> blocks_fold(*reducer, acc, sizes@.skip(i as int), remaining.items())
                    == target,
                n == all.len(),
                id == reducer.spec_identity(),
                all == self.base.items(),
                sizes == self.blocks_sizes.unwrap(),
                0 <= i <= sizes.len(),
                cuttable_by_blocks(remaining),
                reducer.wf(),
                remaining.complete() == self.base.complete(),
                consumed <= n,
                remaining.items() == all.skip(consumed as int),
                self.base.complete() && monoid(*reducer) ==> acc == fold_items(
                    *reducer,
                    id,
                    all.take(consumed as int),
                ),
            ensures
                consumed == covered(sizes@, n),
                self.base.complete() ==> acc == target,
            decreases sizes.len() - i,
        {
            proof {
                remaining.lemma_exact();
                remaining.lemma_always_divisible();
            }
            let bound = remaining.length();
            if bound == 0 {
                proof {
                    assert(consumed == n);
                    assert(remaining.items().len() == 0);
                    lemma_sizes_sum_monotone(sizes@, i as int, sizes@.len() as int);
                }
                break ;
            }
            let size = sizes[i];
            let capped = if size < bound {
                size
            } else {
                bound
            };
            let ghost rem = remaining.items();
            let (left, right) = remaining.divide_at(capped);
            proof {
                left.lemma_exact();
                assert(rem == left.items() + right.items());
                assert forall|k: int| 0 <= k < capped implies left.items()[k] == all[consumed + k] by {
                    assert(left.items()[k] == rem[k]);
                }
                assert(all.take(consumed as int) + left.items() =~= all.take(consumed + capped));
                assert forall|k: int| 0 <= k < right.items().len() implies right.items()[k] == all[consumed + capped + k] by {
                    assert(right.items()[k] == rem[capped + k]);
                }
                assert(right.items() =~= all.skip(consumed + capped));
                if self.base.complete() && monoid(*reducer) {
                    lemma_fold_split(*reducer, all.take(consumed as int), left.items());
                }
                assert(rem.take(capped as int) =~= left.items());
                assert(rem.skip(capped as int) =~= right.items());
                assert(sizes@.skip(i as int)[0] == size);
                assert(sizes@.skip(i as int).drop_first() =~= sizes@.skip(i + 1));
            }
            let block = sequential_scheduler(left, reducer);
            acc = reducer.reduce(acc, block);
            remaining = right;
            proof {
                assert(sizes_sum(sizes@, i + 1) == sizes_sum(sizes@, i as int) + sizes@[i as int]);
                consumed = (consumed + capped) as nat;
            }
            i = i + 1;
        }
        acc
    }
}

impl<P: Producer, S: Clone> Divisible for ByBlocks<P, S> {
    type Item = P::Item;

    open spec fn wf(&self) -> bool {
        self.base.wf()
    }

    open spec fn items(&self) -> Seq<P::Item> {
        self.base.items()
    }

    open spec fn spec_len(&self) -> nat {
        self.base.spec_len()
    }

    open spec fn splits_items(&self) -> bool {
        self.base.splits_items()
    }

    open spec fn complete(&self) -> bool {
        self.base.complete()
    }

    open spec fn double_ended(&self) -> bool {
        false
    }

    open spec fn can_preview(&self) -> bool {
        self.base.can_preview()
    }

    open spec fn can_divide(&self) -> bool {
        self.base.can_divide()
    }

    open spec fn can_divide_at(&self) -> bool {
        self.base.can_divide_at()
    }

    open spec fn exact(&self) -> bool {
        self.base.exact()
    }

    proof fn lemma_exact(&self) {
        self.base.lemma_exact();
    }

    open spec fn always_divisible(&self) -> bool {
        self.base.always_divisible()
    }

    proof fn lemma_always_divisible(&self) {
        self.base.lemma_always_divisible();
    }

    open spec fn may_divide(&self) -> bool {
        self.base.may_divide()
    }

    open spec fn must_divide(&self) -> bool {
        self.base.must_divide()
    }

    fn should_be_divided(&self) -> (r: bool) {
        self.base.should_be_divided()
    }

    /// Both parts get the block sizes.
    fn divide(self) -> (r: (Self, Self)) {
        let (left, right) = self.base.divide();
        let sizes = self.blocks_sizes.clone();
        (ByBlocks { base: left, blocks_sizes: sizes }, ByBlocks { base: right, blocks_sizes: self.blocks_sizes })
    }

    /// Both parts get the block sizes.
    fn divide_at(self, index: usize) -> (r: (Self, Self)) {
        let (left, right) = self.base.divide_at(index);
        let sizes = self.blocks_sizes.clone();
        (ByBlocks { base: left, blocks_sizes: sizes }, ByBlocks { base: right, blocks_sizes: self.blocks_sizes })
    }
}

impl<P: Producer, S: Clone> Producer for ByBlocks<P, S> {
    open spec fn spec_sizes(&self) -> (usize, Option<usize>) {
        self.base.spec_sizes()
    }

    fn next(&mut self) -> (r: Option<P::Item>) {
        self.base.next()
    }

    fn next_back(&mut self) -> (r: Option<P::Item>) {
        None
    }

    fn sizes(&self) -> (r: (usize, Option<usize>)) {
        self.base.sizes()
    }

    fn length(&self) -> (r: usize) {
        self.base.length()
    }

    fn preview(&self, index: usize) -> (r: P::Item) {
        self.base.preview(index)
    }
}

} // verus!
