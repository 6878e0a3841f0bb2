//! Folds each piece of work into one value.
use vstd::prelude::*;
use crate::closures::{apply0, apply2, call0, call2, deterministic0, deterministic2};
use crate::traits::{Divisible, Producer};

verus! {

/// The fold of `s` with `f`, from `acc`, left to right.
pub open spec fn fold_with<T, X, F: Fn(T, X) -> T>(f: F, acc: T, s: Seq<X>) -> T
    decreases s.len(),
{
    if s.len() == 0 {
        acc
    } else {
        fold_with(f, apply2(f, acc, s[0]), s.drop_first())
    }
}

/// Folding one more item at the end applies `f` once more.
pub proof fn lemma_fold_with_push<T, X, F: Fn(T, X) -> T>(f: F, acc: T, s: Seq<X>, x: X)
    ensures
        fold_with(f, acc, s.push(x)) == apply2(f, fold_with(f, acc, s), x),
    decreases s.len(),
{
    if s.len() == 0 {
        assert(s.push(x).drop_first() =~= Seq::<X>::empty());
        reveal_with_fuel(fold_with, 2);
    } else {
        assert(s.push(x).drop_first() =~= s.drop_first().push(x));
        lemma_fold_with_push(f, apply2(f, acc, s[0]), s.drop_first(), x);
    }
}

/// Folding a sequence is folding its first `k` items, then the rest from
/// there.
pub proof fn lemma_fold_with_split<T, X, F: Fn(T, X) -> T>(f: F, acc: T, s: Seq<X>, k: int)
    requires
        0 <= k <= s.len(),
    ensures
        fold_with(f, fold_with(f, acc, s.take(k)), s.skip(k)) == fold_with(f, acc, s),
    decreases k,
{
    if k == 0 {
        assert(s.take(0) =~= Seq::<X>::empty());
        assert(s.skip(0) =~= s);
    } else {
        let t = s.drop_first();
        lemma_fold_with_split(f, apply2(f, acc, s[0]), t, k - 1);
        assert(s.take(k).drop_first() =~= t.take(k - 1));
        assert(s.skip(k) =~= t.skip(k - 1));
    }
}

/// Folds the items of `p` with `f`, from `acc`: all of them, where `p`
/// yields all its items.
pub fn fold_producer<T, P: Producer, F: Fn(T, P::Item) -> T>(p: P, f: &F, acc: T) -> (r: T)
    requires
        p.wf(),
        deterministic2(*f),
    ensures
        p.complete() ==> r == fold_with(*f, acc, p.items()),
{
    let ghost target = fold_with(*f, acc, p.items());
    let ghost complete = p.complete();
    let mut p = p;
    let mut acc = acc;
    loop
        invariant
            p.wf(),
            p.complete() == complete,
            deterministic2(*f),
            complete ==> fold_with(*f, acc, p.items()) == target,
        ensures
            complete ==> acc == target,
        decreases p.items().len(),
    {
        match p.next() {
            Some(x) => {
                acc = call2(f, acc, x);
            },
            None => {
                break ;
            },
        }
    }
    acc
}

/// Asks for each piece of work to be folded into one value: `fold` folds
/// the items of a piece, from the value `id` gives.
pub struct Fold<I, ID, F> {
    pub base: I,
    pub id: ID,
    pub fold: F,
}

impl<I, ID, F> Fold<I, ID, F> {
    /// The producer of the folds of the pieces of `self.base`.
    pub fn producer<T>(self) -> (r: FoldProducer<T, I, ID, F>)
        ensures
            r.init is None,
            r.base == Some(self.base),
            r.id == self.id,
            r.fold == self.fold,
    {
        FoldProducer { init: None, base: Some(self.base), id: self.id, fold: self.fold }
    }
}

/// Yields one value: the fold of the items of `base`, from `init` or, where
/// there is none, from the value `id` gives. Once yielded, `base` is gone.
pub struct FoldProducer<T, I, ID, F> {
    pub init: Option<T>,
    pub base: Option<I>,
    pub id: ID,
    pub fold: F,
}

impl<T, P: Producer, ID: Fn() -> T + Copy, F: Fn(T, P::Item) -> T + Copy> FoldProducer<T, P, ID, F> {
    /// The value the fold starts from.
    pub open spec fn start(&self) -> T {
        match self.init {
            Some(x) => x,
            None => apply0(self.id),
        }
    }
}

impl<T, P: Producer, ID: Fn() -> T + Copy, F: Fn(T, P::Item) -> T + Copy> FoldProducer<T, P, ID, F> {
    /// Folds the next `limit` items of the base (fewer where fewer are
    /// left) into the value kept in `init`, and hands back `init` of the
    /// caller as it is: this piece yields its value only once its base is
    /// done. The value it will yield stays the same. Without a base,
    /// nothing changes.
    pub fn partial_fold<B, FO: Fn(B, T) -> B>(&mut self, init: B, _fold_op: &FO, limit: usize) -> (r: B)
        requires
            old(self).wf(),
        ensures
            r == init,
            final(self).wf(),
            final(self).id == old(self).id,
            final(self).fold == old(self).fold,
            final(self).items() == old(self).items(),
            old(self).base is None ==> *final(self) == *old(self),
            old(self).base matches Some(b) ==> {
                let k = if limit < b.items().len() {
                    limit as int
                } else {
                    b.items().len() as int
                };
                &&& final(self).base matches Some(c) && c.items() == b.items().skip(k)
                &&& final(self).init == Some(fold_with(old(self).fold, old(self).start(), b.items().take(k)))
            },
    {
        if self.base.is_none() {
            return init;
        }
        let mut base = self.base.take().unwrap();
        let mut acc = match self.init.take() {
            Some(x) => x,
            None => call0(&self.id),
        };
        let ghost all = base.items();
        let ghost start = acc;
        let ghost mut consumed: int = 0;
        let mut left = limit;
        proof {
            assert(all.take(0) =~= Seq::<P::Item>::empty());
            assert(all.skip(0) =~= all);
        }
        while left > 0
            invariant_except_break
                consumed + left == limit,
            invariant
                base.wf(),
                base.complete(),
                deterministic2(self.fold),
                0 <= consumed <= all.len(),
                consumed <= limit,
                base.items() == all.skip(consumed),
                acc == fold_with(self.fold, start, all.take(consumed)),
            ensures
                consumed == (if limit < all.len() {
                    limit as int
                } else {
                    all.len() as int
                }),
            decreases left,
        {
            left = left - 1;
            match base.next() {
                Some(x) => {
                    proof {
                        assert(all.take(consumed + 1) =~= all.take(consumed).push(x));
                        lemma_fold_with_push(self.fold, start, all.take(consumed), x);
                        assert(base.items() =~= all.skip(consumed + 1));
                        consumed = consumed + 1;
                    }
                    acc = call2(&self.fold, acc, x);
                },
                None => {
                    break ;
                },
            }
        }
        proof {
            lemma_fold_with_split(self.fold, start, all, consumed);
        }
        self.base = Some(base);
        self.init = Some(acc);
        init
    }
}

impl<T, P: Producer, ID: Fn() -> T + Copy, F: Fn(T, P::Item) -> T + Copy> Divisible for FoldProducer<
    T,
    P,
    ID,
    F,
> {
    type Item = T;

    open spec fn wf(&self) -> bool {
        &&& deterministic0(self.id)
        &&& deterministic2(self.fold)
        &&& (self.base matches Some(b) ==> b.wf() && b.complete())
    }

    open spec fn items(&self) -> Seq<T> {
        match self.base {
            Some(b) => seq![fold_with(self.fold, self.start(), b.items())],
            None => Seq::empty(),
        }
    }

    open spec fn spec_len(&self) -> nat {
        match self.base {
            Some(b) => b.spec_len(),
            None => 0,
        }
    }

    /// The fold of the whole is not the folds of the parts.
    open spec fn splits_items(&self) -> bool {
        false
    }

    open spec fn complete(&self) -> bool {
        true
    }

    open spec fn double_ended(&self) -> bool {
        false
    }

    open spec fn can_preview(&self) -> bool {
        false
    }

    open spec fn can_divide(&self) -> bool {
        self.base matches Some(b) ==> b.can_divide()
    }

    open spec fn can_divide_at(&self) -> bool {
        self.base matches Some(b) ==> b.can_divide_at()
    }

    open spec fn exact(&self) -> bool {
        false
    }

    proof fn lemma_exact(&self) {
    }

    open spec fn always_divisible(&self) -> bool {
        false
    }

    proof fn lemma_always_divisible(&self) {
    }

    open spec fn may_divide(&self) -> bool {
        self.base matches Some(b) && b.may_divide()
    }

    open spec fn must_divide(&self) -> bool {
        self.base matches Some(b) && b.must_divide()
    }

    /// Whether the base should be divided; never once it is gone.
    fn should_be_divided(&self) -> (r: bool) {
        match &self.base {
            Some(b) => b.should_be_divided(),
            None => false,
        }
    }

    /// Divides the base: the left part keeps the value to start from, the
    /// right part starts from the value `id` gives.
    fn divide(self) -> (r: (Self, Self))
        ensures
            r.0.init == self.init,
            r.1.init is None,
            r.0.id == self.id && r.1.id == self.id,
            r.0.fold == self.fold && r.1.fold == self.fold,
    {
        let (left, right) = match self.base {
            Some(b) => {
                let (l, r) = b.divide();
                (Some(l), Some(r))
            },
            None => (None, None),
        };
        (
            FoldProducer { init: self.init, base: left, id: self.id, fold: self.fold },
            FoldProducer { init: None, base: right, id: self.id, fold: self.fold },
        )
    }

    /// Cuts the base at `index`, as `divide` does.
    fn divide_at(self, index: usize) -> (r: (Self, Self))
        ensures
            r.0.init == self.init,
            r.1.init is None,
            r.0.id == self.id && r.1.id == self.id,
            r.0.fold == self.fold && r.1.fold == self.fold,
    {
        let (left, right) = match self.base {
            Some(b) => {
                let (l, r) = b.divide_at(index);
                (Some(l), Some(r))
            },
            None => (None, None),
        };
        (
            FoldProducer { init: self.init, base: left, id: self.id, fold: self.fold },
            FoldProducer { init: None, base: right, id: self.id, fold: self.fold },
        )
    }
}

impl<T, P: Producer, ID: Fn() -> T + Copy, F: Fn(T, P::Item) -> T + Copy> Producer for FoldProducer<
    T,
    P,
    ID,
    F,
> {
    open spec fn spec_sizes(&self) -> (usize, Option<usize>) {
        match self.base {
            Some(b) => b.spec_sizes(),
            None => (0, Some(0)),
        }
    }

    /// The fold of all the items of the base; nothing once it is gone.
    fn next(&mut self) -> (r: Option<T>) {
        match self.base.take() {
            Some(b) => {
                let acc = match self.init.take() {
                    Some(x) => x,
                    None => call0(&self.id),
                };
                Some(fold_producer(b, &self.fold, acc))
            },
            None => None,
        }
    }

    fn next_back(&mut self) -> (r: Option<T>) {
        None
    }

    /// The bounds of the base: the work still to do.
    fn sizes(&self) -> (r: (usize, Option<usize>)) {
        match &self.base {
            Some(b) => b.sizes(),
            None => (0, Some(0)),
        }
    }

    /// One value while the base is there, none after.
    fn length(&self) -> (r: usize)
        ensures
            r == self.items().len(),
    {
        if self.base.is_some() {
            1
        } else {
            0
        }
    }

    /// Never called: the fold cannot be previewed.
    fn preview(&self, index: usize) -> (r: T) {
        call0(&self.id)
    }
}

} // verus!
