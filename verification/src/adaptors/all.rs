//! Checks a predicate on every item, stopping everywhere at the first
//! failure.
use vstd::prelude::*;
use std::sync::atomic::{AtomicBool, Ordering};
use crate::closures::{apply1, apply2, call1, call2, deterministic1, deterministic2};
use crate::traits::{Divisible, Producer};

verus! {

/// The verdict on one item: `Ok` where the predicate holds, `Err` where it
/// fails.
pub open spec fn verdict(holds: bool) -> Result<(), ()> {
    if holds {
        Ok(())
    } else {
        Err(())
    }
}

/// Yields the verdict of `predicate` on each item of `base`. The first
/// failure raises the shared `stop` flag, and every piece sharing it stops.
pub struct All<'b, I, P> {
    pub base: I,
    pub predicate: &'b P,
    pub stop: &'b AtomicBool,
}

impl<'b, I, P> All<'b, I, P> {
    /// Whether some piece has met a failure.
    pub fn done(&self) -> bool {
        self.stop.load(Ordering::Relaxed)
    }

    /// Tells every piece that a failure was met.
    pub fn mark_done(&self) {
        self.stop.store(true, Ordering::Relaxed)
    }
}

impl<'b, I: Producer, P: Fn(I::Item) -> bool> All<'b, I, P> {
    /// The verdict on `x`, raising the flag on a failure.
    fn check(&self, x: I::Item) -> (r: Result<(), ()>)
        requires
            deterministic1(*self.predicate),
        ensures
            r == verdict(apply1(*self.predicate, x)),
    {
        if call1(self.predicate, x) {
            Ok(())
        } else {
            self.mark_done();
            Err(())
        }
    }
}

/// Whether `pred` fails on some of `s`.
pub open spec fn some_fails<T>(s: Seq<T>, pred: spec_fn(T) -> bool) -> bool {
    exists|i: int| 0 <= i < s.len() && !pred(#[trigger] s[i])
}

impl<'b, I: Producer, P: Fn(I::Item) -> bool> All<'b, I, P> {
    /// The predicate, as a function on items.
    pub open spec fn holds(&self) -> spec_fn(I::Item) -> bool {
        |x: I::Item| apply1(*self.predicate, x)
    }

    /// Checks the next `limit` items of the base (fewer where fewer are
    /// left), unless a failure was already met. On a failure among them,
    /// the flag is raised and `fold_op` folds one `Err` into `init`;
    /// otherwise `init` is returned as it is. Which of the two happens rests
    /// on the flag as read at the start: see `partial_fold_unless`.
    pub fn partial_fold<B, F: Fn(B, Result<(), ()>) -> B>(&mut self, init: B, fold_op: &F, limit: usize) -> (r: B)
        requires
            old(self).wf(),
            deterministic2(*fold_op),
        ensures
            final(self).wf(),
            final(self).predicate == old(self).predicate,
            final(self).stop == old(self).stop,
            final(self).base.complete() == old(self).base.complete(),
            r == init || r == apply2(*fold_op, init, Err(())),
            old(self).base.complete() ==> {
                let k = if limit < old(self).base.items().len() {
                    limit as int
                } else {
                    old(self).base.items().len() as int
                };
                let failed = some_fails(old(self).base.items().take(k), old(self).holds());
                ||| r == init && final(self).base.items() == old(self).base.items()
                ||| final(self).base.items() == old(self).base.items().skip(k) && r == (if failed {
                    apply2(*fold_op, init, Err(()))
                } else {
                    init
                })
            },
    {
        let stopped = self.done();
        self.partial_fold_unless(stopped, init, fold_op, limit)
    }

    /// The block fold of `partial_fold`, given `stopped`, the flag as read
    /// at the start. Once stopped, nothing is checked and `init` comes back.
    /// Else the next `limit` items of the base (fewer where fewer are left)
    /// are checked, the predicate being called up to the first failure; on a
    /// failure the flag is raised and `fold_op` folds one `Err` into `init`,
    /// and otherwise `init` comes back as it is.
    pub fn partial_fold_unless<B, F: Fn(B, Result<(), ()>) -> B>(
        &mut self,
        stopped: bool,
        init: B,
        fold_op: &F,
        limit: usize,
    ) -> (r: B)
        requires
            old(self).wf(),
            deterministic2(*fold_op),
        ensures
            final(self).wf(),
            final(self).predicate == old(self).predicate,
            final(self).stop == old(self).stop,
            final(self).base.complete() == old(self).base.complete(),
            r == init || r == apply2(*fold_op, init, Err(())),
            stopped ==> r == init && final(self).base.items() == old(self).base.items(),
            !stopped && old(self).base.complete() ==> {
                let k = if limit < old(self).base.items().len() {
                    limit as int
                } else {
                    old(self).base.items().len() as int
                };
                &&& final(self).base.items() == old(self).base.items().skip(k)
                &&& r == (if some_fails(old(self).base.items().take(k), old(self).holds()) {
                    apply2(*fold_op, init, Err(()))
                } else {
                    init
                })
            },
    {
        if stopped {
            return init;
        }
        let ghost all = self.base.items();
        let ghost complete = self.base.complete();
        let ghost pred = self.holds();
        let mut ok = true;
        let mut left = limit;
        let ghost mut consumed: int = 0;
        proof {
            assert(all.take(0) =~= Seq::<I::Item>::empty());
            assert(all.skip(0) =~= all);
        }
        while left > 0
            invariant_except_break
                consumed + left == limit,
            invariant
                self.wf(),
                all == old(self).base.items(),
                complete == old(self).base.complete(),
                pred == old(self).holds(),
                self.predicate == old(self).predicate,
                self.stop == old(self).stop,
                self.base.complete() == complete,
                0 <= consumed <= limit,
                complete ==> consumed <= all.len(),
                complete ==> self.base.items() == all.skip(consumed),
                complete ==> (ok <==> !some_fails(all.take(consumed), pred)),
            ensures
                complete ==> consumed == (if limit < all.len() {
                    limit as int
                } else {
                    all.len() as int
                }),
            decreases left,
        {
            left = left - 1;
            match self.base.next() {
                Some(x) => {
                    // Once a failure is met, the predicate is not called again.
                    let holds = if ok {
                        call1(self.predicate, x)
                    } else {
                        false
                    };
                    proof {
                        if complete {
                            let t = all.take(consumed + 1);
                            assert(t =~= all.take(consumed).push(x));
                            if ok && !holds {
                                assert(!pred(t[consumed]));
                            }
                            if some_fails(t, pred) {
                                let i = choose|i: int| 0 <= i < t.len() && !pred(#[trigger] t[i]);
                                if i < consumed {
                                    assert(all.take(consumed)[i] == t[i]);
                                }
                            }
                            if some_fails(all.take(consumed), pred) {
                                let i = choose|i: int| 0 <= i < consumed && !pred(#[trigger] all.take(consumed)[i]);
                                assert(t[i] == all.take(consumed)[i]);
                            }
                            assert(self.base.items() =~= all.skip(consumed + 1));
                        }
                        consumed = consumed + 1;
                    }
                    ok = ok && holds;
                },
                None => {
                    break ;
                },
            }
        }
        if ok {
            init
        } else {
            self.mark_done();
            call2(fold_op, init, Err(()))
        }
    }
}

/// One step from the front of a piece: `before` became `after` and gave
/// `r`, with `stopped` the flag as read. Once stopped, nothing is given and
/// the base stays; else the verdict of the predicate on the base's next
/// item is given and the item taken off, or nothing where the base has none
/// to give.
pub open spec fn all_step<'b, I: Producer, P: Fn(I::Item) -> bool>(
    before: All<'b, I, P>,
    after: All<'b, I, P>,
    r: Option<Result<(), ()>>,
    stopped: bool,
) -> bool {
    &&& before.same_kind(after)
    &&& stopped ==> r is None && after.base.items() == before.base.items()
    &&& !stopped ==> match r {
        Some(v) => {
            &&& before.base.items().len() > 0
            &&& v == verdict(apply1(*before.predicate, before.base.items()[0]))
            &&& after.base.items() == before.base.items().drop_first()
        },
        None => {
            &&& after.base.items() == before.base.items()
            &&& before.base.complete() ==> before.base.items().len() == 0
        },
    }
}

/// One step from the back of a piece, as `all_step` from the front.
pub open spec fn all_back_step<'b, I: Producer, P: Fn(I::Item) -> bool>(
    before: All<'b, I, P>,
    after: All<'b, I, P>,
    r: Option<Result<(), ()>>,
    stopped: bool,
) -> bool {
    &&& before.same_kind(after)
    &&& stopped ==> r is None && after.base.items() == before.base.items()
    &&& !stopped ==> match r {
        Some(v) => {
            &&& before.base.items().len() > 0
            &&& v == verdict(apply1(*before.predicate, before.base.items().last()))
            &&& after.base.items() == before.base.items().drop_last()
        },
        None => {
            &&& after.base.items() == before.base.items()
            &&& before.base.complete() && before.base.double_ended() ==> before.base.items().len() == 0
        },
    }
}

/// While the flag is down, a step over a base that yields all its items
/// gives a verdict exactly when the base has an item left: the predicate's
/// verdict on that item, which is taken off and nothing else.
pub proof fn lemma_step_checks_the_next_item<'b, I: Producer, P: Fn(I::Item) -> bool>(
    before: All<'b, I, P>,
    after: All<'b, I, P>,
    r: Option<Result<(), ()>>,
)
    requires
        all_step(before, after, r, false),
        before.base.complete(),
    ensures
        before.base.items().len() > 0 <==> r is Some,
        before.base.items().len() > 0 ==> r == Some(verdict(apply1(*before.predicate, before.base.items()[0])))
            && before.base.items() == seq![before.base.items()[0]] + after.base.items(),
{
    if before.base.items().len() > 0 {
        assert(before.base.items() =~= seq![before.base.items()[0]] + before.base.items().drop_first());
    }
}

/// Whatever the flag read, a verdict given is the predicate's verdict on
/// the item the base gave up, and a step that gives nothing loses no item.
pub proof fn lemma_step_verdict_is_the_predicate<'b, I: Producer, P: Fn(I::Item) -> bool>(
    before: All<'b, I, P>,
    after: All<'b, I, P>,
    r: Option<Result<(), ()>>,
    stopped: bool,
)
    requires
        all_step(before, after, r, stopped),
    ensures
        r matches Some(v) ==> before.base.items().len() > 0 && v == verdict(
            apply1(*before.predicate, before.base.items()[0]),
        ) && after.base.items() == before.base.items().drop_first(),
        r is None ==> after.base.items() == before.base.items(),
        (r matches Some(v) && v is Err) <==> (r is Some && !apply1(*before.predicate, before.base.items()[0])),
{
}

impl<'b, I: Producer, P: Fn(I::Item) -> bool> All<'b, I, P> {
    /// `later` is this piece after its base yielded items, or none: same
    /// predicate and flag, and a base of the same kind.
    pub open spec fn same_kind(self, later: Self) -> bool {
        &&& later.predicate == self.predicate
        &&& later.stop == self.stop
        &&& later.base.wf()
        &&& later.base.spec_len() <= self.base.spec_len()
        &&& later.base.complete() == self.base.complete()
        &&& later.base.can_preview() == self.base.can_preview()
        &&& later.base.splits_items() == self.base.splits_items()
        &&& later.base.always_divisible() == self.base.always_divisible()
        &&& later.base.exact() == self.base.exact()
        &&& later.base.double_ended() == self.base.double_ended()
    }

    /// Whether to divide, given `stopped`, the flag as read: never once
    /// stopped, else as the base answers.
    pub fn should_be_divided_unless(&self, stopped: bool) -> (r: bool)
        requires
            self.wf(),
        ensures
            stopped ==> !r,
            !stopped ==> (self.base.must_divide() ==> r) && (r ==> self.base.may_divide()
                && self.base.can_divide()),
    {
        !stopped && self.base.should_be_divided()
    }

    /// The bounds on the work left, given `stopped`, the flag as read: none
    /// once stopped, else the bounds of the base.
    pub fn sizes_unless(&self, stopped: bool) -> (r: (usize, Option<usize>))
        requires
            self.wf(),
        ensures
            stopped ==> r == (0usize, Some(0usize)),
            !stopped ==> {
                &&& r.0 <= self.base.spec_len() || !self.base.complete()
                &&& r.1 matches Some(u) ==> self.base.spec_len() <= u || !self.base.complete()
                &&& self.base.complete() ==> r == self.base.spec_sizes()
            },
    {
        if stopped {
            (0, Some(0))
        } else {
            self.base.sizes()
        }
    }

    /// The next verdict, given `stopped`, the flag as read. Once stopped,
    /// none, and the base is left as it is; else the verdict on the next
    /// item of the base, raising the flag on a failure, or none where the
    /// base yields none.
    pub fn next_unless(&mut self, stopped: bool) -> (r: Option<Result<(), ()>>)
        requires
            old(self).wf(),
        ensures
            all_step(*old(self), *final(self), r, stopped),
    {
        if stopped {
            None
        } else {
            match self.base.next() {
                Some(x) => Some(self.check(x)),
                None => None,
            }
        }
    }

    /// The last verdict, given `stopped`, the flag as read. Once stopped,
    /// none, and the base is left as it is; else the verdict on the last
    /// item of the base, raising the flag on a failure, or none where the
    /// base yields none.
    pub fn next_back_unless(&mut self, stopped: bool) -> (r: Option<Result<(), ()>>)
        requires
            old(self).wf(),
        ensures
            all_back_step(*old(self), *final(self), r, stopped),
    {
        if stopped {
            None
        } else {
            match self.base.next_back() {
                Some(x) => Some(self.check(x)),
                None => None,
            }
        }
    }
}

impl<'b, I: Producer, P: Fn(I::Item) -> bool> Divisible for All<'b, I, P> {
    type Item = Result<(), ()>;

    open spec fn wf(&self) -> bool {
        self.base.wf() && deterministic1(*self.predicate)
    }

    open spec fn items(&self) -> Seq<Result<(), ()>> {
        self.base.items().map_values(|x: I::Item| verdict(apply1(*self.predicate, x)))
    }

    open spec fn spec_len(&self) -> nat {
        self.base.spec_len()
    }

    open spec fn splits_items(&self) -> bool {
        self.base.splits_items()
    }

    /// Another piece may raise the flag at any time.
    open spec fn complete(&self) -> bool {
        false
    }

    open spec fn double_ended(&self) -> bool {
        self.base.double_ended()
    }

    open spec fn can_preview(&self) -> bool {
        false
    }

    open spec fn can_divide(&self) -> bool {
        self.base.can_divide()
    }

    open spec fn can_divide_at(&self) -> bool {
        self.base.can_divide_at()
    }

    open spec fn exact(&self) -> bool {
        self.base.exact()
    }

    proof fn lemma_exact(&self) {
        self.base.lemma_exact();
    }

    open spec fn always_divisible(&self) -> bool {
        self.base.always_divisible()
    }

    proof fn lemma_always_divisible(&self) {
        self.base.lemma_always_divisible();
    }

    open spec fn may_divide(&self) -> bool {
        self.base.may_divide()
    }

    open spec fn must_divide(&self) -> bool {
        false
    }

    /// Not once a failure was met.
    fn should_be_divided(&self) -> (r: bool) {
        let stopped = self.done();
        self.should_be_divided_unless(stopped)
    }

    fn divide(self) -> (r: (Self, Self))
        ensures
            r.0.predicate == self.predicate && r.1.predicate == self.predicate,
            r.0.stop == self.stop && r.1.stop == self.stop,
    {
        let (left, right) = self.base.divide();
        let l = All { base: left, predicate: self.predicate, stop: self.stop };
        let r = All { base: right, predicate: self.predicate, stop: self.stop };
        proof {
            if self.base.splits_items() {
                assert(self.items() =~= l.items() + r.items());
            }
        }
        (l, r)
    }

    fn divide_at(self, index: usize) -> (r: (Self, Self))
        ensures
            r.0.predicate == self.predicate && r.1.predicate == self.predicate,
            r.0.stop == self.stop && r.1.stop == self.stop,
    {
        let (left, right) = self.base.divide_at(index);
        let l = All { base: left, predicate: self.predicate, stop: self.stop };
        let r = All { base: right, predicate: self.predicate, stop: self.stop };
        proof {
            if self.base.splits_items() {
                assert(self.items() =~= l.items() + r.items());
            }
        }
        (l, r)
    }
}

impl<'b, I: Producer, P: Fn(I::Item) -> bool> Producer for All<'b, I, P> {
    open spec fn spec_sizes(&self) -> (usize, Option<usize>) {
        self.base.spec_sizes()
    }

    /// Nothing once a failure was met; else the verdict on the next item.
    /// Which of the two rests on the flag as read: see `next_unless`.
    fn next(&mut self) -> (r: Option<Result<(), ()>>)
        ensures
            exists|stopped: bool| #[trigger] all_step(*old(self), *final(self), r, stopped),
    {
        let stopped = self.done();
        let r = self.next_unless(stopped);
        assert(all_step(*old(self), *self, r, stopped));
        assert(r is None ==> self.items() =~= old(self).items());
        assert(r is Some ==> self.items() =~= old(self).items().drop_first());
        r
    }

    /// Nothing once a failure was met; else the verdict on the last item.
    /// Which of the two rests on the flag as read: see `next_back_unless`.
    fn next_back(&mut self) -> (r: Option<Result<(), ()>>)
        ensures
            exists|stopped: bool| #[trigger] all_back_step(*old(self), *final(self), r, stopped),
    {
        let stopped = self.done();
        let r = self.next_back_unless(stopped);
        assert(all_back_step(*old(self), *self, r, stopped));
        assert(r is None ==> self.items() =~= old(self).items());
        assert(r is Some ==> self.items() =~= old(self).items().drop_last());
        r
    }

    /// Nothing is left once a failure was met; else the bounds of the base.
    fn sizes(&self) -> (r: (usize, Option<usize>))
        ensures
            r == (0usize, Some(0usize)) || (self.base.complete() ==> r == self.base.spec_sizes()),
    {
        let stopped = self.done();
        self.sizes_unless(stopped)
    }

    /// The number of verdicts to come: one per item of the base.
    fn length(&self) -> (r: usize)
        ensures
            self.base.can_preview() ==> r == self.items().len(),
    {
        self.base.length()
    }

    /// Never called: the verdicts cannot be previewed.
    fn preview(&self, index: usize) -> (r: Result<(), ()>) {
        Err(())
    }
}

} // verus!
