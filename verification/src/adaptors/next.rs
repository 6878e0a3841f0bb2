//! Finds the first item: pieces further right than a piece that found an
//! item stop.
use vstd::prelude::*;
use std::ops::Range;
use std::sync::atomic::{AtomicUsize, Ordering};
use crate::traits::{Divisible, Producer};

verus! {

/// Asks for the first item of `base`.
pub struct Next<I> {
    pub base: I,
}

impl<P: Producer> Next<P> {
    /// The producer that looks for the first item of `self.base`: its
    /// position range covers every position, and `found_at` is shared by
    /// all its pieces.
    pub fn producer<'a>(self, found_at: &'a AtomicUsize) -> (r: NextProducer<'a, P>)
        ensures
            r.base == self.base,
            r.fake_range == (0..usize::MAX),
            r.found_at == found_at,
    {
        NextProducer { base: self.base, fake_range: 0..usize::MAX, found_at }
    }
}

/// A piece of the search for the first item. `fake_range` stands for the
/// positions the piece covers; `found_at` holds the smallest start of a
/// piece that has yielded an item.
pub struct NextProducer<'a, P> {
    pub base: P,
    pub fake_range: Range<usize>,
    pub found_at: &'a AtomicUsize,
}

impl<'a, P> NextProducer<'a, P> {
    /// Whether a piece that starts before this one has yielded an item.
    pub fn done(&self) -> bool {
        self.fake_range.start > self.found_at.load(Ordering::Relaxed)
    }
}

/// One step from the front of a piece: `before` became `after` and gave
/// `r`, with `found` the smallest start read from the shared record. Where
/// a piece further left found an item (`found` below this piece's start),
/// nothing is given and the base stays; else the base's next item is given
/// and taken off, or nothing where the base has none to give.
pub open spec fn next_step<'a, P: Producer>(
    before: NextProducer<'a, P>,
    after: NextProducer<'a, P>,
    r: Option<P::Item>,
    found: usize,
) -> bool {
    &&& before.same_kind(after)
    &&& found < before.fake_range.start ==> r is None && after.base.items() == before.base.items()
    &&& found >= before.fake_range.start ==> match r {
        Some(x) => {
            &&& before.base.items().len() > 0
            &&& x == before.base.items()[0]
            &&& after.base.items() == before.base.items().drop_first()
        },
        None => {
            &&& after.base.items() == before.base.items()
            &&& before.base.complete() ==> before.base.items().len() == 0
        },
    }
}

/// One step from the back of a piece, as `next_step` from the front.
pub open spec fn next_back_step<'a, P: Producer>(
    before: NextProducer<'a, P>,
    after: NextProducer<'a, P>,
    r: Option<P::Item>,
    found: usize,
) -> bool {
    &&& before.same_kind(after)
    &&& found < before.fake_range.start ==> r is None && after.base.items() == before.base.items()
    &&& found >= before.fake_range.start ==> match r {
        Some(x) => {
            &&& before.base.items().len() > 0
            &&& x == before.base.items().last()
            &&& after.base.items() == before.base.items().drop_last()
        },
        None => {
            &&& after.base.items() == before.base.items()
            &&& before.base.complete() && before.base.double_ended() ==> before.base.items().len() == 0
        },
    }
}

/// Nothing further left than position 0 can find an item: a step of the
/// leftmost piece, over a base that yields all its items, gives the base's
/// next item whenever there is one, whatever was read from the record.
pub proof fn lemma_leftmost_piece_yields<'a, P: Producer>(
    before: NextProducer<'a, P>,
    after: NextProducer<'a, P>,
    r: Option<P::Item>,
    found: usize,
)
    requires
        next_step(before, after, r, found),
        before.fake_range.start == 0,
        before.base.complete(),
        before.base.items().len() > 0,
    ensures
        r == Some(before.base.items()[0]),
        after.base.items() == before.base.items().drop_first(),
{
}

/// While nothing was found further left, a step gives every item of a base
/// that yields all its items, and never skips one: the items given by steps
/// from the front are, in order, those of the base.
pub proof fn lemma_step_gives_the_next_item<'a, P: Producer>(
    before: NextProducer<'a, P>,
    after: NextProducer<'a, P>,
    r: Option<P::Item>,
    found: usize,
)
    requires
        next_step(before, after, r, found),
        found >= before.fake_range.start,
        before.base.complete(),
    ensures
        before.base.items().len() > 0 <==> r is Some,
        r is Some ==> before.base.items() == seq![r->0] + after.base.items(),
        r is None ==> after.base.items() == before.base.items(),
{
    if r is Some {
        assert(before.base.items() =~= seq![r->0] + before.base.items().drop_first());
    }
}

/// Where a piece further left found an item, a step gives nothing and
/// loses nothing: the base keeps all its items.
pub proof fn lemma_stopped_step_keeps_the_base<'a, P: Producer>(
    before: NextProducer<'a, P>,
    after: NextProducer<'a, P>,
    r: Option<P::Item>,
    found: usize,
)
    requires
        next_step(before, after, r, found) || next_back_step(before, after, r, found),
        found < before.fake_range.start,
    ensures
        r is None,
        after.base.items() == before.base.items(),
{
}

impl<'a, P: Producer> NextProducer<'a, P> {
    /// `later` is this piece after its base yielded items, or none: same
    /// positions and shared record, and a base of the same kind.
    pub open spec fn same_kind(self, later: Self) -> bool {
        &&& later.fake_range == self.fake_range
        &&& later.found_at == self.found_at
        &&& later.base.wf()
        &&& later.base.spec_len() <= self.base.spec_len()
        &&& later.base.complete() == self.base.complete()
        &&& later.base.can_preview() == self.base.can_preview()
        &&& later.base.splits_items() == self.base.splits_items()
        &&& later.base.always_divisible() == self.base.always_divisible()
        &&& later.base.exact() == self.base.exact()
        &&& later.base.double_ended() == self.base.double_ended()
    }

    /// Whether to divide, given `found`, the smallest start read from the
    /// shared record: never where a piece further left found an item, else
    /// as the base answers.
    pub fn should_be_divided_after(&self, found: usize) -> (r: bool)
        requires
            self.wf(),
        ensures
            found < self.fake_range.start ==> !r,
            found >= self.fake_range.start ==> (self.base.must_divide() ==> r) && (r
                ==> self.base.may_divide() && self.base.can_divide()),
    {
        if self.fake_range.start > found {
            false
        } else {
            self.base.should_be_divided()
        }
    }

    /// The bounds on the work left, given `found`, the smallest start read
    /// from the shared record: none where a piece further left found an
    /// item, else the bounds of the base.
    pub fn sizes_after(&self, found: usize) -> (r: (usize, Option<usize>))
        requires
            self.wf(),
        ensures
            found < self.fake_range.start ==> r == (0usize, Some(0usize)),
            found >= self.fake_range.start ==> {
                &&& r.0 <= self.base.spec_len() || !self.base.complete()
                &&& r.1 matches Some(u) ==> self.base.spec_len() <= u || !self.base.complete()
                &&& self.base.complete() ==> r == self.base.spec_sizes()
            },
    {
        if self.fake_range.start > found {
            (0, Some(0))
        } else {
            self.base.sizes()
        }
    }

    /// The next item, given `found`, the smallest start read from the
    /// shared record. Where a piece further left found an item (`found`
    /// below this piece's start), none, and the base is left as it is; else
    /// what the base yields, recording this piece's start where it is an
    /// item.
    pub fn next_after(&mut self, found: usize) -> (r: Option<P::Item>)
        requires
            old(self).wf(),
        ensures
            next_step(*old(self), *final(self), r, found),
    {
        if self.fake_range.start > found {
            None
        } else {
            let n = self.base.next();
            if n.is_some() {
                self.found_at.fetch_min(self.fake_range.start, Ordering::Relaxed);
            }
            n
        }
    }

    /// The last item, given `found`, the smallest start read from the
    /// shared record. Where a piece further left found an item (`found`
    /// below this piece's start), none, and the base is left as it is; else
    /// what the base yields from its back, recording this piece's start
    /// where it is an item.
    pub fn next_back_after(&mut self, found: usize) -> (r: Option<P::Item>)
        requires
            old(self).wf(),
        ensures
            next_back_step(*old(self), *final(self), r, found),
    {
        if self.fake_range.start > found {
            None
        } else {
            let n = self.base.next_back();
            if n.is_some() {
                self.found_at.fetch_min(self.fake_range.start, Ordering::Relaxed);
            }
            n
        }
    }
}

impl<'a, P: Producer> Divisible for NextProducer<'a, P> {
    type Item = P::Item;

    open spec fn wf(&self) -> bool {
        self.base.wf() && self.fake_range.start <= self.fake_range.end
    }

    open spec fn items(&self) -> Seq<P::Item> {
        self.base.items()
    }

    open spec fn spec_len(&self) -> nat {
        self.base.spec_len()
    }

    open spec fn splits_items(&self) -> bool {
        self.base.splits_items()
    }

    /// A piece further left may find an item at any time.
    open spec fn complete(&self) -> bool {
        false
    }

    open spec fn double_ended(&self) -> bool {
        self.base.double_ended()
    }

    open spec fn can_preview(&self) -> bool {
        self.base.can_preview()
    }

    open spec fn can_divide(&self) -> bool {
        self.base.can_divide()
    }

    /// The range of positions is cut at the same index, so it must cover
    /// the positions of the base.
    open spec fn can_divide_at(&self) -> bool {
        self.base.can_divide_at() && self.base.spec_len() <= self.fake_range.end
            - self.fake_range.start
    }

    open spec fn exact(&self) -> bool {
        self.base.exact()
    }

    proof fn lemma_exact(&self) {
        self.base.lemma_exact();
    }

    open spec fn always_divisible(&self) -> bool {
        false
    }

    proof fn lemma_always_divisible(&self) {
    }

    open spec fn may_divide(&self) -> bool {
        self.base.may_divide()
    }

    open spec fn must_divide(&self) -> bool {
        false
    }

    /// Not once a piece further left has found an item.
    fn should_be_divided(&self) -> (r: bool) {
        let found = self.found_at.load(Ordering::Relaxed);
        self.should_be_divided_after(found)
    }

    /// Divides the base, and the range of positions in its middle.
    fn divide(self) -> (r: (Self, Self))
        ensures
            r.0.found_at == self.found_at && r.1.found_at == self.found_at,
            r.0.fake_range.start == self.fake_range.start,
            r.0.fake_range.end == r.1.fake_range.start,
            r.1.fake_range.end == self.fake_range.end,
    {
        let (left, right) = self.base.divide();
        let (left_range, right_range) = self.fake_range.divide();
        (
            NextProducer { base: left, fake_range: left_range, found_at: self.found_at },
            NextProducer { base: right, fake_range: right_range, found_at: self.found_at },
        )
    }

    /// Cuts the base and the range of positions at `index`.
    fn divide_at(self, index: usize) -> (r: (Self, Self))
        ensures
            r.0.found_at == self.found_at && r.1.found_at == self.found_at,
            r.0.fake_range.start == self.fake_range.start,
            r.0.fake_range.end == r.1.fake_range.start,
            r.0.fake_range.end == self.fake_range.start + index,
            r.1.fake_range.end == self.fake_range.end,
    {
        let (left, right) = self.base.divide_at(index);
        let (left_range, right_range) = self.fake_range.divide_at(index);
        (
            NextProducer { base: left, fake_range: left_range, found_at: self.found_at },
            NextProducer { base: right, fake_range: right_range, found_at: self.found_at },
        )
    }
}

impl<'a, P: Producer> Producer for NextProducer<'a, P> {
    open spec fn spec_sizes(&self) -> (usize, Option<usize>) {
        self.base.spec_sizes()
    }

    /// Nothing once a piece further left has found an item; else the next
    /// item, recording that this piece found one. Which of the two rests on
    /// the smallest start read: see `next_after`.
    fn next(&mut self) -> (r: Option<P::Item>)
        ensures
            exists|found: usize| #[trigger] next_step(*old(self), *final(self), r, found),
            old(self).fake_range.start == 0 && old(self).base.complete() && old(self).base.items().len()
                > 0 ==> r == Some(old(self).base.items()[0]),
    {
        let found = self.found_at.load(Ordering::Relaxed);
        let r = self.next_after(found);
        proof {
            assert(next_step(*old(self), *self, r, found));
            if old(self).fake_range.start == 0 && old(self).base.complete() && old(self).base.items().len() > 0 {
                lemma_leftmost_piece_yields(*old(self), *self, r, found);
            }
        }
        r
    }

    /// Nothing once a piece further left has found an item; else the last
    /// item, recording that this piece found one. Which of the two rests on
    /// the smallest start read: see `next_back_after`.
    fn next_back(&mut self) -> (r: Option<P::Item>)
        ensures
            exists|found: usize| #[trigger] next_back_step(*old(self), *final(self), r, found),
            old(self).fake_range.start == 0 && old(self).base.complete() && old(self).base.double_ended()
                && old(self).base.items().len() > 0 ==> r == Some(old(self).base.items().last()),
    {
        let found = self.found_at.load(Ordering::Relaxed);
        let r = self.next_back_after(found);
        proof {
            assert(next_back_step(*old(self), *self, r, found));
        }
        r
    }

    /// Nothing is left once a piece further left has found an item; else
    /// the bounds of the base.
    fn sizes(&self) -> (r: (usize, Option<usize>))
        ensures
            r == (0usize, Some(0usize)) || (self.base.complete() ==> r == self.base.spec_sizes()),
    {
        let found = self.found_at.load(Ordering::Relaxed);
        self.sizes_after(found)
    }

    fn length(&self) -> (r: usize) {
        self.base.length()
    }

    fn preview(&self, index: usize) -> (r: P::Item) {
        self.base.preview(index)
    }
}

} // verus!
