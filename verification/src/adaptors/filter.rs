//! Keeps the items a predicate accepts.
use vstd::prelude::*;
use crate::closures::{apply1, call1, deterministic1};
use crate::traits::{Consumer, Divisible, Producer};

verus! {

/// The predicate of the items that `filter` accepts.
pub open spec fn keeps<T, F: Fn(&T) -> bool>(filter: F) -> spec_fn(T) -> bool {
    |x: T| apply1(filter, &x)
}

/// The items of `s` that `pred` keeps, in order.
pub open spec fn filtered<T>(s: Seq<T>, pred: spec_fn(T) -> bool) -> Seq<T>
    decreases s.len(),
{
    if s.len() == 0 {
        s
    } else if pred(s[0]) {
        seq![s[0]] + filtered(s.drop_first(), pred)
    } else {
        filtered(s.drop_first(), pred)
    }
}

/// Filtering a concatenation filters each part.
pub proof fn lemma_filtered_add<T>(a: Seq<T>, b: Seq<T>, pred: spec_fn(T) -> bool)
    ensures
        filtered(a + b, pred) == filtered(a, pred) + filtered(b, pred),
    decreases a.len(),
{
    if a.len() == 0 {
        assert(a + b =~= b);
        assert(filtered(a, pred) =~= Seq::<T>::empty());
        assert(filtered(a, pred) + filtered(b, pred) =~= filtered(b, pred));
    } else {
        assert((a + b).drop_first() =~= a.drop_first() + b);
        lemma_filtered_add(a.drop_first(), b, pred);
        assert((a + b)[0] == a[0]);
        if pred(a[0]) {
            assert(filtered(a + b, pred) =~= filtered(a, pred) + filtered(b, pred));
        }
    }
}

/// Filtering never gives more items.
pub proof fn lemma_filtered_len<T>(s: Seq<T>, pred: spec_fn(T) -> bool)
    ensures
        filtered(s, pred).len() <= s.len(),
    decreases s.len(),
{
    if s.len() > 0 {
        lemma_filtered_len(s.drop_first(), pred);
    }
}

/// Keeps the items that `filter` accepts.
pub struct Filter<I, F> {
    pub base: I,
    pub filter: F,
}

impl<P: Producer, F: Fn(&P::Item) -> bool + Copy> Divisible for Filter<P, F> {
    type Item = P::Item;

    open spec fn wf(&self) -> bool {
        self.base.wf() && deterministic1(self.filter)
    }

    open spec fn items(&self) -> Seq<P::Item> {
        filtered(self.base.items(), keeps(self.filter))
    }

    open spec fn spec_len(&self) -> nat {
        self.base.spec_len()
    }

    open spec fn splits_items(&self) -> bool {
        self.base.splits_items()
    }

    open spec fn complete(&self) -> bool {
        self.base.complete()
    }

    open spec fn double_ended(&self) -> bool {
        false
    }

    open spec fn can_preview(&self) -> bool {
        false
    }

    open spec fn can_divide(&self) -> bool {
        self.base.can_divide()
    }

    open spec fn can_divide_at(&self) -> bool {
        self.base.can_divide_at()
    }

    open spec fn exact(&self) -> bool {
        false
    }

    proof fn lemma_exact(&self) {
        
    }

    open spec fn always_divisible(&self) -> bool {
        self.base.always_divisible()
    }

    proof fn lemma_always_divisible(&self) {
        self.base.lemma_always_divisible();
    }

    open spec fn may_divide(&self) -> bool {
        self.base.may_divide()
    }

    open spec fn must_divide(&self) -> bool {
        self.base.must_divide()
    }

    fn should_be_divided(&self) -> (r: bool) {
        self.base.should_be_divided()
    }

    fn divide(self) -> (r: (Self, Self)) {
        let (left, right) = self.base.divide();
        let l = Filter { base: left, filter: self.filter };
        let r = Filter { base: right, filter: self.filter };
        proof {
            if self.base.splits_items() {
                lemma_filtered_add(l.base.items(), r.base.items(), keeps(self.filter));
                assert(self.items() =~= l.items() + r.items());
            }
        }
        (l, r)
    }

    fn divide_at(self, index: usize) -> (r: (Self, Self)) {
        let (left, right) = self.base.divide_at(index);
        let l = Filter { base: left, filter: self.filter };
        let r = Filter { base: right, filter: self.filter };
        proof {
            if self.base.splits_items() {
                lemma_filtered_add(l.base.items(), r.base.items(), keeps(self.filter));
                assert(self.items() =~= l.items() + r.items());
            }
        }
        (l, r)
    }
}

impl<P: Producer, F: Fn(&P::Item) -> bool + Copy> Producer for Filter<P, F> {
    open spec fn spec_sizes(&self) -> (usize, Option<usize>) {
        (0usize, self.base.spec_sizes().1)
    }

    fn next(&mut self) -> (r: Option<P::Item>)
        ensures
            final(self).filter == old(self).filter,
            old(self).base.complete() && r is Some ==> (exists|k: int|
                0 <= k < old(self).base.items().len()
                && #[trigger] old(self).base.items().skip(k + 1) == final(self).base.items()
                && old(self).base.items()[k] == r->0
                && (forall|i: int| 0 <= i < k ==> !keeps(old(self).filter)(old(self).base.items()[i]))),
            old(self).base.complete() && r is None ==> final(self).base.items().len() == 0,
    {
        let ghost f = self.filter;
        let ghost pred = keeps(f);
        let ghost all = self.base.items();
        let ghost complete = self.base.complete();
        let ghost mut c: int = 0;
        proof {
            assert(all.skip(0) =~= all);
        }
        loop
            invariant
                self.base.wf(),
                self.filter == f,
                old(self).filter == f,
                pred == keeps(f),
                deterministic1(self.filter),
                self.base.spec_len() <= old(self).base.spec_len(),
                self.base.complete() == old(self).base.complete(),
                self.base.can_preview() == old(self).base.can_preview(),
                self.base.splits_items() == old(self).base.splits_items(),
                self.base.always_divisible() == old(self).base.always_divisible(),
                filtered(self.base.items(), pred) == filtered(old(self).base.items(), pred),
                all == old(self).base.items(),
                complete == old(self).base.complete(),
                complete ==> 0 <= c <= all.len() && self.base.items() == all.skip(c),
                complete ==> forall|i: int| 0 <= i < c ==> !pred(#[trigger] all[i]),
            decreases self.base.items().len(),
        {
            let ghost before = self.base.items();
            match self.base.next() {
                Some(elem) => {
                    let keep = call1(&self.filter, &elem);
                    proof {
                        assert(before.len() > 0 && before[0] == elem);
                        assert(self.base.items() == before.drop_first());
                        assert(pred(elem) == keep);
                    }
                    if keep {
                        proof {
                            if complete {
                                assert(all[c] == elem);
                                assert(all.skip(c + 1) =~= self.base.items());
                            }
                            assert(filtered(before, pred) == seq![elem] + filtered(self.base.items(), pred));
                            assert((seq![elem] + filtered(self.base.items(), pred)).drop_first() =~= filtered(self.base.items(), pred));
                        }
                        return Some(elem);
                    }
                    proof {
                        assert(filtered(before, pred) == filtered(self.base.items(), pred));
                        if complete {
                            assert(all[c] == elem);
                            assert(self.base.items() =~= all.skip(c + 1));
                        }
                        c = c + 1;
                    }
                },
                None => {
                    return None;
                },
            }
        }
    }

    fn next_back(&mut self) -> (r: Option<P::Item>) {
        None
    }

    fn sizes(&self) -> (r: (usize, Option<usize>)) {
        let (_, upper) = self.base.sizes();
        proof {
            lemma_filtered_len(self.base.items(), keeps(self.filter));
        }
        (0, upper)
    }

    fn length(&self) -> (r: usize) {
        0
    }

    fn preview(&self, index: usize) -> (r: P::Item) {
        self.base.preview(index)
    }
}


/// Consumes the items that `filter` accepts with `base`.
pub struct FilterConsumer<C, F> {
    pub base: C,
    pub filter: F,
}

impl<Item, C: Consumer<Item>, F: Fn(&Item) -> bool + Copy + Send> Consumer<Item> for FilterConsumer<C, F> {
    type Result = C::Result;

    type Reducer = C::Reducer;

    open spec fn wf(&self) -> bool {
        self.base.wf() && deterministic1(self.filter)
    }

    open spec fn spec_result(&self, items: Seq<Item>) -> C::Result {
        self.base.spec_result(filtered(items, keeps(self.filter)))
    }

    open spec fn spec_reducer(&self) -> C::Reducer {
        self.base.spec_reducer()
    }

    /// The reducer of `base`.
    fn to_reducer(self) -> (r: C::Reducer) {
        self.base.to_reducer()
    }

    /// Hands the items that `filter` accepts to `base`.
    fn consume_producer<P: Producer<Item = Item> + Send>(self, producer: P) -> (r: C::Result) {
        self.base.consume_producer(Filter { base: producer, filter: self.filter })
    }
}

} // verus!
