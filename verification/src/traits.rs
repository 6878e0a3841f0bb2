//! The traits of divisible work: what can be cut in two, and what yields
//! items in order while it can be cut.
use vstd::prelude::*;

verus! {

/// A source of items that can be cut in two independent parts.
pub trait Divisible: Sized {
    type Item;

    spec fn wf(&self) -> bool;

    /// The items still to come, in order.
    spec fn items(&self) -> Seq<Self::Item>;

    /// The number of positions it covers: `divide_at` cuts at a position.
    spec fn spec_len(&self) -> nat;

    /// Whether cutting keeps the items: the items of the parts, one after
    /// the other, are the items of the whole.
    spec fn splits_items(&self) -> bool;

    /// Whether it yields all of `items` (it stops early otherwise, when a
    /// shared flag tells it the work is done).
    spec fn complete(&self) -> bool;

    /// Whether `preview` and `length` may be called.
    spec fn can_preview(&self) -> bool;

    /// Whether `next_back` may be called.
    spec fn double_ended(&self) -> bool;

    /// Whether `divide` may be called.
    spec fn can_divide(&self) -> bool;

    /// Whether `divide_at` may be called.
    spec fn can_divide_at(&self) -> bool;

    /// Whether every position holds exactly one item.
    spec fn exact(&self) -> bool;

    proof fn lemma_exact(&self)
        ensures
            self.exact() ==> self.items().len() == self.spec_len(),
    ;

    /// Whether every part ever cut from it can be cut again.
    spec fn always_divisible(&self) -> bool;

    /// When `should_be_divided` may answer yes.
    spec fn may_divide(&self) -> bool;

    /// When `should_be_divided` must answer yes.
    spec fn must_divide(&self) -> bool;

    /// A part that can always be cut can be cut now.
    proof fn lemma_always_divisible(&self)
        ensures
            self.always_divisible() ==> self.can_divide() && self.can_divide_at(),
    ;

    /// Whether it is worth dividing now.
    fn should_be_divided(&self) -> (r: bool)
        requires
            self.wf(),
        ensures
            self.must_divide() ==> r,
            r ==> self.may_divide(),
            r ==> self.can_divide(),
    ;

    /// Cuts in two parts that together cover the same positions.
    fn divide(self) -> (r: (Self, Self))
        requires
            self.wf(),
            self.can_divide(),
        ensures
            r.0.wf(),
            r.1.wf(),
            r.0.spec_len() + r.1.spec_len() == self.spec_len(),
            r.0.splits_items() == self.splits_items(),
            r.1.splits_items() == self.splits_items(),
            r.0.complete() == self.complete(),
            r.1.complete() == self.complete(),
            r.0.can_preview() == self.can_preview(),
            r.1.can_preview() == self.can_preview(),
            r.0.double_ended() == self.double_ended(),
            r.1.double_ended() == self.double_ended(),
            self.splits_items() ==> self.items() == r.0.items() + r.1.items(),
            self.always_divisible() ==> r.0.always_divisible() && r.1.always_divisible(),
            r.0.exact() == self.exact(),
            r.1.exact() == self.exact(),
    ;

    /// Cuts at position `index`.
    fn divide_at(self, index: usize) -> (r: (Self, Self))
        requires
            self.wf(),
            self.can_divide_at(),
            index <= self.spec_len(),
        ensures
            r.0.wf(),
            r.1.wf(),
            r.0.spec_len() == index,
            r.1.spec_len() == self.spec_len() - index,
            r.0.splits_items() == self.splits_items(),
            r.1.splits_items() == self.splits_items(),
            r.0.complete() == self.complete(),
            r.1.complete() == self.complete(),
            r.0.can_preview() == self.can_preview(),
            r.1.can_preview() == self.can_preview(),
            r.0.double_ended() == self.double_ended(),
            r.1.double_ended() == self.double_ended(),
            self.splits_items() ==> self.items() == r.0.items() + r.1.items(),
            self.always_divisible() ==> r.0.always_divisible() && r.1.always_divisible(),
            r.0.exact() == self.exact(),
            r.1.exact() == self.exact(),
    ;
}

/// A divisible source that yields its items one by one.
pub trait Producer: Divisible {
    /// The next item.
    fn next(&mut self) -> (r: Option<Self::Item>)
        requires
            old(self).wf(),
        ensures
            final(self).wf(),
            final(self).spec_len() <= old(self).spec_len(),
            final(self).complete() == old(self).complete(),
            final(self).can_preview() == old(self).can_preview(),
            final(self).splits_items() == old(self).splits_items(),
            final(self).always_divisible() == old(self).always_divisible(),
            final(self).exact() == old(self).exact(),
            final(self).double_ended() == old(self).double_ended(),
            r matches Some(x) ==> old(self).items().len() > 0 && x == old(self).items()[0]
                && final(self).items() == old(self).items().drop_first(),
            r is None ==> final(self).items() == old(self).items(),
            r is None && old(self).complete() ==> old(self).items().len() == 0,
    ;

    /// The last item (never any where it is not double ended).
    fn next_back(&mut self) -> (r: Option<Self::Item>)
        requires
            old(self).wf(),
        ensures
            final(self).wf(),
            final(self).spec_len() <= old(self).spec_len(),
            final(self).complete() == old(self).complete(),
            final(self).can_preview() == old(self).can_preview(),
            final(self).splits_items() == old(self).splits_items(),
            final(self).always_divisible() == old(self).always_divisible(),
            final(self).exact() == old(self).exact(),
            final(self).double_ended() == old(self).double_ended(),
            r matches Some(x) ==> old(self).items().len() > 0 && x == old(self).items().last()
                && final(self).items() == old(self).items().drop_last(),
            r is None ==> final(self).items() == old(self).items(),
            r is None && old(self).complete() && old(self).double_ended() ==> old(self).items().len()
                == 0,
    ;

    /// The bounds that `sizes` gives while no other piece has stopped the
    /// work.
    spec fn spec_sizes(&self) -> (usize, Option<usize>);

    /// Bounds on the work still to do, counted in positions (in items, where
    /// every position holds one). Only a producer that yields all its items
    /// promises them, and gives `spec_sizes`: one that stops early may stop
    /// at any time.
    fn sizes(&self) -> (r: (usize, Option<usize>))
        requires
            self.wf(),
        ensures
            r.0 <= self.spec_len() || !self.complete(),
            r.1 matches Some(u) ==> self.spec_len() <= u || !self.complete(),
            self.complete() ==> r == self.spec_sizes(),
    ;

    /// The number of items still to come (where it can preview).
    fn length(&self) -> (r: usize)
        requires
            self.wf(),
        ensures
            self.can_preview() ==> r == self.items().len(),
    ;

    /// The item at `index` among those still to come, without consuming it.
    fn preview(&self, index: usize) -> (r: Self::Item)
        requires
            self.wf(),
            self.can_preview(),
            index < self.items().len(),
        ensures
            r == self.items()[index as int],
    ;
}

/// Consumes the items of a producer into a result.
pub trait Consumer<Item>: Sized {
    type Result;

    /// Combines the results of consumers of parts of the items.
    type Reducer: Reducer<Self::Result>;

    spec fn wf(&self) -> bool;

    /// The result of consuming all of `items`, in order.
    spec fn spec_result(&self, items: Seq<Item>) -> Self::Result;

    /// The reducer that combines results of this consumer.
    spec fn spec_reducer(&self) -> Self::Reducer;

    /// The reducer that combines results of this consumer.
    fn to_reducer(self) -> (r: Self::Reducer)
        requires
            self.wf(),
        ensures
            r == self.spec_reducer(),
            r.wf(),
    ;

    /// Consumes the items of `producer`.
    fn consume_producer<P: Producer<Item = Item> + Send>(self, producer: P) -> (r: Self::Result)
        requires
            self.wf(),
            producer.wf(),
        ensures
            producer.complete() && producer.splits_items() ==> r == self.spec_result(
                producer.items(),
            ),
    ;
}

/// What is done with a producer once an iterator has built it.
pub trait ProducerCallback<T>: Sized {
    type Output;

    spec fn wf(&self) -> bool;

    /// The output for a producer that yields exactly `items`, in order.
    spec fn spec_output(&self, items: Seq<T>) -> Self::Output;

    /// Runs on `producer`.
    fn call<P: Producer<Item = T> + Send>(self, producer: P) -> (r: Self::Output)
        requires
            self.wf(),
            producer.wf(),
        ensures
            producer.complete() && producer.splits_items() ==> r == self.spec_output(
                producer.items(),
            ),
    ;
}

/// Combines partial results: `reduce` is meant to be associative with
/// `identity` as its unit.
pub trait Reducer<T> {
    spec fn wf(&self) -> bool;

    spec fn spec_identity(&self) -> T;

    spec fn spec_reduce(&self, a: T, b: T) -> T;

    fn identity(&self) -> (r: T)
        requires
            self.wf(),
        ensures
            r == self.spec_identity(),
    ;

    fn reduce(&self, a: T, b: T) -> (r: T)
        requires
            self.wf(),
        ensures
            r == self.spec_reduce(a, b),
    ;
}

/// The reduction of `s` from `init`, left to right.
pub open spec fn fold_items<T, R: Reducer<T>>(reducer: R, init: T, s: Seq<T>) -> T
    decreases s.len(),
{
    if s.len() == 0 {
        init
    } else {
        fold_items(reducer, reducer.spec_reduce(init, s[0]), s.drop_first())
    }
}

/// Whether `reducer` is a monoid: `spec_reduce` is associative and
/// `spec_identity` is its unit on both sides.
pub open spec fn monoid<T, R: Reducer<T>>(reducer: R) -> bool {
    &&& forall|a: T, b: T, c: T|
        #[trigger] reducer.spec_reduce(reducer.spec_reduce(a, b), c) == reducer.spec_reduce(
            a,
            reducer.spec_reduce(b, c),
        )
    &&& forall|a: T| #[trigger] reducer.spec_reduce(reducer.spec_identity(), a) == a
    &&& forall|a: T| #[trigger] reducer.spec_reduce(a, reducer.spec_identity()) == a
}

/// Folding a concatenation folds the second part from where the first left off.
pub proof fn lemma_fold_concat<T, R: Reducer<T>>(reducer: R, init: T, a: Seq<T>, b: Seq<T>)
    ensures
        fold_items(reducer, init, a + b) == fold_items(reducer, fold_items(reducer, init, a), b),
    decreases a.len(),
{
    if a.len() > 0 {
        assert((a + b).drop_first() =~= a.drop_first() + b);
        lemma_fold_concat(reducer, reducer.spec_reduce(init, a[0]), a.drop_first(), b);
    } else {
        assert(a + b =~= b);
    }
}

/// With a monoid, folding from `init` is reducing `init` with the fold from
/// the identity.
pub proof fn lemma_fold_from<T, R: Reducer<T>>(reducer: R, init: T, s: Seq<T>)
    requires
        monoid(reducer),
    ensures
        fold_items(reducer, init, s) == reducer.spec_reduce(
            init,
            fold_items(reducer, reducer.spec_identity(), s),
        ),
    decreases s.len(),
{
    if s.len() > 0 {
        let id = reducer.spec_identity();
        lemma_fold_from(reducer, reducer.spec_reduce(init, s[0]), s.drop_first());
        lemma_fold_from(reducer, s[0], s.drop_first());
        assert(reducer.spec_reduce(id, s[0]) == s[0]);
        let rest = fold_items(reducer, id, s.drop_first());
        assert(reducer.spec_reduce(reducer.spec_reduce(init, s[0]), rest) == reducer.spec_reduce(
            init,
            reducer.spec_reduce(s[0], rest),
        ));
    } else {
        assert(reducer.spec_reduce(init, reducer.spec_identity()) == init);
    }
}

/// With a monoid, the fold of two parts, reduced together, is the fold of
/// the whole: dividing work does not change the result.
pub proof fn lemma_fold_split<T, R: Reducer<T>>(reducer: R, a: Seq<T>, b: Seq<T>)
    requires
        monoid(reducer),
    ensures
        reducer.spec_reduce(
            fold_items(reducer, reducer.spec_identity(), a),
            fold_items(reducer, reducer.spec_identity(), b),
        ) == fold_items(reducer, reducer.spec_identity(), a + b),
{
    let id = reducer.spec_identity();
    lemma_fold_concat(reducer, id, a, b);
    lemma_fold_from(reducer, fold_items(reducer, id, a), b);
}

} // verus!
