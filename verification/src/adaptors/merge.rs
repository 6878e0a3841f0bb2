//! Merges two sorted producers into one sorted producer.
use vstd::prelude::*;
use crate::algorithms::merging::{all_le, all_lt, lemma_merged_len, lemma_merged_split, merged, sorted};
use crate::traits::{Divisible, Producer, ProducerCallback};

verus! {

/// What a side of a merge must offer: sorted items that it yields in full,
/// a length and a preview, and cuts at any position that keep the items.
pub open spec fn sorted_side<P: Producer<Item = u32>>(p: P) -> bool {
    &&& p.wf()
    &&& sorted(p.items())
    &&& p.can_preview()
    &&& p.exact()
    &&& p.splits_items()
    &&& p.complete()
    &&& p.always_divisible()
}

/// Whether `s` can be cut between two different neighbours near its middle:
/// it has three values at least, and not all equal.
pub open spec fn cuttable(s: Seq<u32>) -> bool {
    s.len() >= 3 && s[0] != s.last()
}

/// The parts of a sorted sequence are sorted.
pub proof fn lemma_sorted_parts(x: Seq<u32>, y: Seq<u32>)
    requires
        sorted(x + y),
    ensures
        sorted(x),
        sorted(y),
{
    let s = x + y;
    assert forall|i: int, j: int| 0 <= i <= j < x.len() implies x[i] <= x[j] by {
        assert(x[i] == s[i] && x[j] == s[j]);
    }
    assert forall|i: int, j: int| 0 <= i <= j < y.len() implies y[i] <= y[j] by {
        assert(y[i] == s[x.len() + i] && y[j] == s[x.len() + j]);
    }
}

/// Cuts `p` at `index`: the parts are sorted sides that hold the first
/// `index` items and the others.
fn cut_at<P: Producer<Item = u32>>(p: P, index: usize) -> (r: (P, P))
    requires
        sorted_side(p),
        index <= p.items().len(),
    ensures
        sorted_side(r.0),
        sorted_side(r.1),
        r.0.items() == p.items().take(index as int),
        r.1.items() == p.items().skip(index as int),
{
    proof {
        p.lemma_exact();
        p.lemma_always_divisible();
    }
    let ghost s = p.items();
    let (left, right) = p.divide_at(index);
    proof {
        left.lemma_exact();
        lemma_sorted_parts(left.items(), right.items());
        assert(left.items() =~= s.take(index as int));
        assert(right.items() =~= s.skip(index as int));
    }
    (left, right)
}

/// The doubling search around the middle `h` of `s`, from `last`: the
/// largest power-of-two multiple of `last` such that the values that far
/// on both sides of the middle, and at every power of two in between, equal
/// the middle value, without going further than half the sequence.
pub open spec fn equal_radius_from(s: Seq<u32>, h: int, last: int) -> int
    decreases s.len() - last,
{
    if 1 <= last && 2 * last <= (s.len() - 1) / 2 && s[h + 2 * last] == s[h] && s[h - 2 * last]
        == s[h] {
        equal_radius_from(s, h, 2 * last)
    } else {
        last
    }
}

/// Where `cut_around_middle` cuts the sorted `s` (its left part holds `e`
/// values). With `h` the middle index: after `h` where the value changes
/// there, else before `h` where it changes there; else the middle lies in a
/// run of equal values, and the cut is at the start of that run where the
/// doubling search found a different value at twice its radius to the left
/// (or at the first value), and at the end of the run otherwise.
pub open spec fn middle_cut(s: Seq<u32>, e: int) -> bool {
    let n = s.len() as int;
    let h = n / 2;
    let mid = s[h];
    if s[h] != s[h + 1] {
        e == h + 1
    } else if s[h] != s[h - 1] {
        e == h
    } else {
        let last = equal_radius_from(s, h, 1);
        let low = if h >= 2 * last {
            h - 2 * last
        } else {
            0
        };
        if s[low] != mid {
            0 < e < n && s[e - 1] < mid && s[e] == mid
        } else {
            0 < e < n && s[e - 1] == mid && s[e] > mid
        }
    }
}

/// The index `e` in `start + 1 ..= end` where the values of a sorted
/// producer pass from below `value` to at least `value`, found by a binary
/// search.
fn first_at_least<P: Producer<Item = u32>>(p: &P, start: usize, end: usize, value: u32) -> (e: usize)
    requires
        sorted_side(*p),
        start < end < p.items().len(),
        p.items()[start as int] < value,
        p.items()[end as int] >= value,
    ensures
        start < e <= end,
        p.items()[e - 1] < value,
        p.items()[e as int] >= value,
{
    let ghost s = p.items();
    let mut start = start;
    let mut end = end;
    while start < end - 1
        invariant
            sorted_side(*p),
            s == p.items(),
            start < end < s.len(),
            s[start as int] < value,
            s[end as int] >= value,
        decreases end - start,
    {
        let mid = start + (end - start) / 2;
        if p.preview(mid) < value {
            start = mid;
        } else {
            end = mid;
        }
    }
    end
}

/// The index `e` in `start + 1 ..= end` where the values of a sorted
/// producer pass from at most `value` to above `value`, found by a binary
/// search.
fn first_above<P: Producer<Item = u32>>(p: &P, start: usize, end: usize, value: u32) -> (e: usize)
    requires
        sorted_side(*p),
        start < end < p.items().len(),
        p.items()[start as int] <= value,
        p.items()[end as int] > value,
    ensures
        start < e <= end,
        p.items()[e - 1] <= value,
        p.items()[e as int] > value,
{
    let ghost s = p.items();
    let mut start = start;
    let mut end = end;
    while start < end - 1
        invariant
            sorted_side(*p),
            s == p.items(),
            start < end < s.len(),
            s[start as int] <= value,
            s[end as int] > value,
        decreases end - start,
    {
        let mid = start + (end - start) / 2;
        if p.preview(mid) <= value {
            start = mid;
        } else {
            end = mid;
        }
    }
    end
}

/// The largest power of two `last` such that the values `last` places
/// around the middle `h`, and at every smaller power of two, equal the
/// middle value. Both neighbours of the middle are known to be equal to it.
fn equal_radius<P: Producer<Item = u32>>(p: &P, h: usize, middle_value: u32) -> (last: usize)
    requires
        sorted_side(*p),
        p.items().len() >= 3,
        h == p.items().len() / 2,
        middle_value == p.items()[h as int],
        p.items()[h + 1] == middle_value,
        p.items()[h - 1] == middle_value,
    ensures
        1 <= last <= (p.items().len() - 1) / 2,
        p.items()[h + last] == middle_value,
        p.items()[h - last] == middle_value,
        !(2 * last <= (p.items().len() - 1) / 2 && p.items()[h + 2 * last] == middle_value
            && p.items()[h - 2 * last] == middle_value),
        last == equal_radius_from(p.items(), h as int, 1),
{
    let ghost s = p.items();
    let iter_len = p.length();
    let mut last: usize = 1;
    loop
        invariant
            sorted_side(*p),
            s == p.items(),
            iter_len == s.len(),
            iter_len >= 3,
            h == iter_len / 2,
            1 <= last <= (iter_len - 1) / 2,
            s[h + last] == middle_value,
            s[h - last] == middle_value,
            equal_radius_from(s, h as int, last as int) == equal_radius_from(s, h as int, 1),
        ensures
            1 <= last <= (iter_len - 1) / 2,
            s[h + last] == middle_value,
            s[h - last] == middle_value,
            !(2 * last <= (iter_len - 1) / 2 && s[h + 2 * last] == middle_value && s[h - 2 * last]
                == middle_value),
            equal_radius_from(s, h as int, last as int) == equal_radius_from(s, h as int, 1),
        decreases iter_len - last,
    {
        let next = 2 * last;
        if next <= (iter_len - 1) / 2 && p.preview(h + next) == middle_value && p.preview(h - next)
            == middle_value {
            last = next;
        } else {
            break ;
        }
    }
    last
}

/// The position near the middle of a sorted producer where it can be cut
/// between two different values. Where the middle is inside a run of equal
/// values, the run is measured by doubling steps around the middle, and its
/// end is found by a binary search.
fn middle_cut_position<P: Producer<Item = u32>>(p: &P) -> (end: usize)
    requires
        sorted_side(*p),
        cuttable(p.items()),
    ensures
        1 <= end < p.items().len(),
        p.items()[end - 1] < p.items()[end as int],
        middle_cut(p.items(), end as int),
{
    let ghost s = p.items();
    let iter_len = p.length();
    let h = iter_len / 2;
    if p.preview(h) != p.preview(h + 1) {
        h + 1
    } else if p.preview(h) != p.preview(h - 1) {
        h
    } else {
        let middle_value = p.preview(h);
        let last = equal_radius(p, h, middle_value);
        let low = if h >= 2 * last {
            h - 2 * last
        } else {
            0
        };
        let high = if 2 * last <= iter_len - 1 - h {
            h + 2 * last
        } else {
            iter_len - 1
        };
        if middle_value != p.preview(low) {
            // The run starts between `low` and `h - last`.
            first_at_least(p, low, h - last, middle_value)
        } else {
            // Every value from `low` to the middle is the middle value, so
            // the run ends before `high`.
            assert(middle_value != s[high as int]);
            first_above(p, h + last, high, middle_value)
        }
    }
}

/// Cuts a sorted producer near its middle, between two different values:
/// the last item of the left part is below the first item of the right
/// part.
pub fn cut_around_middle<P: Producer<Item = u32>>(sorted_producer: P) -> (r: (P, P))
    requires
        sorted_side(sorted_producer),
        cuttable(sorted_producer.items()),
    ensures
        sorted_side(r.0),
        sorted_side(r.1),
        r.0.items() + r.1.items() == sorted_producer.items(),
        r.0.items().len() >= 1,
        r.1.items().len() >= 1,
        r.0.items().last() < r.1.items()[0],
        middle_cut(sorted_producer.items(), r.0.items().len() as int),
{
    let ghost s = sorted_producer.items();
    let end = middle_cut_position(&sorted_producer);
    let (left, right) = cut_at(sorted_producer, end);
    proof {
        assert(s.take(end as int) + s.skip(end as int) =~= s);
        assert(left.items().last() == s[end - 1]);
        assert(right.items()[0] == s[end as int]);
    }
    (left, right)
}

/// Cuts a sorted producer after the last item that is at most `value`.
pub fn search_and_cut<P: Producer<Item = u32>>(sorted_iter: P, value: u32) -> (r: (P, P))
    requires
        sorted_side(sorted_iter),
        sorted_iter.items().len() >= 1,
    ensures
        sorted_side(r.0),
        sorted_side(r.1),
        r.0.items() + r.1.items() == sorted_iter.items(),
        forall|i: int| 0 <= i < r.0.items().len() ==> #[trigger] r.0.items()[i] <= value,
        forall|i: int| 0 <= i < r.1.items().len() ==> #[trigger] r.1.items()[i] > value,
{
    let ghost s = sorted_iter.items();
    let iter_len = sorted_iter.length();
    let end: usize = if value < sorted_iter.preview(0) {
        0
    } else if value >= sorted_iter.preview(iter_len - 1) {
        iter_len
    } else {
        first_above(&sorted_iter, 0, iter_len - 1, value)
    };
    assert(end == 0 || s[end - 1] <= value);
    assert(end == iter_len || s[end as int] > value);
    let (left, right) = cut_at(sorted_iter, end);
    proof {
        assert(s.take(end as int) + s.skip(end as int) =~= s);
    }
    (left, right)
}

/// Yields the stable merge of the sorted items of `a` and `b`: on equal
/// values, the items of `a` come first.
pub struct Merge<A, B> {
    pub a: A,
    pub b: B,
}

impl<A: Producer<Item = u32>, B: Producer<Item = u32>> Merge<A, B> {
    /// Whether `divide` can cut: the longer side can be cut near its middle
    /// and the other side is not empty.
    pub open spec fn spec_can_cut(&self) -> bool {
        if self.a.items().len() >= self.b.items().len() {
            cuttable(self.a.items()) && self.b.items().len() >= 1
        } else {
            cuttable(self.b.items()) && self.a.items().len() >= 1
        }
    }

    /// When dividing is worth it: both sides hold six items at least, their
    /// ranges of values overlap, and neither is a single run of equal values.
    pub open spec fn spec_worth_dividing(&self) -> bool {
        let a = self.a.items();
        let b = self.b.items();
        &&& a.len() >= 6
        &&& b.len() >= 6
        &&& a.last() > b[0]
        &&& b.last() > a[0]
        &&& a[0] != a.last()
        &&& b[0] != b.last()
    }
}

impl<A: Producer<Item = u32> + Send, B: Producer<Item = u32> + Send> Merge<A, B> {
    /// Hands the merging producer of the two sides to `callback`: its
    /// output is the one for the stable merge of the items of `a` and `b`.
    pub fn with_producer<CB: ProducerCallback<u32>>(self, callback: CB) -> (r: CB::Output)
        requires
            self.wf(),
            callback.wf(),
        ensures
            r == callback.spec_output(merged(self.a.items(), self.b.items())),
    {
        callback.call(self)
    }
}

impl<A: Producer<Item = u32>, B: Producer<Item = u32>> Divisible for Merge<A, B> {
    type Item = u32;

    open spec fn wf(&self) -> bool {
        &&& sorted_side(self.a)
        &&& sorted_side(self.b)
        &&& self.a.items().len() + self.b.items().len() <= usize::MAX
    }

    open spec fn items(&self) -> Seq<u32> {
        merged(self.a.items(), self.b.items())
    }

    open spec fn spec_len(&self) -> nat {
        self.a.spec_len() + self.b.spec_len()
    }

    open spec fn splits_items(&self) -> bool {
        true
    }

    open spec fn complete(&self) -> bool {
        true
    }

    open spec fn double_ended(&self) -> bool {
        false
    }

    /// A merge cannot tell its item at an index.
    open spec fn can_preview(&self) -> bool {
        false
    }

    open spec fn can_divide(&self) -> bool {
        self.spec_can_cut()
    }

    /// A merge cannot be cut at a given position.
    open spec fn can_divide_at(&self) -> bool {
        false
    }

    open spec fn exact(&self) -> bool {
        self.a.exact() && self.b.exact()
    }

    proof fn lemma_exact(&self) {
        self.a.lemma_exact();
        self.b.lemma_exact();
        lemma_merged_len(self.a.items(), self.b.items());
    }

    open spec fn always_divisible(&self) -> bool {
        false
    }

    proof fn lemma_always_divisible(&self) {
    }

    open spec fn may_divide(&self) -> bool {
        self.spec_worth_dividing()
    }

    open spec fn must_divide(&self) -> bool {
        self.spec_worth_dividing()
    }

    fn should_be_divided(&self) -> (r: bool) {
        let la = self.a.length();
        let lb = self.b.length();
        !(la < 6 || lb < 6 || self.a.preview(la - 1) <= self.b.preview(0) || self.b.preview(lb - 1)
            <= self.a.preview(0) || self.a.preview(0) == self.a.preview(la - 1) || self.b.preview(
            0,
        ) == self.b.preview(lb - 1))
    }

    /// Cuts the longer side near its middle, after a value `pivot`, and the
    /// other side after its last value at most `pivot`: the merge of the
    /// whole is the merge of the left parts followed by the merge of the
    /// right parts.
    fn divide(self) -> (r: (Self, Self))
        ensures
            r.0.a.items() + r.1.a.items() == self.a.items(),
            r.0.b.items() + r.1.b.items() == self.b.items(),
            r.0.a.items().len() + r.0.b.items().len() >= 1,
            r.1.a.items().len() + r.1.b.items().len() >= 1,
            all_lt(r.0.a.items(), r.1.a.items()),
            all_lt(r.0.a.items(), r.1.b.items()),
            all_lt(r.0.b.items(), r.1.a.items()),
            all_lt(r.0.b.items(), r.1.b.items()),
    {
        let ghost (sa, sb) = (self.a.items(), self.b.items());
        proof {
            self.a.lemma_exact();
            self.b.lemma_exact();
        }
        if self.a.length() >= self.b.length() {
            let (left_a, right_a) = cut_around_middle(self.a);
            let pivot_value = left_a.preview(left_a.length() - 1);
            let (left_b, right_b) = search_and_cut(self.b, pivot_value);
            proof {
                let (a1, a2, b1, b2) = (left_a.items(), right_a.items(), left_b.items(), right_b.items());
                assert(all_le(a1, b2)) by {
                    assert forall|i: int, j: int| 0 <= i < a1.len() && 0 <= j < b2.len() implies a1[i]
                        <= b2[j] by {
                        assert(a1[i] <= a1.last());
                        assert(b2[j] > pivot_value);
                    }
                }
                assert(all_lt(b1, a2)) by {
                    assert forall|i: int, j: int| 0 <= i < b1.len() && 0 <= j < a2.len() implies b1[i]
                        < a2[j] by {
                        assert(b1[i] <= pivot_value);
                        assert(a2[0] <= a2[j]);
                    }
                }
                lemma_merged_split(a1, a2, b1, b2);
                left_a.lemma_exact();
                right_a.lemma_exact();
                left_b.lemma_exact();
                right_b.lemma_exact();
            }
            (Merge { a: left_a, b: left_b }, Merge { a: right_a, b: right_b })
        } else {
            let (left_b, right_b) = cut_around_middle(self.b);
            let pivot_value = left_b.preview(left_b.length() - 1);
            let (left_a, right_a) = search_and_cut(self.a, pivot_value);
            proof {
                let (a1, a2, b1, b2) = (left_a.items(), right_a.items(), left_b.items(), right_b.items());
                assert(all_le(a1, b2)) by {
                    assert forall|i: int, j: int| 0 <= i < a1.len() && 0 <= j < b2.len() implies a1[i]
                        <= b2[j] by {
                        assert(a1[i] <= pivot_value);
                        assert(b2[0] <= b2[j]);
                    }
                }
                assert(all_lt(b1, a2)) by {
                    assert forall|i: int, j: int| 0 <= i < b1.len() && 0 <= j < a2.len() implies b1[i]
                        < a2[j] by {
                        assert(b1[i] <= b1.last());
                        assert(a2[j] > pivot_value);
                    }
                }
                lemma_merged_split(a1, a2, b1, b2);
                left_a.lemma_exact();
                right_a.lemma_exact();
                left_b.lemma_exact();
                right_b.lemma_exact();
            }
            (Merge { a: left_a, b: left_b }, Merge { a: right_a, b: right_b })
        }
    }

    /// Never called: a merge cannot be cut at a position.
    fn divide_at(self, index: usize) -> (r: (Self, Self)) {
        self.divide()
    }
}

impl<A: Producer<Item = u32>, B: Producer<Item = u32>> Producer for Merge<A, B> {
    open spec fn spec_sizes(&self) -> (usize, Option<usize>) {
        let n = (self.a.items().len() + self.b.items().len()) as usize;
        (n, Some(n))
    }

    /// The smaller of the two heads, the head of `a` on a tie.
    fn next(&mut self) -> (r: Option<u32>)
        ensures
            old(self).a.items().len() > 0 && (old(self).b.items().len() == 0 || old(
                self,
            ).a.items()[0] <= old(self).b.items()[0]) ==> final(self).a.items() == old(
                self,
            ).a.items().drop_first() && final(self).b.items() == old(self).b.items(),
            old(self).b.items().len() > 0 && (old(self).a.items().len() == 0 || old(
                self,
            ).a.items()[0] > old(self).b.items()[0]) ==> final(self).b.items() == old(
                self,
            ).b.items().drop_first() && final(self).a.items() == old(self).a.items(),
    {
        let ghost (sa, sb) = (self.a.items(), self.b.items());
        let a_is_empty = self.a.length() == 0;
        let b_is_empty = self.b.length() == 0;
        let r = if !a_is_empty && !b_is_empty {
            if self.a.preview(0) <= self.b.preview(0) {
                self.a.next()
            } else {
                self.b.next()
            }
        } else if a_is_empty {
            self.b.next()
        } else {
            self.a.next()
        };
        proof {
            assert(sorted(self.a.items()));
            assert(sorted(self.b.items()));
            if r is Some {
                assert(old(self).items().drop_first() =~= self.items());
            }
        }
        r
    }

    fn next_back(&mut self) -> (r: Option<u32>) {
        None
    }

    fn sizes(&self) -> (r: (usize, Option<usize>)) {
        proof {
            self.a.lemma_exact();
            self.b.lemma_exact();
        }
        let n = self.a.length() + self.b.length();
        (n, Some(n))
    }

    /// The number of items of both sides.
    fn length(&self) -> (r: usize)
        ensures
            r == self.a.items().len() + self.b.items().len(),
    {
        proof {
            lemma_merged_len(self.a.items(), self.b.items());
        }
        self.a.length() + self.b.length()
    }

    /// Never called: a merge cannot tell its item at an index.
    fn preview(&self, index: usize) -> (r: u32) {
        self.a.preview(index)
    }
}

} // verus!
