//! Pairs the items of two producers of equal length.
use vstd::prelude::*;
use crate::traits::{Divisible, Producer};

verus! {

/// The pairs of the items of `a` and `b` at the same index.
pub open spec fn zipped<X, Y>(a: Seq<X>, b: Seq<Y>) -> Seq<(X, Y)> {
    Seq::new(a.len(), |i: int| (a[i], b[i]))
}

/// Zipping two concatenations, whose first parts have equal lengths and
/// whose second part on the right is at least as long, zips the parts.
pub proof fn lemma_zipped_concat<X, Y>(a1: Seq<X>, a2: Seq<X>, b1: Seq<Y>, b2: Seq<Y>)
    requires
        a1.len() == b1.len(),
        a2.len() <= b2.len(),
    ensures
        zipped(a1 + a2, b1 + b2) == zipped(a1, b1) + zipped(a2, b2),
{
    assert(zipped(a1 + a2, b1 + b2) =~= zipped(a1, b1) + zipped(a2, b2));
}

/// The bounds of a zip from those of its sides: the smaller of the lower
/// bounds, and the smaller of the upper bounds.
pub open spec fn zip_sizes(a: (usize, Option<usize>), b: (usize, Option<usize>)) -> (usize, Option<usize>) {
    let min = if a.0 <= b.0 {
        a.0
    } else {
        b.0
    };
    let max = match a.1 {
        Some(ma) => match b.1 {
            Some(mb) => Some(
                if ma <= mb {
                    ma
                } else {
                    mb
                },
            ),
            None => Some(ma),
        },
        None => b.1,
    };
    (min, max)
}

/// Yields the pairs of the items of `a` and `b` at the same index, as many
/// as `a` holds: `b` holds at least as many. `a` leads the division and `b`
/// is cut where `a` was cut, so `a` must be able to tell its length and `b`
/// to be cut at any position.
pub struct Zip<A, B> {
    pub a: A,
    pub b: B,
}

impl<A: Producer, B: Producer> Divisible for Zip<A, B> {
    type Item = (A::Item, B::Item);

    open spec fn wf(&self) -> bool {
        &&& self.a.wf()
        &&& self.b.wf()
        &&& self.a.items().len() <= self.b.items().len()
        &&& self.a.splits_items()
        &&& self.a.can_preview()
        &&& self.a.exact()
        &&& self.b.splits_items()
        &&& self.b.complete()
        &&& self.b.exact()
        &&& self.b.always_divisible()
    }

    open spec fn items(&self) -> Seq<(A::Item, B::Item)> {
        zipped(self.a.items(), self.b.items())
    }

    open spec fn spec_len(&self) -> nat {
        self.a.spec_len()
    }

    open spec fn splits_items(&self) -> bool {
        true
    }

    open spec fn complete(&self) -> bool {
        self.a.complete()
    }

    open spec fn double_ended(&self) -> bool {
        false
    }

    open spec fn can_preview(&self) -> bool {
        self.b.can_preview()
    }

    open spec fn can_divide(&self) -> bool {
        self.a.can_divide()
    }

    open spec fn can_divide_at(&self) -> bool {
        self.a.can_divide_at()
    }

    open spec fn exact(&self) -> bool {
        self.a.exact()
    }

    proof fn lemma_exact(&self) {
        self.a.lemma_exact();
    }

    open spec fn always_divisible(&self) -> bool {
        self.a.always_divisible()
    }

    proof fn lemma_always_divisible(&self) {
        self.a.lemma_always_divisible();
    }

    open spec fn may_divide(&self) -> bool {
        self.a.may_divide() && self.b.may_divide()
    }

    open spec fn must_divide(&self) -> bool {
        self.a.must_divide() && self.b.must_divide()
    }

    /// Worth dividing when both sides are.
    fn should_be_divided(&self) -> (r: bool) {
        self.a.should_be_divided() && self.b.should_be_divided()
    }

    /// Divides `a`, then cuts `b` after as many items as the left part of
    /// `a` holds.
    fn divide(self) -> (r: (Self, Self)) {
        let (left_a, right_a) = self.a.divide();
        proof {
            self.b.lemma_always_divisible();
            self.b.lemma_exact();
        }
        let (left_b, right_b) = self.b.divide_at(left_a.length());
        proof {
            left_b.lemma_exact();
            right_b.lemma_exact();
            lemma_zipped_concat(left_a.items(), right_a.items(), left_b.items(), right_b.items());
        }
        (Zip { a: left_a, b: left_b }, Zip { a: right_a, b: right_b })
    }

    /// Cuts both sides at `index`.
    fn divide_at(self, index: usize) -> (r: (Self, Self)) {
        proof {
            self.a.lemma_exact();
            self.b.lemma_always_divisible();
            self.b.lemma_exact();
        }
        let (left_a, right_a) = self.a.divide_at(index);
        let (left_b, right_b) = self.b.divide_at(index);
        proof {
            left_a.lemma_exact();
            right_a.lemma_exact();
            left_b.lemma_exact();
            right_b.lemma_exact();
            lemma_zipped_concat(left_a.items(), right_a.items(), left_b.items(), right_b.items());
        }
        (Zip { a: left_a, b: left_b }, Zip { a: right_a, b: right_b })
    }
}

impl<A: Producer, B: Producer> Producer for Zip<A, B> {
    open spec fn spec_sizes(&self) -> (usize, Option<usize>) {
        zip_sizes(self.a.spec_sizes(), self.b.spec_sizes())
    }

    /// The next item of `a` with the next item of `b`.
    fn next(&mut self) -> (r: Option<(A::Item, B::Item)>) {
        match self.a.next() {
            Some(x) => match self.b.next() {
                Some(y) => {
                    assert(self.items() =~= old(self).items().drop_first());
                    Some((x, y))
                },
                None => None,
            },
            None => None,
        }
    }

    fn next_back(&mut self) -> (r: Option<(A::Item, B::Item)>) {
        None
    }

    /// The smaller of the lower bounds, and the smaller of the upper bounds.
    fn sizes(&self) -> (r: (usize, Option<usize>)) {
        proof {
            self.a.lemma_exact();
            self.b.lemma_exact();
        }
        let (min_a, max_a) = self.a.sizes();
        let (min_b, max_b) = self.b.sizes();
        let min = if min_a <= min_b {
            min_a
        } else {
            min_b
        };
        let max = match max_a {
            Some(ma) => match max_b {
                Some(mb) => Some(
                    if ma <= mb {
                        ma
                    } else {
                        mb
                    },
                ),
                None => Some(ma),
            },
            None => max_b,
        };
        (min, max)
    }

    fn length(&self) -> (r: usize) {
        self.a.length()
    }

    fn preview(&self, index: usize) -> (r: (A::Item, B::Item)) {
        (self.a.preview(index), self.b.preview(index))
    }
}

} // verus!
