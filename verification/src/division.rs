//! Division trees: how a piece of work was cut up.
use vstd::prelude::*;
use crate::traits::Divisible;

verus! {

/// How a piece was divided: left whole, or cut in two halves, each divided
/// in turn.
pub enum Division<T> {
    Whole(T),
    Halves(T, Box<Division<T>>, Box<Division<T>>),
}

impl<T> Division<T> {
    /// The piece at the top.
    pub open spec fn root(self) -> T {
        match self {
            Division::Whole(t) => t,
            Division::Halves(t, _, _) => t,
        }
    }

    /// The number of pieces left whole.
    pub open spec fn pieces(self) -> nat
        decreases self,
    {
        match self {
            Division::Whole(_) => 1,
            Division::Halves(_, l, r) => l.pieces() + r.pieces(),
        }
    }

    /// The largest number of divisions above a piece left whole.
    pub open spec fn depth(self) -> nat
        decreases self,
    {
        match self {
            Division::Whole(_) => 0,
            Division::Halves(_, l, r) => 1 + if l.depth() >= r.depth() {
                l.depth()
            } else {
                r.depth()
            },
        }
    }

    /// Whether every piece left whole lies an even number of divisions
    /// below the top, counting `d` divisions above the top.
    pub open spec fn whole_at_even_depth(self, d: nat) -> bool
        decreases self,
    {
        match self {
            Division::Whole(_) => d % 2 == 0,
            Division::Halves(_, l, r) => l.whole_at_even_depth(d + 1) && r.whole_at_even_depth(d + 1),
        }
    }
}

impl<T: Divisible> Division<T> {
    /// Whether the division follows what the pieces ask: a piece is cut only
    /// where `should_be_divided` may answer yes, and left whole only where
    /// it need not.
    pub open spec fn as_asked(self) -> bool
        decreases self,
    {
        match self {
            Division::Whole(t) => !t.must_divide(),
            Division::Halves(t, l, r) => t.may_divide() && l.as_asked() && r.as_asked(),
        }
    }
}

} // verus!
