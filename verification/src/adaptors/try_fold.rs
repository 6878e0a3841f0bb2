//! Folds each piece of work, stopping everywhere at the first failure.
use vstd::prelude::*;
use std::sync::atomic::{AtomicBool, Ordering};
use crate::closures::{apply0, call0, deterministic0};
use crate::traits::{Divisible, Producer};

verus! {

/// Asks for each piece of work to be folded with `fold_op`, from the value
/// `identity` gives, until a fold fails.
pub struct TryFold<I, ID, F> {
    pub base: I,
    pub identity: ID,
    pub fold_op: F,
}

impl<I, ID, F> TryFold<I, ID, F> {
    /// The first piece: all of `self.base`, starting from the value
    /// `identity` gives, with the flag shared by all the pieces.
    pub fn producer<'b, U>(self, stop: &'b AtomicBool) -> (r: TryFoldProducer<'b, I, U, ID, F>) where
        ID: Fn() -> U + Copy,

        requires
            deterministic0(self.identity),
        ensures
            r.base == Some(self.base),
            r.init == Some(apply0(self.identity)),
            r.identity == self.identity,
            r.fold_op == self.fold_op,
            r.stop == stop,
    {
        let init = call0(&self.identity);
        TryFoldProducer {
            base: Some(self.base),
            init: Some(init),
            identity: self.identity,
            fold_op: self.fold_op,
            stop,
        }
    }
}

/// A piece of a fold that may fail: `init` is the value its fold starts
/// from, and `stop` tells every piece that a fold has failed. It yields no
/// item of its own.
pub struct TryFoldProducer<'b, I, U, ID, F> {
    pub base: Option<I>,
    pub init: Option<U>,
    pub identity: ID,
    pub fold_op: F,
    pub stop: &'b AtomicBool,
}

impl<'b, I, U, ID, F> TryFoldProducer<'b, I, U, ID, F> {
    /// Whether some fold has failed.
    pub fn done(&self) -> bool {
        self.stop.load(Ordering::Relaxed)
    }

    /// Tells every piece that a fold has failed.
    pub fn mark_done(&self) {
        self.stop.store(true, Ordering::Relaxed)
    }
}

impl<'b, P: Producer, U, ID: Fn() -> U + Copy, F: Copy> TryFoldProducer<'b, P, U, ID, F> {
    /// The bounds of the base: the work still to do; none once a fold has
    /// failed or the base is gone.
    pub fn sizes(&self) -> (r: (usize, Option<usize>))
        requires
            self.wf(),
        ensures
            self.base is None ==> r == (0usize, Some(0usize)),
            r.1 matches Some(u) ==> u == 0 || (self.base matches Some(b) ==> (b.complete()
                ==> b.spec_len() <= u)),
    {
        let stopped = self.done();
        self.sizes_unless(stopped)
    }

    /// The bounds of the base, given `stopped`, the flag as read: none once
    /// stopped or once the base is gone.
    pub fn sizes_unless(&self, stopped: bool) -> (r: (usize, Option<usize>))
        requires
            self.wf(),
        ensures
            stopped || self.base is None ==> r == (0usize, Some(0usize)),
            !stopped ==> (self.base matches Some(b) ==> {
                &&& r.0 <= b.spec_len() || !b.complete()
                &&& r.1 matches Some(u) ==> b.spec_len() <= u || !b.complete()
                &&& b.complete() ==> r == b.spec_sizes()
            }),
    {
        if stopped {
            (0, Some(0))
        } else {
            match &self.base {
                Some(b) => b.sizes(),
                None => (0, Some(0)),
            }
        }
    }

    /// Whether to divide, given `stopped`, the flag as read: never once
    /// stopped or once the base is gone, else as the base answers.
    pub fn should_be_divided_unless(&self, stopped: bool) -> (r: bool)
        requires
            self.wf(),
        ensures
            stopped || self.base is None ==> !r,
            !stopped ==> (self.base matches Some(b) ==> (b.must_divide() ==> r) && (r
                ==> b.may_divide() && b.can_divide())),
    {
        !stopped && match &self.base {
            Some(b) => b.should_be_divided(),
            None => false,
        }
    }
}

impl<'b, P: Producer, U, ID: Fn() -> U + Copy, F: Copy> Divisible for TryFoldProducer<'b, P, U, ID, F> {
    type Item = U;

    open spec fn wf(&self) -> bool {
        deterministic0(self.identity) && (self.base matches Some(b) ==> b.wf())
    }

    open spec fn items(&self) -> Seq<U> {
        Seq::empty()
    }

    open spec fn spec_len(&self) -> nat {
        match self.base {
            Some(b) => b.spec_len(),
            None => 0,
        }
    }

    open spec fn splits_items(&self) -> bool {
        true
    }

    open spec fn complete(&self) -> bool {
        false
    }

    open spec fn double_ended(&self) -> bool {
        false
    }

    open spec fn can_preview(&self) -> bool {
        false
    }

    open spec fn can_divide(&self) -> bool {
        self.base matches Some(b) ==> b.can_divide()
    }

    open spec fn can_divide_at(&self) -> bool {
        self.base matches Some(b) ==> b.can_divide_at()
    }

    open spec fn exact(&self) -> bool {
        false
    }

    proof fn lemma_exact(&self) {
    }

    open spec fn always_divisible(&self) -> bool {
        false
    }

    proof fn lemma_always_divisible(&self) {
    }

    open spec fn may_divide(&self) -> bool {
        self.base matches Some(b) && b.may_divide()
    }

    open spec fn must_divide(&self) -> bool {
        false
    }

    /// Not once a fold has failed, nor once the base is gone.
    fn should_be_divided(&self) -> (r: bool) {
        let stopped = self.done();
        self.should_be_divided_unless(stopped)
    }

    /// Divides the base: the left part keeps the value to start from; the
    /// right part, where the whole had one, starts from the value `identity`
    /// gives.
    fn divide(self) -> (r: (Self, Self))
        ensures
            r.0.init == self.init,
            r.1.init == (if self.init is Some {
                Some(apply0(self.identity))
            } else {
                None
            }),
            r.0.stop == self.stop && r.1.stop == self.stop,
            r.0.identity == self.identity && r.1.identity == self.identity,
            r.0.fold_op == self.fold_op && r.1.fold_op == self.fold_op,
            self.base is None ==> r.0.base is None && r.1.base is None,
            self.base is Some ==> r.0.base is Some && r.1.base is Some && r.0.base.unwrap().spec_len()
                + r.1.base.unwrap().spec_len() == self.base.unwrap().spec_len() && (
            self.base.unwrap().splits_items() ==> self.base.unwrap().items() == r.0.base.unwrap().items()
                + r.1.base.unwrap().items()),
    {
        let (left, right) = match self.base {
            Some(b) => {
                let (l, r) = b.divide();
                (Some(l), Some(r))
            },
            None => (None, None),
        };
        let right_init = if self.init.is_some() {
            Some(call0(&self.identity))
        } else {
            None
        };
        (
            TryFoldProducer {
                base: left,
                init: self.init,
                identity: self.identity,
                fold_op: self.fold_op,
                stop: self.stop,
            },
            TryFoldProducer {
                base: right,
                init: right_init,
                identity: self.identity,
                fold_op: self.fold_op,
                stop: self.stop,
            },
        )
    }

    /// Cuts the base at `index`, as `divide` does.
    fn divide_at(self, index: usize) -> (r: (Self, Self))
        ensures
            r.0.init == self.init,
            r.1.init == (if self.init is Some {
                Some(apply0(self.identity))
            } else {
                None
            }),
            r.0.stop == self.stop && r.1.stop == self.stop,
            r.0.identity == self.identity && r.1.identity == self.identity,
            r.0.fold_op == self.fold_op && r.1.fold_op == self.fold_op,
            self.base is None ==> r.0.base is None && r.1.base is None,
            self.base is Some ==> r.0.base is Some && r.1.base is Some && r.0.base.unwrap().spec_len()
                + r.1.base.unwrap().spec_len() == self.base.unwrap().spec_len() && (
            self.base.unwrap().splits_items() ==> self.base.unwrap().items() == r.0.base.unwrap().items()
                + r.1.base.unwrap().items()),
    {
        let (left, right) = match self.base {
            Some(b) => {
                let (l, r) = b.divide_at(index);
                (Some(l), Some(r))
            },
            None => (None, None),
        };
        let right_init = if self.init.is_some() {
            Some(call0(&self.identity))
        } else {
            None
        };
        (
            TryFoldProducer {
                base: left,
                init: self.init,
                identity: self.identity,
                fold_op: self.fold_op,
                stop: self.stop,
            },
            TryFoldProducer {
                base: right,
                init: right_init,
                identity: self.identity,
                fold_op: self.fold_op,
                stop: self.stop,
            },
        )
    }
}

} // verus!
