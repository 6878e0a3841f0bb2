//! Adaptive reductions: a state is worked on block by block, and divided in
//! two independent states while that is worth it.
use vstd::prelude::*;
use crate::pool::{current_num_threads, join};
use crate::utils::log2::{ceil_log2, spec_ceil_log2};

verus! {

/// The state of a computation that `work` drives: it can tell whether it is
/// completed, advance by a bounded amount of work, and, when it should be,
/// be divided into two independent states.
pub trait AdaptiveState: Sized {
    spec fn wf(&self) -> bool;

    /// The amount of work left.
    spec fn remaining(&self) -> nat;

    /// Whether dividing is allowed now.
    spec fn spec_should_be_divided(&self) -> bool;

    /// Whether `later` is this state after some work: what is left to do
    /// still leads to the same outcome.
    spec fn reaches(&self, later: Self) -> bool;

    /// Whether `left` and `right` are the two independent states that
    /// dividing this state gives.
    spec fn split_into(&self, left: Self, right: Self) -> bool;

    /// Doing no work reaches the state itself.
    proof fn lemma_reaches_refl(&self)
        requires
            self.wf(),
        ensures
            self.reaches(*self),
    ;

    /// Work after work is work.
    proof fn lemma_reaches_trans(&self, mid: Self, last: Self)
        requires
            self.reaches(mid),
            mid.reaches(last),
        ensures
            self.reaches(last),
    ;

    fn completed(&self) -> (r: bool)
        requires
            self.wf(),
        ensures
            r == (self.remaining() == 0),
    ;

    fn should_be_divided(&self) -> (r: bool)
        requires
            self.wf(),
        ensures
            r == self.spec_should_be_divided(),
    ;

    fn divide(self) -> (r: (Self, Self))
        requires
            self.wf(),
            self.spec_should_be_divided(),
        ensures
            r.0.wf(),
            r.1.wf(),
            r.0.remaining() < self.remaining(),
            r.1.remaining() < self.remaining(),
            self.split_into(r.0, r.1),
    ;

    /// Advances by at most `limit` units of work, and by at least one when
    /// something is left.
    fn work(&mut self, limit: usize)
        requires
            old(self).wf(),
            limit > 0,
        ensures
            final(self).wf(),
            final(self).remaining() <= old(self).remaining(),
            old(self).remaining() > 0 ==> final(self).remaining() < old(self).remaining(),
            old(self).reaches(*final(self)),
    ;
}

/// Size of the first block of work; each later block of the same state is
/// twice as large, up to `MAX_BLOCK`.
pub const FIRST_BLOCK: usize = 1024;

pub const MAX_BLOCK: usize = 1048576;

/// Whether every state of `leaves` is well formed and completed.
pub open spec fn all_completed<S: AdaptiveState>(leaves: Seq<S>) -> bool {
    forall|i: int| 0 <= i < leaves.len() ==> #[trigger] leaves[i].wf() && leaves[i].remaining() == 0
}

/// Whether `leaves` are the states that working on `s` ends with: the state
/// `s` reaches, where it is not divided; else the states that the two halves
/// of a state `s` reaches end with, those of the left half first.
pub open spec fn derived<S: AdaptiveState>(s: S, leaves: Seq<S>) -> bool
    decreases leaves.len(),
{
    if leaves.len() == 1 {
        s.reaches(leaves[0])
    } else {
        exists|k: int, m: S, left: S, right: S|
            #![trigger s.reaches(m), m.split_into(left, right), leaves.take(k)]
            1 <= k < leaves.len() && s.reaches(m) && m.split_into(left, right) && derived(
                left,
                leaves.take(k),
            ) && derived(right, leaves.skip(k))
    }
}

/// Work done before the states `leaves` derive from `t` is part of what
/// they derive from.
proof fn lemma_derived_after<S: AdaptiveState>(s: S, t: S, leaves: Seq<S>)
    requires
        s.reaches(t),
        derived(t, leaves),
    ensures
        derived(s, leaves),
{
    if leaves.len() == 1 {
        s.lemma_reaches_trans(t, leaves[0]);
    } else {
        let (k, m, left, right) = choose|k: int, m: S, left: S, right: S|
            #![trigger t.reaches(m), m.split_into(left, right), leaves.take(k)]
            1 <= k < leaves.len() && t.reaches(m) && m.split_into(left, right) && derived(
                left,
                leaves.take(k),
            ) && derived(right, leaves.skip(k));
        s.lemma_reaches_trans(t, m);
    }
}

/// Works on `state` until it is completed. Between blocks, while `depth`
/// allows and the state should be divided, it is divided and both halves are
/// worked on in parallel. Returns the completed states: `state` itself, or
/// those its halves ended as.
fn work_rec<S: AdaptiveState + Send>(state: S, depth: u32, block: usize) -> (leaves: Vec<S>)
    requires
        state.wf(),
        block > 0,
    ensures
        leaves@.len() >= 1,
        all_completed(leaves@),
        derived(state, leaves@),
        state.remaining() == 0 ==> leaves@ == seq![state],
        depth == 0 || (forall|s: S| !#[trigger] s.spec_should_be_divided()) ==> leaves@.len() == 1,
    decreases state.remaining(),
{
    if state.completed() {
        let mut leaves = Vec::new();
        leaves.push(state);
        proof {
            state.lemma_reaches_refl();
        }
        return leaves;
    }
    if depth > 0 && state.should_be_divided() {
        let ghost whole = state;
        let (left, right) = state.divide();
        let f = move || -> (v: Vec<S>)
            ensures
                v@.len() >= 1,
                all_completed(v@),
                derived(left, v@),
            { work_rec(left, depth - 1, FIRST_BLOCK) };
        let g = move || -> (v: Vec<S>)
            ensures
                v@.len() >= 1,
                all_completed(v@),
                derived(right, v@),
            { work_rec(right, depth - 1, FIRST_BLOCK) };
        let (mut l, mut r) = join(f, g);
        let ghost (lv, rv) = (l@, r@);
        l.append(&mut r);
        assert forall|i: int| 0 <= i < l@.len() implies #[trigger] l@[i].wf() && l@[i].remaining() == 0 by {
            if i < lv.len() {
                assert(l@[i] == lv[i]);
            } else {
                assert(l@[i] == rv[i - lv.len()]);
            }
        }
        proof {
            whole.lemma_reaches_refl();
            let k = lv.len() as int;
            assert(l@.take(k) =~= lv);
            assert(l@.skip(k) =~= rv);
            assert(whole.reaches(whole) && whole.split_into(left, right) && derived(left, l@.take(k))
                && derived(right, l@.skip(k)));
        }
        l
    } else {
        let ghost before = state;
        let mut state = state;
        state.work(block);
        let next_block = if block <= MAX_BLOCK / 2 {
            block * 2
        } else {
            block
        };
        let leaves = work_rec(state, depth, next_block);
        proof {
            lemma_derived_after(before, state, leaves@);
        }
        leaves
    }
}

/// How many times a state may be divided along any path: one more than the
/// logarithm of the number of threads, so that every thread can get work.
pub fn division_depth() -> (r: u32)
    ensures
        r <= 65,
        exists|threads: usize| r == #[trigger] spec_ceil_log2(threads as nat) + 1,
{
    let threads = current_num_threads();
    let r = ceil_log2(threads) + 1;
    assert(r == spec_ceil_log2(threads as nat) + 1);
    r
}

/// Drives `init` to completion with the adaptive scheduler: work proceeds by
/// blocks of growing size, and the state is divided (a bounded number of
/// times along any path) to give work to other threads. Returns the states
/// the work ended with, all completed and derived from `init`: with no
/// division, the one state `init` reaches by its work; else, in order, those
/// the two halves of a division end with.
pub fn work<S: AdaptiveState + Send>(init: S) -> (leaves: Vec<S>)
    requires
        init.wf(),
    ensures
        leaves@.len() >= 1,
        all_completed(leaves@),
        derived(init, leaves@),
        init.remaining() == 0 ==> leaves@ == seq![init],
        (forall|s: S| !#[trigger] s.spec_should_be_divided()) ==> leaves@.len() == 1,
{
    let depth = division_depth();
    work_rec(init, depth, FIRST_BLOCK)
}

} // verus!
