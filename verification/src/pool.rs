//! The calls into rayon's thread pool.
use vstd::prelude::*;

verus! {

/// `rayon::join`: runs both closures, possibly in parallel, and returns both
/// results. Claimed: each result is one that its closure's contract allows.
#[verifier::external_body]
pub(crate) fn join<A, B, RA, RB>(oper_a: A, oper_b: B) -> (r: (RA, RB)) where
    A: FnOnce() -> RA + Send,
    B: FnOnce() -> RB + Send,
    RA: Send,
    RB: Send,

    requires
        oper_a.requires(()),
        oper_b.requires(()),
    ensures
        oper_a.ensures((), r.0),
        oper_b.ensures((), r.1),
{
    rayon::join(oper_a, oper_b)
}

/// `rayon::current_thread_index`: the index of the calling worker thread in
/// its pool, or `None` outside a pool. Nothing is claimed of the value: it
/// depends on which thread runs the call.
#[verifier::external_body]
pub(crate) fn current_thread_index() -> (r: Option<usize>) {
    rayon::current_thread_index()
}

/// `rayon::current_num_threads`: the number of threads of the current pool.
/// Nothing is claimed of the value: it depends on the pool the caller runs in.
#[verifier::external_body]
pub(crate) fn current_num_threads() -> (r: usize) {
    rayon::current_num_threads()
}

} // verus!
