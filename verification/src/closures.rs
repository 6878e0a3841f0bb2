//! What the library needs of the closures it is given: that they can be
//! called on any argument and always give the same result for it.
use vstd::prelude::*;

verus! {

/// `f` accepts every argument and is a function of it.
pub open spec fn deterministic1<A, R, F: Fn(A) -> R>(f: F) -> bool {
    &&& forall|a: A| #[trigger] f.requires((a,))
    &&& forall|a: A, r1: R, r2: R| #[trigger] f.ensures((a,), r1) && #[trigger] f.ensures((a,), r2) ==> r1 == r2
}

/// The result of `f` on `a` (meaningful when `f` is deterministic).
pub open spec fn apply1<A, R, F: Fn(A) -> R>(f: F, a: A) -> R {
    choose|r: R| f.ensures((a,), r)
}

/// Calls `f` on `a`: the result is `apply1(f, a)`.
pub fn call1<A, R, F: Fn(A) -> R>(f: &F, a: A) -> (r: R)
    requires
        deterministic1(*f),
    ensures
        r == apply1(*f, a),
{
    let r = f(a);
    proof {
        let c = choose|c: R| f.ensures((a,), c);
        assert(f.ensures((a,), c));
    }
    r
}

/// `f` accepts every pair of arguments and is a function of them.
pub open spec fn deterministic2<A, B, R, F: Fn(A, B) -> R>(f: F) -> bool {
    &&& forall|a: A, b: B| #[trigger] f.requires((a, b))
    &&& forall|a: A, b: B, r1: R, r2: R| #[trigger] f.ensures((a, b), r1) && #[trigger] f.ensures((a, b), r2) ==> r1 == r2
}

/// The result of `f` on `a` and `b` (meaningful when `f` is deterministic).
pub open spec fn apply2<A, B, R, F: Fn(A, B) -> R>(f: F, a: A, b: B) -> R {
    choose|r: R| f.ensures((a, b), r)
}

/// Calls `f` on `a` and `b`: the result is `apply2(f, a, b)`.
pub fn call2<A, B, R, F: Fn(A, B) -> R>(f: &F, a: A, b: B) -> (r: R)
    requires
        deterministic2(*f),
    ensures
        r == apply2(*f, a, b),
{
    let r = f(a, b);
    proof {
        let c = choose|c: R| f.ensures((a, b), c);
        assert(f.ensures((a, b), c));
    }
    r
}

/// `f` can be called and always gives the same value.
pub open spec fn deterministic0<R, F: Fn() -> R>(f: F) -> bool {
    &&& f.requires(())
    &&& forall|r1: R, r2: R| #[trigger] f.ensures((), r1) && #[trigger] f.ensures((), r2) ==> r1 == r2
}

/// The value `f` gives (meaningful when `f` is deterministic).
pub open spec fn apply0<R, F: Fn() -> R>(f: F) -> R {
    choose|r: R| f.ensures((), r)
}

/// Calls `f`: the result is `apply0(f)`.
pub fn call0<R, F: Fn() -> R>(f: &F) -> (r: R)
    requires
        deterministic0(*f),
    ensures
        r == apply0(*f),
{
    let r = f();
    proof {
        let c = choose|c: R| f.ensures((), c);
        assert(f.ensures((), c));
    }
    r
}

} // verus!
