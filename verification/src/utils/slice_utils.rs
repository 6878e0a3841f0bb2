//! Searches inside sorted slices, used to cut merges where values change.
use vstd::prelude::*;
use crate::algorithms::merging::sorted;

verus! {

/// Length of the run of values equal to the first one, in a sorted slice.
///
/// Galloping search: it probes at distances 1, 2, 4, ... and then bisects,
/// so it costs a logarithm of the run's length.
pub fn index_without_first_value(s: &[u32]) -> (r: usize)
    requires
        s@.len() > 0,
        sorted(s@),
    ensures
        1 <= r <= s@.len(),
        forall|i: int| 0 <= i < r ==> #[trigger] s@[i] == s@[0],
        r < s@.len() ==> s@[r as int] != s@[0],
{
    let first = s[0];
    let len = s.len();
    // invariant: s[lo - 1] == first, and hi == len or s[hi] != first
    let mut lo: usize = 1;
    let mut step: usize = 1;
    let mut hi: usize = len;
    while lo < hi
        invariant
            1 <= lo <= hi <= len,
            len == s@.len(),
            first == s@[0],
            s@[lo - 1] == first,
            hi < len ==> s@[hi as int] != first,
            step >= 1,
            sorted(s@),
        decreases hi - lo,
    {
        let probe = if hi - lo > step { lo + step } else { hi - 1 };
        if s[probe] == first {
            lo = probe + 1;
            if step <= usize::MAX / 2 {
                step = step * 2;
            }
        } else {
            // the run ends at or before `probe`: bisect below it
            let mut a: usize = lo - 1;
            let mut b: usize = probe;
            while a + 1 < b
                invariant
                    lo - 1 <= a < b <= probe < len,
                    len == s@.len(),
                    first == s@[0],
                    s@[a as int] == first,
                    s@[b as int] != first,
                    sorted(s@),
                decreases b - a,
            {
                let mid = a + (b - a) / 2;
                if s[mid] == first {
                    a = mid;
                } else {
                    b = mid;
                }
            }
            lo = b;
            hi = b;
        }
    }
    assert forall|i: int| 0 <= i < lo implies #[trigger] s@[i] == s@[0] by {
        assert(s@[0] <= s@[i]);
        assert(s@[i] <= s@[lo - 1]);
    }
    lo
}

/// Start of the run of values equal to the last one, in a sorted slice.
pub fn start_of_last_run(s: &[u32]) -> (r: usize)
    requires
        s@.len() > 0,
        sorted(s@),
    ensures
        r < s@.len(),
        forall|i: int| r <= i < s@.len() ==> #[trigger] s@[i] == s@.last(),
        r > 0 ==> s@[r - 1] != s@.last(),
{
    let len = s.len();
    let last = s[len - 1];
    if s[0] == last {
        assert forall|i: int| 0 <= i < s@.len() implies #[trigger] s@[i] == s@.last() by {
            assert(s@[0] <= s@[i]);
            assert(s@[i] <= s@[len - 1]);
        }
        return 0;
    }
    // s[a] != last and s[b] == last
    let mut a: usize = 0;
    let mut b: usize = len - 1;
    while a + 1 < b
        invariant
            a < b < len,
            len == s@.len(),
            last == s@[len - 1],
            s@[a as int] != last,
            s@[b as int] == last,
            sorted(s@),
        decreases b - a,
    {
        let mid = a + (b - a) / 2;
        if s[mid] == last {
            b = mid;
        } else {
            a = mid;
        }
    }
    assert forall|i: int| b <= i < s@.len() implies #[trigger] s@[i] == s@.last() by {
        assert(s@[b as int] <= s@[i]);
        assert(s@[i] <= s@[len - 1]);
    }
    b
}

/// Index of the last value that differs from the last one, in a sorted
/// slice whose first and last values differ.
pub fn index_without_last_value(s: &[u32]) -> (r: usize)
    requires
        s@.len() > 0,
        sorted(s@),
        s@[0] != s@.last(),
    ensures
        r < s@.len() - 1,
        s@[r as int] != s@.last(),
        forall|i: int| r < i < s@.len() ==> #[trigger] s@[i] == s@.last(),
{
    let start = start_of_last_run(s);
    start - 1
}

/// The slice without its trailing run of values equal to the last one.
pub fn subslice_without_last_value(s: &[u32]) -> (r: &[u32])
    requires
        s@.len() > 0,
        sorted(s@),
    ensures
        r@ == s@.take(r@.len() as int),
        r@.len() < s@.len(),
        forall|i: int| r@.len() <= i < s@.len() ==> #[trigger] s@[i] == s@.last(),
        r@.len() > 0 ==> r@.last() != s@.last(),
{
    let start = start_of_last_run(s);
    let r = &s[0..start];
    assert(r@ =~= s@.take(start as int));
    r
}

/// The slice without its leading run of values equal to the first one.
pub fn subslice_without_first_value(s: &[u32]) -> (r: &[u32])
    requires
        s@.len() > 0,
        sorted(s@),
    ensures
        r@ == s@.skip(s@.len() - r@.len()),
        r@.len() < s@.len(),
        forall|i: int| 0 <= i < s@.len() - r@.len() ==> #[trigger] s@[i] == s@[0],
        r@.len() > 0 ==> r@[0] != s@[0],
{
    let end = index_without_first_value(s);
    let r = &s[end..s.len()];
    assert(r@ =~= s@.skip(end as int));
    r
}

/// Number of leading values at most `pivot`, in a sorted slice.
pub fn count_le(s: &[u32], pivot: u32) -> (r: usize)
    requires
        sorted(s@),
    ensures
        r <= s@.len(),
        forall|i: int| 0 <= i < r ==> #[trigger] s@[i] <= pivot,
        forall|i: int| r <= i < s@.len() ==> #[trigger] s@[i] > pivot,
{
    let mut lo: usize = 0;
    let mut hi: usize = s.len();
    while lo < hi
        invariant
            lo <= hi <= s@.len(),
            sorted(s@),
            forall|i: int| 0 <= i < lo ==> #[trigger] s@[i] <= pivot,
            forall|i: int| hi <= i < s@.len() ==> #[trigger] s@[i] > pivot,
        decreases hi - lo,
    {
        let mid = lo + (hi - lo) / 2;
        if s[mid] <= pivot {
            assert forall|i: int| 0 <= i < mid + 1 implies #[trigger] s@[i] <= pivot by {
                assert(s@[i] <= s@[mid as int]);
            }
            lo = mid + 1;
        } else {
            assert forall|i: int| mid <= i < s@.len() implies #[trigger] s@[i] > pivot by {
                assert(s@[mid as int] <= s@[i]);
            }
            hi = mid;
        }
    }
    lo
}

/// Number of leading values strictly below `pivot`, in a sorted slice.
pub fn count_lt(s: &[u32], pivot: u32) -> (r: usize)
    requires
        sorted(s@),
    ensures
        r <= s@.len(),
        forall|i: int| 0 <= i < r ==> #[trigger] s@[i] < pivot,
        forall|i: int| r <= i < s@.len() ==> #[trigger] s@[i] >= pivot,
{
    let mut lo: usize = 0;
    let mut hi: usize = s.len();
    while lo < hi
        invariant
            lo <= hi <= s@.len(),
            sorted(s@),
            forall|i: int| 0 <= i < lo ==> #[trigger] s@[i] < pivot,
            forall|i: int| hi <= i < s@.len() ==> #[trigger] s@[i] >= pivot,
        decreases hi - lo,
    {
        let mid = lo + (hi - lo) / 2;
        if s[mid] < pivot {
            assert forall|i: int| 0 <= i < mid + 1 implies #[trigger] s@[i] < pivot by {
                assert(s@[i] <= s@[mid as int]);
            }
            lo = mid + 1;
        } else {
            assert forall|i: int| mid <= i < s@.len() implies #[trigger] s@[i] >= pivot by {
                assert(s@[mid as int] <= s@[i]);
            }
            hi = mid;
        }
    }
    lo
}

} // verus!
