//! Adaptive merge of two sorted slices into an output slice.
use vstd::prelude::*;
use crate::adaptors::filter::{filtered, lemma_filtered_add};
use crate::algorithms::merging::{
    merge_step_from, lemma_merge_position_bounds, lemma_merge_position_compose, lemma_merge_position_take_a,
    lemma_merge_position_take_b, merge_position, lemma_merged_around_pivot, lemma_merged_len, lemma_merged_take_a, lemma_merged_take_b, merged, sorted,
};
use crate::adaptive::{division_depth, AdaptiveState, FIRST_BLOCK};
use crate::pool::join;
use crate::utils::slice_utils::{
    count_le, count_lt, index_without_first_value, index_without_last_value,
    subslice_without_first_value, subslice_without_last_value,
};

verus! {

/// The state of a merge in progress: the values of `a` from `a_index` on and
/// of `b` from `b_index` on remain to be merged into `out` from `out_index` on.
pub struct Merger<'a> {
    pub a: &'a [u32],
    pub b: &'a [u32],
    pub a_index: usize,
    pub b_index: usize,
    pub out: &'a mut [u32],
    pub out_index: usize,
}


/// The values below `p`.
pub open spec fn below(p: u32) -> spec_fn(u32) -> bool {
    |v: u32| v < p
}

/// The values equal to `p`.
pub open spec fn equal_to(p: u32) -> spec_fn(u32) -> bool {
    |v: u32| v == p
}

/// The values above `p`.
pub open spec fn above(p: u32) -> spec_fn(u32) -> bool {
    |v: u32| v > p
}

/// Filtering keeps a sequence whose values all pass, and empties one whose
/// values all fail.
proof fn lemma_filtered_all_or_none(s: Seq<u32>, pred: spec_fn(u32) -> bool)
    ensures
        (forall|i: int| 0 <= i < s.len() ==> #[trigger] pred(s[i])) ==> filtered(s, pred) == s,
        (forall|i: int| 0 <= i < s.len() ==> !#[trigger] pred(s[i])) ==> filtered(s, pred)
            == Seq::<u32>::empty(),
    decreases s.len(),
{
    if s.len() > 0 {
        lemma_filtered_all_or_none(s.drop_first(), pred);
        if forall|i: int| 0 <= i < s.len() ==> #[trigger] pred(s[i]) {
            assert(pred(s[0]));
            assert forall|i: int| 0 <= i < s.drop_first().len() implies #[trigger] pred(s.drop_first()[i]) by {
                assert(pred(s[i + 1]));
            }
            assert(seq![s[0]] + s.drop_first() =~= s);
        }
        if forall|i: int| 0 <= i < s.len() ==> !#[trigger] pred(s[i]) {
            assert(!pred(s[0]));
            assert forall|i: int| 0 <= i < s.drop_first().len() implies !#[trigger] pred(s.drop_first()[i]) by {
                assert(!pred(s[i + 1]));
            }
        }
    }
}

/// A run cut as values below `p`, then copies of `p`, then values above
/// `p`: filtering by comparison with `p` gives back each part.
proof fn lemma_filtered_around(x: Seq<u32>, y: Seq<u32>, z: Seq<u32>, p: u32)
    requires
        forall|i: int| 0 <= i < x.len() ==> #[trigger] x[i] < p,
        forall|i: int| 0 <= i < y.len() ==> #[trigger] y[i] == p,
        forall|i: int| 0 <= i < z.len() ==> #[trigger] z[i] > p,
    ensures
        filtered(x + y + z, below(p)) == x,
        filtered(x + y + z, equal_to(p)) == y,
        filtered(x + y + z, above(p)) == z,
{
    lemma_filtered_add(x + y, z, below(p));
    lemma_filtered_add(x, y, below(p));
    lemma_filtered_add(x + y, z, equal_to(p));
    lemma_filtered_add(x, y, equal_to(p));
    lemma_filtered_add(x + y, z, above(p));
    lemma_filtered_add(x, y, above(p));
    lemma_filtered_all_or_none(x, below(p));
    lemma_filtered_all_or_none(y, below(p));
    lemma_filtered_all_or_none(z, below(p));
    lemma_filtered_all_or_none(x, equal_to(p));
    lemma_filtered_all_or_none(y, equal_to(p));
    lemma_filtered_all_or_none(z, equal_to(p));
    lemma_filtered_all_or_none(x, above(p));
    lemma_filtered_all_or_none(y, above(p));
    lemma_filtered_all_or_none(z, above(p));
    assert(x + Seq::<u32>::empty() + Seq::<u32>::empty() =~= x);
    assert(Seq::<u32>::empty() + y + Seq::<u32>::empty() =~= y);
    assert(Seq::<u32>::empty() + Seq::<u32>::empty() + z =~= z);
}

/// The rest of `s` from `start` on, cut at `lo` and `hi` around `p`:
/// filtering it by comparison with `p` gives the three parts.
proof fn lemma_cut_parts(s: Seq<u32>, start: int, lo: int, hi: int, p: u32)
    requires
        0 <= start <= lo <= hi <= s.len(),
        forall|i: int| start <= i < lo ==> #[trigger] s[i] < p,
        forall|i: int| lo <= i < hi ==> #[trigger] s[i] == p,
        forall|i: int| hi <= i < s.len() ==> #[trigger] s[i] > p,
    ensures
        filtered(s.skip(start), below(p)) == s.subrange(start, lo),
        filtered(s.skip(start), equal_to(p)) == s.subrange(lo, hi),
        filtered(s.skip(start), above(p)) == s.subrange(hi, s.len() as int),
{
    let x = s.subrange(start, lo);
    let y = s.subrange(lo, hi);
    let z = s.subrange(hi, s.len() as int);
    assert(s.skip(start) =~= x + y + z);
    assert forall|i: int| 0 <= i < x.len() implies #[trigger] x[i] < p by {
        assert(x[i] == s[start + i]);
    }
    assert forall|i: int| 0 <= i < y.len() implies #[trigger] y[i] == p by {
        assert(y[i] == s[lo + i]);
    }
    assert forall|i: int| 0 <= i < z.len() implies #[trigger] z[i] > p by {
        assert(z[i] == s[hi + i]);
    }
    lemma_filtered_around(x, y, z, p);
}

/// Writes `x` then `y` into `out` after its first `start + len` cells, and
/// hands out the `len` cells after the first `start` and the cells after
/// the written ones.
fn place_between<'b>(out: &'b mut [u32], start: usize, len: usize, x: &[u32], y: &[u32]) -> (r: (
    &'b mut [u32],
    &'b mut [u32],
))
    requires
        start + len + x@.len() + y@.len() <= old(out)@.len(),
    ensures
        r.0@ == old(out)@.subrange(start as int, start + len),
        r.1@ == old(out)@.skip(start + len + x@.len() + y@.len()),
        final(out)@ == old(out)@.take(start as int) + final(r.0)@ + (x@ + y@) + final(r.1)@,
{
    let ghost o = out@;
    let olen = out.len();
    assert(start + len + x@.len() + y@.len() <= olen);
    let (done, rest) = out.split_at_mut(start);
    let (middle, rest) = rest.split_at_mut(len);
    let (equal, after) = rest.split_at_mut(x.len() + y.len());
    copy_into(equal, 0, x);
    copy_into(equal, x.len(), y);
    proof {
        assert(equal@ =~= x@ + y@);
        assert(done@ =~= o.take(start as int));
        assert(middle@ =~= o.subrange(start as int, start + len));
        assert(after@ =~= o.skip(start + len + x@.len() + y@.len()));
    }
    (middle, after)
}

/// Copies `src` into `dst` from position `start` on.
fn copy_into(dst: &mut [u32], start: usize, src: &[u32])
    requires
        start + src@.len() <= old(dst)@.len(),
    ensures
        final(dst)@ == old(dst)@.take(start as int) + src@ + old(dst)@.skip(start + src@.len()),
{
    let ghost d = dst@;
    let dlen = dst.len();
    let n = src.len();
    let mut k: usize = 0;
    while k < n
        invariant
            k <= n,
            n == src@.len(),
            start + n <= d.len(),
            dlen == d.len(),
            dst@.len() == d.len(),
            dst@ == d.take(start as int) + src@.take(k as int) + d.skip(start + k),
        decreases n - k,
    {
        dst[start + k] = src[k];
        k = k + 1;
        assert(dst@ =~= d.take(start as int) + src@.take(k as int) + d.skip(start + k));
    }
    assert(src@.take(n as int) =~= src@);
}

/// Cuts the rest of a sorted slice, from `start` on, around the value just
/// before its middle: returns that pivot and the bounds `lo < hi` of its
/// run, with smaller values before `lo` and larger ones from `hi` on.
fn cut_around_pivot(s: &[u32], start: usize) -> (r: (u32, usize, usize))
    requires
        sorted(s@),
        start + 2 <= s@.len(),
    ensures
        r.0 == s@[start + (s@.len() - start) / 2 - 1],
        start <= r.1 < r.2 <= s@.len(),
        forall|i: int| start <= i < r.1 ==> #[trigger] s@[i] < r.0,
        forall|i: int| r.1 <= i < r.2 ==> #[trigger] s@[i] == r.0,
        forall|i: int| r.2 <= i < s@.len() ==> #[trigger] s@[i] > r.0,
{
    let len = s.len();
    let mid = start + (len - start) / 2;
    let pivot = s[mid - 1];
    let left_part = &s[start..mid];
    let right_part = &s[mid - 1..len];
    proof {
        assert(left_part@ == s@.subrange(start as int, mid as int));
        assert(right_part@ == s@.subrange(mid - 1, len as int));
    }
    let left = subslice_without_last_value(left_part);
    let right = subslice_without_first_value(right_part);
    let lo = start + left.len();
    let hi = len - right.len();
    proof {
        assert forall|i: int| start <= i < lo implies #[trigger] s@[i] < pivot by {
            assert(s@[i] == left@[i - start]);
            assert(left@.last() == s@[lo - 1]);
            assert(s@[i] <= s@[lo - 1]);
            assert(s@[lo - 1] <= pivot);
        }
        assert forall|i: int| lo <= i < hi implies #[trigger] s@[i] == pivot by {
            if i < mid {
                assert(s@[i] == left_part@[i - start]);
            } else {
                assert(s@[i] == right_part@[i - (mid - 1)]);
            }
        }
        assert forall|i: int| hi <= i < len implies #[trigger] s@[i] > pivot by {
            assert(s@[i] == right@[i - hi]);
            assert(right@[0] == s@[hi as int]);
            assert(s@[hi as int] <= s@[i]);
            assert(pivot <= s@[hi as int]);
        }
    }
    (pivot, lo, hi)
}

/// Bounds of the run of `pivot` in the rest of a sorted slice, from `start`
/// on: smaller values before `lo`, larger ones from `hi` on.
fn cut_at_value(s: &[u32], start: usize, pivot: u32) -> (r: (usize, usize))
    requires
        sorted(s@),
        start <= s@.len(),
    ensures
        start <= r.0 <= r.1 <= s@.len(),
        forall|i: int| start <= i < r.0 ==> #[trigger] s@[i] < pivot,
        forall|i: int| r.0 <= i < r.1 ==> #[trigger] s@[i] == pivot,
        forall|i: int| r.1 <= i < s@.len() ==> #[trigger] s@[i] > pivot,
{
    let len = s.len();
    let rest = &s[start..len];
    proof {
        assert(rest@ == s@.subrange(start as int, len as int));
    }
    let right_bound = count_le(rest, pivot);
    let below = &s[start..start + right_bound];
    proof {
        assert(below@ == s@.subrange(start as int, start + right_bound));
    }
    let left_bound = count_lt(below, pivot);
    proof {
        assert forall|i: int| start <= i < start + left_bound implies #[trigger] s@[i] < pivot by {
            assert(s@[i] == below@[i - start]);
        }
        assert forall|i: int| start + left_bound <= i < start + right_bound implies #[trigger] s@[i]
            == pivot by {
            assert(s@[i] == below@[i - start]);
            assert(s@[i] == rest@[i - start]);
        }
        assert forall|i: int| start + right_bound <= i < len implies #[trigger] s@[i] > pivot by {
            assert(s@[i] == rest@[i - start]);
        }
    }
    (start + left_bound, start + right_bound)
}

/// Cuts the rests of both sides around one pivot: the value just before the
/// middle of the longer rest (`a` on a tie).
fn cut_both(a: &[u32], ai: usize, b: &[u32], bi: usize) -> (r: (u32, usize, usize, usize, usize))
    requires
        sorted(a@),
        sorted(b@),
        ai + 2 <= a@.len(),
        bi + 2 <= b@.len(),
    ensures
        ai <= r.1 <= r.2 <= a@.len(),
        bi <= r.3 <= r.4 <= b@.len(),
        r.1 < r.2 || r.3 < r.4,
        r.0 == (if a@.len() - ai >= b@.len() - bi {
            a@[ai + (a@.len() - ai) / 2 - 1]
        } else {
            b@[bi + (b@.len() - bi) / 2 - 1]
        }),
        forall|i: int| ai <= i < r.1 ==> #[trigger] a@[i] < r.0,
        forall|i: int| r.1 <= i < r.2 ==> #[trigger] a@[i] == r.0,
        forall|i: int| r.2 <= i < a@.len() ==> #[trigger] a@[i] > r.0,
        forall|i: int| bi <= i < r.3 ==> #[trigger] b@[i] < r.0,
        forall|i: int| r.3 <= i < r.4 ==> #[trigger] b@[i] == r.0,
        forall|i: int| r.4 <= i < b@.len() ==> #[trigger] b@[i] > r.0,
{
    let a_remaining_len = a.len() - ai;
    let b_remaining_len = b.len() - bi;
    if a_remaining_len >= b_remaining_len {
        let (p, lo, hi) = cut_around_pivot(a, ai);
        let (blo, bhi) = cut_at_value(b, bi, p);
        (p, lo, hi, blo, bhi)
    } else {
        let (p, lo, hi) = cut_around_pivot(b, bi);
        let (alo, ahi) = cut_at_value(a, ai, p);
        (p, alo, ahi, lo, hi)
    }
}

/// The merge of the rests of `a` (from `ai`) and `b` (from `bi`), both cut
/// around the run of `pivot`.
proof fn lemma_cut_merge(
    a: Seq<u32>,
    ai: int,
    a_lo: int,
    a_hi: int,
    b: Seq<u32>,
    bi: int,
    b_lo: int,
    b_hi: int,
    pivot: u32,
)
    requires
        0 <= ai <= a_lo <= a_hi <= a.len(),
        0 <= bi <= b_lo <= b_hi <= b.len(),
        forall|i: int| ai <= i < a_lo ==> #[trigger] a[i] < pivot,
        forall|i: int| a_lo <= i < a_hi ==> #[trigger] a[i] == pivot,
        forall|i: int| a_hi <= i < a.len() ==> #[trigger] a[i] > pivot,
        forall|i: int| bi <= i < b_lo ==> #[trigger] b[i] < pivot,
        forall|i: int| b_lo <= i < b_hi ==> #[trigger] b[i] == pivot,
        forall|i: int| b_hi <= i < b.len() ==> #[trigger] b[i] > pivot,
    ensures
        merged(a.skip(ai), b.skip(bi)) == merged(a.subrange(ai, a_lo), b.subrange(bi, b_lo)) + (
        a.subrange(a_lo, a_hi) + b.subrange(b_lo, b_hi)) + merged(
            a.subrange(a_hi, a.len() as int),
            b.subrange(b_hi, b.len() as int),
        ),
{
    let x = a.skip(ai);
    let y = b.skip(bi);
    assert forall|i: int| 0 <= i < a_lo - ai implies #[trigger] x[i] < pivot by {
        assert(x[i] == a[ai + i]);
    }
    assert forall|i: int| a_lo - ai <= i < a_hi - ai implies #[trigger] x[i] == pivot by {
        assert(x[i] == a[ai + i]);
    }
    assert forall|i: int| a_hi - ai <= i < x.len() implies #[trigger] x[i] > pivot by {
        assert(x[i] == a[ai + i]);
    }
    assert forall|i: int| 0 <= i < b_lo - bi implies #[trigger] y[i] < pivot by {
        assert(y[i] == b[bi + i]);
    }
    assert forall|i: int| b_lo - bi <= i < b_hi - bi implies #[trigger] y[i] == pivot by {
        assert(y[i] == b[bi + i]);
    }
    assert forall|i: int| b_hi - bi <= i < y.len() implies #[trigger] y[i] > pivot by {
        assert(y[i] == b[bi + i]);
    }
    lemma_merged_around_pivot(x, a_lo - ai, a_hi - ai, y, b_lo - bi, b_hi - bi, pivot);
    assert(x.take(a_lo - ai) =~= a.subrange(ai, a_lo));
    assert(x.subrange(a_lo - ai, a_hi - ai) =~= a.subrange(a_lo, a_hi));
    assert(x.skip(a_hi - ai) =~= a.subrange(a_hi, a.len() as int));
    assert(y.take(b_lo - bi) =~= b.subrange(bi, b_lo));
    assert(y.subrange(b_lo - bi, b_hi - bi) =~= b.subrange(b_lo, b_hi));
    assert(y.skip(b_hi - bi) =~= b.subrange(b_hi, b.len() as int));
}

impl<'a> Merger<'a> {
    pub open spec fn a_rest(&self) -> Seq<u32> {
        self.a@.skip(self.a_index as int)
    }

    pub open spec fn b_rest(&self) -> Seq<u32> {
        self.b@.skip(self.b_index as int)
    }

    /// Indices are in bounds, the output has exactly the room the remaining
    /// values need, and both inputs are sorted.
    pub open spec fn wf(&self) -> bool {
        &&& self.a_index <= self.a@.len()
        &&& self.b_index <= self.b@.len()
        &&& self.out_index <= self.out@.len()
        &&& self.out@.len() - self.out_index == (self.a@.len() - self.a_index) + (self.b@.len()
            - self.b_index)
        &&& sorted(self.a@)
        &&& sorted(self.b@)
    }

    /// What the output holds once the merge is complete.
    pub open spec fn target(&self) -> Seq<u32> {
        self.out@.take(self.out_index as int) + merged(self.a_rest(), self.b_rest())
    }

    /// The value a division cuts around: the one just before the middle of
    /// the longer remaining run (`a` on a tie).
    pub open spec fn divide_pivot(&self) -> u32 {
        if self.a_rest().len() >= self.b_rest().len() {
            self.a_rest()[self.a_rest().len() / 2 - 1]
        } else {
            self.b_rest()[self.b_rest().len() / 2 - 1]
        }
    }

    /// The copies of the pivot, those of `a` first: what a division writes
    /// between the outputs of the two halves.
    pub open spec fn pivot_copies(&self) -> Seq<u32> {
        filtered(self.a_rest(), equal_to(self.divide_pivot())) + filtered(
            self.b_rest(),
            equal_to(self.divide_pivot()),
        )
    }

    /// `self` is `before` after `k` more values were merged: each side has
    /// advanced by what the stable merge of the rests takes from it, and the
    /// output cells after the new position are untouched.
    pub open spec fn advanced_from(self, before: Merger<'a>, k: nat) -> bool {
        &&& self.a_index == before.a_index + merge_position(before.a_rest(), before.b_rest(), k).0
        &&& self.b_index == before.b_index + merge_position(before.a_rest(), before.b_rest(), k).1
        &&& self.out_index == before.out_index + k
        &&& self.out@.skip(self.out_index as int) == before.out@.skip(self.out_index as int)
    }

    /// Number of output cells still to be written.
    pub open spec fn remaining(&self) -> nat {
        (self.out@.len() - self.out_index) as nat
    }

    /// The merge is worth splitting: both sides hold at least two values, and
    /// neither side lies entirely before the other nor is a single repeated
    /// value.
    pub open spec fn spec_nontrivial(&self) -> bool {
        &&& self.a@.len() - self.a_index >= 2
        &&& self.b@.len() - self.b_index >= 2
        &&& self.a@.last() > self.b@[self.b_index as int]
        &&& self.a@[self.a_index as int] < self.b@.last()
        &&& self.a@[self.a_index as int] != self.a@.last()
        &&& self.b@[self.b_index as int] != self.b@.last()
    }

    /// Starts a merge of `a` and `b` into `out`.
    pub fn new(a: &'a [u32], b: &'a [u32], out: &'a mut [u32]) -> (m: Self)
        ensures
            m.a == a,
            m.b == b,
            m.out@ == old(out)@,
            m.a_index == 0,
            m.b_index == 0,
            m.out_index == 0,
            final(out)@ == final(m.out)@,
    {
        Merger { a, b, a_index: 0, b_index: 0, out, out_index: 0 }
    }

    /// Moves the next `amount` values of `a` to the output.
    pub fn copy_from_a(&mut self, amount: usize)
        requires
            old(self).wf(),
            amount <= old(self).a@.len() - old(self).a_index,
        ensures
            final(self).wf(),
            final(final(self).out)@ == final(old(self).out)@,
            final(self).a == old(self).a,
            final(self).b == old(self).b,
            final(self).a_index == old(self).a_index + amount,
            final(self).b_index == old(self).b_index,
            final(self).out_index == old(self).out_index + amount,
            final(self).out@ == old(self).out@.take(old(self).out_index as int) + old(self).a_rest().take(
                amount as int,
            ) + old(self).out@.skip(old(self).out_index + amount),
    {
        let ghost o = self.out@;
        let ghost out0 = self.out;
        let ghost a0 = self.a;
        let ghost b0 = self.b;
        let oi = self.out_index;
        let ai = self.a_index;
        let alen = self.a.len();
        let olen = self.out.len();
        let mut k: usize = 0;
        while k < amount
            invariant
                0 <= k <= amount,
                amount <= self.a@.len() - ai,
                alen == self.a@.len(),
                olen == self.out@.len(),
                a0 == self.a,
                b0 == self.b,
                final(self.out)@ == final(out0)@,
                oi == self.out_index,
                ai == self.a_index,
                self.wf(),
                self.out@.len() == o.len(),
                self.out@ == o.take(oi as int) + self.a@.subrange(ai as int, ai + k) + o.skip(oi + k),
            decreases amount - k,
        {
            let v = self.a[ai + k];
            self.out[oi + k] = v;
            k = k + 1;
            assert(self.out@ =~= o.take(oi as int) + self.a@.subrange(ai as int, ai + k) + o.skip(oi + k));
        }
        self.out_index = oi + amount;
        self.a_index = ai + amount;
        assert(self.a@.subrange(ai as int, ai + amount) =~= self.a@.skip(ai as int).take(amount as int));
    }

    /// Moves the next `amount` values of `b` to the output.
    pub fn copy_from_b(&mut self, amount: usize)
        requires
            old(self).wf(),
            amount <= old(self).b@.len() - old(self).b_index,
        ensures
            final(self).wf(),
            final(final(self).out)@ == final(old(self).out)@,
            final(self).a == old(self).a,
            final(self).b == old(self).b,
            final(self).a_index == old(self).a_index,
            final(self).b_index == old(self).b_index + amount,
            final(self).out_index == old(self).out_index + amount,
            final(self).out@ == old(self).out@.take(old(self).out_index as int) + old(self).b_rest().take(
                amount as int,
            ) + old(self).out@.skip(old(self).out_index + amount),
    {
        let ghost o = self.out@;
        let ghost out0 = self.out;
        let ghost a0 = self.a;
        let ghost b0 = self.b;
        let oi = self.out_index;
        let bi = self.b_index;
        let blen = self.b.len();
        let olen = self.out.len();
        let mut k: usize = 0;
        while k < amount
            invariant
                0 <= k <= amount,
                amount <= self.b@.len() - bi,
                blen == self.b@.len(),
                olen == self.out@.len(),
                a0 == self.a,
                b0 == self.b,
                final(self.out)@ == final(out0)@,
                oi == self.out_index,
                bi == self.b_index,
                self.wf(),
                self.out@.len() == o.len(),
                self.out@ == o.take(oi as int) + self.b@.subrange(bi as int, bi + k) + o.skip(oi + k),
            decreases amount - k,
        {
            let v = self.b[bi + k];
            self.out[oi + k] = v;
            k = k + 1;
            assert(self.out@ =~= o.take(oi as int) + self.b@.subrange(bi as int, bi + k) + o.skip(oi + k));
        }
        self.out_index = oi + amount;
        self.b_index = bi + amount;
        assert(self.b@.subrange(bi as int, bi + amount) =~= self.b@.skip(bi as int).take(amount as int));
    }

    /// Whether the merge is worth splitting (see `spec_nontrivial`).
    pub fn check_triviality(&self) -> (r: bool)
        requires
            self.wf(),
        ensures
            r == self.spec_nontrivial(),
    {
        !(self.a.len() - self.a_index < 2 || self.b.len() - self.b_index < 2 || self.a[self.a.len()
            - 1] <= self.b[self.b_index] || self.a[self.a_index] >= self.b[self.b.len() - 1]
            || self.a[self.a_index] == self.a[self.a.len() - 1] || self.b[self.b_index]
            == self.b[self.b.len() - 1])
    }

    /// Moves one value to the output: the head of `a` unless the head of `b`
    /// is strictly smaller.
    fn merge_one(&mut self)
        requires
            old(self).wf(),
            old(self).a_index < old(self).a@.len(),
            old(self).b_index < old(self).b@.len(),
        ensures
            final(self).wf(),
            final(final(self).out)@ == final(old(self).out)@,
            final(self).a == old(self).a,
            final(self).b == old(self).b,
            final(self).out_index == old(self).out_index + 1,
            final(self).out@.len() == old(self).out@.len(),
            final(self).a_index >= old(self).a_index,
            final(self).b_index >= old(self).b_index,
            final(self).a_index + final(self).b_index == old(self).a_index + old(self).b_index + 1,
            final(self).target() == old(self).target(),
            final(self).advanced_from(*old(self), 1),
    {
        let ghost ar = self.a_rest();
        let ghost br = self.b_rest();
        let ghost o = self.out@;
        let oi = self.out_index;
        let ai = self.a_index;
        let bi = self.b_index;
        if self.a[ai] <= self.b[bi] {
            let v = self.a[ai];
            self.out[oi] = v;
            self.a_index = ai + 1;
            self.out_index = oi + 1;
            assert(self.a_rest() =~= ar.drop_first());
            assert(merged(ar, br) == seq![ar[0]] + merged(ar.drop_first(), br));
            assert(self.out@.take(oi + 1) =~= o.take(oi as int) + seq![v]);
        } else {
            let v = self.b[bi];
            self.out[oi] = v;
            self.b_index = bi + 1;
            self.out_index = oi + 1;
            assert(self.b_rest() =~= br.drop_first());
            assert(merged(ar, br) == seq![br[0]] + merged(ar, br.drop_first()));
            assert(self.out@.take(oi + 1) =~= o.take(oi as int) + seq![v]);
        }
        assert(self.target() =~= o.take(oi as int) + merged(ar, br));
        assert(self.out@.skip(oi + 1) =~= o.skip(oi + 1));
        assert(merge_position(ar, br, 1) == merge_step_from(ar, br, merge_position(ar, br, 0)));
    }

    /// Merges up to `limit` more values into the output.
    ///
    /// Where the next values of one side all come before the other side, they
    /// are copied as a block; runs of values equal across both sides are
    /// copied with a logarithmic search; otherwise values are merged one by
    /// one.
    pub fn manual_merge(&mut self, limit: usize)
        requires
            old(self).wf(),
        ensures
            final(self).wf(),
            final(final(self).out)@ == final(old(self).out)@,
            final(self).a == old(self).a,
            final(self).b == old(self).b,
            final(self).target() == old(self).target(),
            final(self).out@.len() == old(self).out@.len(),
            final(self).out_index == old(self).out_index + (if limit < old(self).remaining() {
                limit as nat
            } else {
                old(self).remaining()
            }),
            final(self).advanced_from(*old(self), (final(self).out_index - old(self).out_index) as nat),
    {
        let ghost t = self.target();
        let ghost out0 = self.out;
        let ghost a0 = self.a;
        let ghost b0 = self.b;
        let ghost oi0 = self.out_index;
        let ghost olen0 = self.out@.len();
        let mut processed: usize = 0;
        let out_left = self.out.len() - self.out_index;
        let to_do = if limit < out_left {
            limit
        } else {
            out_left
        };
        while processed < to_do
            invariant_except_break
                self.out_index == oi0 + processed,
            invariant
                self.wf(),
                final(self.out)@ == final(out0)@,
                self.a == a0,
                self.b == b0,
                self.target() == t,
                processed <= to_do,
                oi0 + to_do <= self.out@.len(),
                self.out@.len() == olen0,
                old(self).wf(),
                old(self).a == a0 && old(self).b == b0,
                old(self).out@.len() == olen0,
                old(self).out_index == oi0,
                oi0 + to_do <= old(self).out@.len(),
                self.advanced_from(*old(self), (self.out_index - oi0) as nat),
            ensures
                self.out_index == oi0 + to_do,
                self.advanced_from(*old(self), (self.out_index - oi0) as nat),
            decreases to_do - processed,
        {
            let work_remaining = to_do - processed;
            let a_remaining = self.a.len() - self.a_index;
            let b_remaining = self.b.len() - self.b_index;
            let ghost ar = self.a_rest();
            let ghost br = self.b_rest();
            let ghost o = self.out@;
            let ghost oi = self.out_index;
            let ghost prev = *self;
            if a_remaining == 0 {
                proof {
                    lemma_merged_take_b(ar, br, work_remaining as int);
                    lemma_merge_position_take_b(ar, br, (work_remaining as int) as nat);
                }
                self.copy_from_b(work_remaining);
                proof {
                    assert(self.b_rest() =~= br.skip(work_remaining as int));
                    self.lemma_target_after_copy_b(o, oi as int, ar, br, work_remaining as int);
                    assert(self.out@.skip(self.out_index as int) =~= o.skip(self.out_index as int));
                    Self::lemma_advanced_trans(*old(self), prev, *self, (oi - oi0) as nat, work_remaining as nat);
                }
                break ;
            }
            if b_remaining == 0 {
                proof {
                    lemma_merged_take_a(ar, br, work_remaining as int);
                    lemma_merge_position_take_a(ar, br, (work_remaining as int) as nat);
                }
                self.copy_from_a(work_remaining);
                proof {
                    assert(self.a_rest() =~= ar.skip(work_remaining as int));
                    self.lemma_target_after_copy_a(o, oi as int, ar, br, work_remaining as int);
                    assert(self.out@.skip(self.out_index as int) =~= o.skip(self.out_index as int));
                    Self::lemma_advanced_trans(*old(self), prev, *self, (oi - oi0) as nat, work_remaining as nat);
                }
                break ;
            }
            let n = self.merge_step(work_remaining);
            proof {
                Self::lemma_advanced_trans(*old(self), prev, *self, (oi - oi0) as nat, n as nat);
            }
            processed = processed + n;
        }
    }

    /// One round of `manual_merge` when both sides still hold values: merges
    /// between 1 and `work_remaining` values and returns how many.
    fn merge_step(&mut self, work_remaining: usize) -> (n: usize)
        requires
            old(self).wf(),
            0 < work_remaining <= old(self).remaining(),
            old(self).a_index < old(self).a@.len(),
            old(self).b_index < old(self).b@.len(),
        ensures
            final(self).wf(),
            final(final(self).out)@ == final(old(self).out)@,
            final(self).a == old(self).a,
            final(self).b == old(self).b,
            final(self).out@.len() == old(self).out@.len(),
            final(self).target() == old(self).target(),
            1 <= n <= work_remaining,
            final(self).out_index == old(self).out_index + n,
            final(self).advanced_from(*old(self), n as nat),
    {
        let a_remaining = self.a.len() - self.a_index;
        let b_remaining = self.b.len() - self.b_index;
        let a_take = if work_remaining < a_remaining {
            work_remaining
        } else {
            a_remaining
        };
        let b_take = if work_remaining < b_remaining {
            work_remaining
        } else {
            b_remaining
        };
        let a_last = self.a_index + a_take - 1;
        let b_last = self.b_index + b_take - 1;
        if self.a[a_last] <= self.b[self.b_index] {
            // the next values of `a` all come before the head of `b`
            self.copy_block_from_a(a_take, a_last)
        } else if self.b[b_last] < self.a[self.a_index] {
            // the next values of `b` all come before the head of `a`
            self.copy_block_from_b(b_take, b_last)
        } else if self.b[b_last] == self.a[self.a_index] {
            // Not sure if this one is worth it. It is logarithmic versus linear
            if self.b[b_last] == self.b[self.b_index] {
                self.copy_equal_run_from_a(work_remaining, a_last)
            } else {
                self.copy_below_last_from_b(work_remaining, b_last)
            }
        } else {
            let block_size = if a_take < b_remaining {
                a_take
            } else {
                b_remaining
            };
            self.merge_block(block_size);
            block_size
        }
    }

    fn copy_block_from_a(&mut self, work_remaining: usize, a_last: usize) -> (n: usize)
        requires
            old(self).wf(),
            0 < work_remaining <= old(self).remaining(),
            old(self).a_index < old(self).a@.len(),
            old(self).b_index < old(self).b@.len(),
            a_last + 1 - old(self).a_index <= work_remaining,
            old(self).a_index <= a_last < old(self).a@.len(),
            old(self).a@[a_last as int] <= old(self).b@[old(self).b_index as int],
        ensures
            final(self).wf(),
            final(final(self).out)@ == final(old(self).out)@,
            final(self).a == old(self).a,
            final(self).b == old(self).b,
            final(self).out@.len() == old(self).out@.len(),
            final(self).target() == old(self).target(),
            1 <= n <= work_remaining,
            final(self).out_index == old(self).out_index + n,
            final(self).advanced_from(*old(self), n as nat),
            n == a_last + 1 - old(self).a_index,
    {
        let ghost ar = self.a_rest();
        let ghost br = self.b_rest();
        let ghost o = self.out@;
        let ghost oi = self.out_index;
        let a_take = a_last - self.a_index + 1;
        proof {
            assert forall|i: int| 0 <= i < a_take implies ar[i] <= br[0] by {
                assert(ar[i] == self.a@[self.a_index + i]);
                assert(self.a@[self.a_index + i] <= self.a@[a_last as int]);
            }
            lemma_merged_take_a(ar, br, a_take as int);
            lemma_merge_position_take_a(ar, br, (a_take as int) as nat);
        }
        self.copy_from_a(a_take);
        proof {
            assert(self.a_rest() =~= ar.skip(a_take as int));
            self.lemma_target_after_copy_a(o, oi as int, ar, br, a_take as int);
            assert(self.out@.skip(self.out_index as int) =~= o.skip(self.out_index as int));
        }
        a_take
    }

    fn copy_block_from_b(&mut self, work_remaining: usize, b_last: usize) -> (n: usize)
        requires
            old(self).wf(),
            0 < work_remaining <= old(self).remaining(),
            old(self).a_index < old(self).a@.len(),
            old(self).b_index < old(self).b@.len(),
            b_last + 1 - old(self).b_index <= work_remaining,
            old(self).b_index <= b_last < old(self).b@.len(),
            old(self).b@[b_last as int] < old(self).a@[old(self).a_index as int],
        ensures
            final(self).wf(),
            final(final(self).out)@ == final(old(self).out)@,
            final(self).a == old(self).a,
            final(self).b == old(self).b,
            final(self).out@.len() == old(self).out@.len(),
            final(self).target() == old(self).target(),
            1 <= n <= work_remaining,
            final(self).out_index == old(self).out_index + n,
            final(self).advanced_from(*old(self), n as nat),
            n == b_last + 1 - old(self).b_index,
    {
        let ghost ar = self.a_rest();
        let ghost br = self.b_rest();
        let ghost o = self.out@;
        let ghost oi = self.out_index;
        let b_take = b_last - self.b_index + 1;
        proof {
            assert forall|i: int| 0 <= i < b_take implies br[i] < ar[0] by {
                assert(br[i] == self.b@[self.b_index + i]);
                assert(self.b@[self.b_index + i] <= self.b@[b_last as int]);
            }
            lemma_merged_take_b(ar, br, b_take as int);
            lemma_merge_position_take_b(ar, br, (b_take as int) as nat);
        }
        self.copy_from_b(b_take);
        proof {
            assert(self.b_rest() =~= br.skip(b_take as int));
            self.lemma_target_after_copy_b(o, oi as int, ar, br, b_take as int);
            assert(self.out@.skip(self.out_index as int) =~= o.skip(self.out_index as int));
        }
        b_take
    }

    /// The values of `b` up to `b_last` all equal the head of `a`, which is
    /// not the last of them: copies the values of `a` equal to its head.
    fn copy_equal_run_from_a(&mut self, work_remaining: usize, a_last: usize) -> (n: usize)
        requires
            old(self).wf(),
            0 < work_remaining <= old(self).remaining(),
            old(self).a_index < old(self).a@.len(),
            old(self).b_index < old(self).b@.len(),
            a_last + 1 - old(self).a_index <= work_remaining,
            old(self).a_index <= a_last < old(self).a@.len(),
            old(self).a@[a_last as int] > old(self).b@[old(self).b_index as int],
            old(self).a@[old(self).a_index as int] == old(self).b@[old(self).b_index as int],
        ensures
            final(self).wf(),
            final(final(self).out)@ == final(old(self).out)@,
            final(self).a == old(self).a,
            final(self).b == old(self).b,
            final(self).out@.len() == old(self).out@.len(),
            final(self).target() == old(self).target(),
            1 <= n <= work_remaining,
            final(self).out_index == old(self).out_index + n,
            final(self).advanced_from(*old(self), n as nat),
    {
        let ghost ar = self.a_rest();
        let ghost br = self.b_rest();
        let ghost o = self.out@;
        let ghost oi = self.out_index;
        let run = &self.a[self.a_index..a_last];
        proof {
            assert(run@ == self.a@.subrange(self.a_index as int, a_last as int));
        }
        let a_unequal_index = index_without_first_value(run);
        proof {
            assert forall|i: int| 0 <= i < a_unequal_index implies ar[i] <= br[0] by {
                assert(ar[i] == run@[i]);
            }
            lemma_merged_take_a(ar, br, a_unequal_index as int);
            lemma_merge_position_take_a(ar, br, (a_unequal_index as int) as nat);
        }
        self.copy_from_a(a_unequal_index);
        proof {
            assert(self.a_rest() =~= ar.skip(a_unequal_index as int));
            self.lemma_target_after_copy_a(o, oi as int, ar, br, a_unequal_index as int);
            assert(self.out@.skip(self.out_index as int) =~= o.skip(self.out_index as int));
        }
        a_unequal_index
    }

    /// The last of the next values of `b` equals the head of `a` and differs
    /// from the head of `b`: copies the values of `b` below it.
    fn copy_below_last_from_b(&mut self, work_remaining: usize, b_last: usize) -> (n: usize)
        requires
            old(self).wf(),
            0 < work_remaining <= old(self).remaining(),
            old(self).a_index < old(self).a@.len(),
            old(self).b_index < old(self).b@.len(),
            b_last + 1 - old(self).b_index <= work_remaining,
            old(self).b_index <= b_last < old(self).b@.len(),
            old(self).b@[b_last as int] == old(self).a@[old(self).a_index as int],
            old(self).b@[b_last as int] != old(self).b@[old(self).b_index as int],
        ensures
            final(self).wf(),
            final(final(self).out)@ == final(old(self).out)@,
            final(self).a == old(self).a,
            final(self).b == old(self).b,
            final(self).out@.len() == old(self).out@.len(),
            final(self).target() == old(self).target(),
            1 <= n <= work_remaining,
            final(self).out_index == old(self).out_index + n,
            final(self).advanced_from(*old(self), n as nat),
    {
        let ghost ar = self.a_rest();
        let ghost br = self.b_rest();
        let ghost o = self.out@;
        let ghost oi = self.out_index;
        let blen = self.b.len();
        let run = &self.b[self.b_index..b_last + 1];
        proof {
            assert(run@ == self.b@.subrange(self.b_index as int, b_last + 1));
        }
        let b_unequal_index = index_without_last_value(run);
        proof {
            assert forall|i: int| 0 <= i < b_unequal_index + 1 implies br[i] < ar[0] by {
                assert(br[i] == run@[i]);
                assert(run@[i] <= run@[b_unequal_index as int]);
                assert(run@[b_unequal_index as int] <= run@.last());
            }
            lemma_merged_take_b(ar, br, b_unequal_index + 1);
            lemma_merge_position_take_b(ar, br, (b_unequal_index + 1) as nat);
        }
        self.copy_from_b(b_unequal_index + 1);
        proof {
            assert(self.b_rest() =~= br.skip(b_unequal_index + 1));
            self.lemma_target_after_copy_b(o, oi as int, ar, br, b_unequal_index + 1);
            assert(self.out@.skip(self.out_index as int) =~= o.skip(self.out_index as int));
        }
        b_unequal_index + 1
    }

    /// Merges the next `block_size` values one by one.
    fn merge_block(&mut self, block_size: usize)
        requires
            old(self).wf(),
            block_size <= old(self).a@.len() - old(self).a_index,
            block_size <= old(self).b@.len() - old(self).b_index,
        ensures
            final(self).wf(),
            final(final(self).out)@ == final(old(self).out)@,
            final(self).a == old(self).a,
            final(self).b == old(self).b,
            final(self).out@.len() == old(self).out@.len(),
            final(self).target() == old(self).target(),
            final(self).out_index == old(self).out_index + block_size,
            final(self).advanced_from(*old(self), block_size as nat),
    {
        let ghost t = self.target();
        let ghost out0 = self.out;
        let ghost a0 = self.a;
        let ghost b0 = self.b;
        let ghost olen = self.out@.len();
        let oi = self.out_index;
        let ai0 = self.a_index;
        let bi0 = self.b_index;
        let mut k: usize = 0;
        while k < block_size
            invariant
                self.wf(),
                final(self.out)@ == final(out0)@,
                self.a == a0,
                self.b == b0,
                self.out@.len() == olen,
                self.target() == t,
                k <= block_size,
                ai0 + block_size <= self.a@.len(),
                bi0 + block_size <= self.b@.len(),
                self.a_index >= ai0,
                self.b_index >= bi0,
                self.a_index + self.b_index == ai0 + bi0 + k,
                self.out_index == oi + k,
                old(self).wf(),
                old(self).a == a0 && old(self).b == b0,
                old(self).out@.len() == olen,
                old(self).a_index == ai0 && old(self).b_index == bi0 && old(self).out_index == oi,
                self.advanced_from(*old(self), k as nat),
            decreases block_size - k,
        {
            let ghost prev = *self;
            self.merge_one();
            proof {
                Self::lemma_advanced_trans(*old(self), prev, *self, k as nat, 1);
            }
            k = k + 1;
        }
    }

    /// Advancing by `k1`, then by `k2`, is advancing by `k1 + k2`.
    proof fn lemma_advanced_trans(m0: Merger<'a>, m1: Merger<'a>, m2: Merger<'a>, k1: nat, k2: nat)
        requires
            m0.wf(),
            m1.wf(),
            m2.wf(),
            m1.out@.len() == m0.out@.len() && m2.out@.len() == m0.out@.len(),
            m1.a == m0.a && m1.b == m0.b && m2.a == m0.a && m2.b == m0.b,
            m1.advanced_from(m0, k1),
            m2.advanced_from(m1, k2),
            k1 + k2 <= m0.remaining(),
        ensures
            m2.advanced_from(m0, k1 + k2),
    {
        let ar = m0.a_rest();
        let br = m0.b_rest();
        lemma_merge_position_compose(ar, br, k1, k2);
        lemma_merge_position_bounds(ar, br, k1);
        let p = merge_position(ar, br, k1);
        assert(m1.a_rest() =~= ar.skip(p.0 as int));
        assert(m1.b_rest() =~= br.skip(p.1 as int));
        assert(m1.out@.skip(m2.out_index as int) =~= m1.out@.skip(m1.out_index as int).skip(k2 as int));
        assert(m0.out@.skip(m2.out_index as int) =~= m0.out@.skip(m1.out_index as int).skip(k2 as int));
    }

    proof fn lemma_target_after_copy_a(
        &self,
        o: Seq<u32>,
        oi: int,
        ar: Seq<u32>,
        br: Seq<u32>,
        k: int,
    )
        requires
            0 <= oi <= o.len(),
            0 <= k <= ar.len(),
            oi + k <= o.len(),
            self.out_index == oi + k,
            self.out@ == o.take(oi) + ar.take(k) + o.skip(oi + k),
            self.a_rest() == ar.skip(k),
            self.b_rest() == br,
            merged(ar, br) == ar.take(k) + merged(ar.skip(k), br),
        ensures
            self.target() == o.take(oi) + merged(ar, br),
    {
        assert(self.out@.take(oi + k) =~= o.take(oi) + ar.take(k));
        assert(self.target() =~= o.take(oi) + merged(ar, br));
    }

    proof fn lemma_target_after_copy_b(
        &self,
        o: Seq<u32>,
        oi: int,
        ar: Seq<u32>,
        br: Seq<u32>,
        k: int,
    )
        requires
            0 <= oi <= o.len(),
            0 <= k <= br.len(),
            oi + k <= o.len(),
            self.out_index == oi + k,
            self.out@ == o.take(oi) + br.take(k) + o.skip(oi + k),
            self.b_rest() == br.skip(k),
            self.a_rest() == ar,
            merged(ar, br) == br.take(k) + merged(ar, br.skip(k)),
        ensures
            self.target() == o.take(oi) + merged(ar, br),
    {
        assert(self.out@.take(oi + k) =~= o.take(oi) + br.take(k));
        assert(self.target() =~= o.take(oi) + merged(ar, br));
    }

    /// Splits a nontrivial merge in two independent merges.
    ///
    /// The longer remaining side is cut around the value just before its
    /// middle (the pivot), the other side around the same value; the copies
    /// of the pivot go straight to their final place in the output (those of
    /// `a` first), and the values below and above it form the two merges.
    #[verifier::spinoff_prover]
    #[verifier::rlimit(80)]
    pub fn divide(self) -> (r: (Self, Self))
        requires
            self.wf(),
            self.spec_nontrivial(),
        ensures
            r.0.wf(),
            r.1.wf(),
            r.0.a_index == 0 && r.0.b_index == 0 && r.0.out_index == 0,
            r.1.a_index == 0 && r.1.b_index == 0 && r.1.out_index == 0,
            r.0.remaining() < self.remaining(),
            r.1.remaining() < self.remaining(),
            r.0.remaining() + r.1.remaining() < self.remaining(),
            r.0.a@ == filtered(self.a_rest(), below(self.divide_pivot())),
            r.0.b@ == filtered(self.b_rest(), below(self.divide_pivot())),
            r.1.a@ == filtered(self.a_rest(), above(self.divide_pivot())),
            r.1.b@ == filtered(self.b_rest(), above(self.divide_pivot())),
            r.0.out@ == old(self.out)@.subrange(
                self.out_index as int,
                self.out_index + r.0.out@.len(),
            ),
            r.1.out@ == old(self.out)@.skip(
                self.out_index + r.0.out@.len() + self.pivot_copies().len(),
            ),
            final(self.out)@ == old(self.out)@.take(self.out_index as int) + final(r.0.out)@
                + self.pivot_copies() + final(r.1.out)@,
            final(r.0.out)@ == r.0.target() && final(r.1.out)@ == r.1.target() ==> final(self.out)@
                == self.target(),
    {
        let a = self.a;
        let b = self.b;
        let ai = self.a_index;
        let bi = self.b_index;
        let oi = self.out_index;
        let out = self.out;
        let olen = out.len();
        let (pivot, a_lo, a_hi, b_lo, b_hi) = cut_both(a, ai, b, bi);
        let a_left = &a[ai..a_lo];
        let a_equal = &a[a_lo..a_hi];
        let a_right = &a[a_hi..a.len()];
        let b_left = &b[bi..b_lo];
        let b_equal = &b[b_lo..b_hi];
        let b_right = &b[b_hi..b.len()];
        let base = (a_lo - ai) + (b_lo - bi);
        let equal_len = (a_hi - a_lo) + (b_hi - b_lo);
        let ghost o = out@;
        let (left_out, right_out) = place_between(out, oi, base, a_equal, b_equal);
        proof {
            lemma_cut_merge(a@, ai as int, a_lo as int, a_hi as int, b@, bi as int, b_lo as int, b_hi as int, pivot);
        }
        let l = Merger { a: a_left, b: b_left, a_index: 0, b_index: 0, out: left_out, out_index: 0 };
        let r = Merger { a: a_right, b: b_right, a_index: 0, b_index: 0, out: right_out, out_index: 0 };
        proof {
            lemma_cut_parts(a@, ai as int, a_lo as int, a_hi as int, pivot);
            lemma_cut_parts(b@, bi as int, b_lo as int, b_hi as int, pivot);
            assert(a_left@ =~= a@.subrange(ai as int, a_lo as int));
            assert(a_right@ =~= a@.subrange(a_hi as int, a@.len() as int));
            assert(b_left@ =~= b@.subrange(bi as int, b_lo as int));
            assert(b_right@ =~= b@.subrange(b_hi as int, b@.len() as int));
            assert(a_equal@ =~= a@.subrange(a_lo as int, a_hi as int));
            assert(b_equal@ =~= b@.subrange(b_lo as int, b_hi as int));
            assert(self.a_rest()[self.a_rest().len() / 2 - 1] == a@[ai + (a@.len() - ai) / 2 - 1]);
            assert(self.b_rest()[self.b_rest().len() / 2 - 1] == b@[bi + (b@.len() - bi) / 2 - 1]);
            assert(pivot == self.divide_pivot());
            assert(l.out@ =~= o.subrange(oi as int, oi + base));
            assert(r.out@ =~= o.skip(oi + base + equal_len));
            assert(l.a_rest() =~= a_left@);
            assert(l.b_rest() =~= b_left@);
            assert(r.a_rest() =~= a_right@);
            assert(r.b_rest() =~= b_right@);
            assert(l.out@.take(0) =~= Seq::<u32>::empty());
            assert(r.out@.take(0) =~= Seq::<u32>::empty());
            assert(l.target() =~= merged(a_left@, b_left@));
            assert(r.target() =~= merged(a_right@, b_right@));
        }
        (l, r)
    }
}

/// Runs a merge to completion: while `depth` allows and the merge is worth
/// splitting, it is divided and both halves run in parallel; otherwise it
/// merges block by block.
pub fn schedule_merge(m: Merger, block: usize, depth: u32)
    requires
        m.wf(),
        block > 0,
    ensures
        final(m.out)@ == m.target(),
    decreases m.remaining(),
{
    let mut m = m;
    if m.out_index == m.out.len() {
        proof {
            assert(m.a_rest() =~= Seq::<u32>::empty());
            assert(m.b_rest() =~= Seq::<u32>::empty());
            assert(m.out@.take(m.out_index as int) =~= m.out@);
            assert(m.target() =~= m.out@);
        }
        return ;
    }
    if depth > 0 && m.check_triviality() {
        let (left, right) = m.divide();
        let f = move || ensures final(left.out)@ == left.target() {
            schedule_merge(left, block, depth - 1)
        };
        let g = move || ensures final(right.out)@ == right.target() {
            schedule_merge(right, block, depth - 1)
        };
        join(f, g);
    } else {
        m.manual_merge(block);
        schedule_merge(m, block, depth);
    }
}

impl<'a> AdaptiveState for Merger<'a> {
    open spec fn wf(&self) -> bool {
        Merger::wf(self)
    }

    open spec fn remaining(&self) -> nat {
        Merger::remaining(self)
    }

    open spec fn spec_should_be_divided(&self) -> bool {
        self.spec_nontrivial()
    }

    /// Same inputs and output size, no going back, and the same final
    /// output.
    open spec fn reaches(&self, later: Self) -> bool {
        &&& later.a == self.a
        &&& later.b == self.b
        &&& later.out@.len() == self.out@.len()
        &&& self.out_index <= later.out_index
        &&& later.target() == self.target()
    }

    /// The halves merge the values below and above the pivot, from their
    /// start, into the cells before and after the copies of the pivot.
    open spec fn split_into(&self, left: Self, right: Self) -> bool {
        let p = self.divide_pivot();
        &&& left.a_index == 0 && left.b_index == 0 && left.out_index == 0
        &&& right.a_index == 0 && right.b_index == 0 && right.out_index == 0
        &&& left.a@ == filtered(self.a_rest(), below(p))
        &&& left.b@ == filtered(self.b_rest(), below(p))
        &&& right.a@ == filtered(self.a_rest(), above(p))
        &&& right.b@ == filtered(self.b_rest(), above(p))
        &&& left.out@ == self.out@.subrange(
            self.out_index as int,
            self.out_index + left.out@.len(),
        )
        &&& right.out@ == self.out@.skip(self.out_index + left.out@.len() + self.pivot_copies().len())
    }

    proof fn lemma_reaches_refl(&self) {
    }

    proof fn lemma_reaches_trans(&self, mid: Self, last: Self) {
    }

    fn completed(&self) -> (r: bool) {
        self.out_index == self.out.len()
    }

    fn should_be_divided(&self) -> (r: bool) {
        self.check_triviality()
    }

    fn divide(self) -> (r: (Self, Self)) {
        Merger::divide(self)
    }

    fn work(&mut self, limit: usize) {
        self.manual_merge(limit)
    }
}

/// Merges the sorted slices `left` and `right` into `output`, in parallel:
/// the merge is divided while that is worth it, and the pieces are merged
/// block by block.
pub fn adaptive_slice_merge(left: &mut [u32], right: &mut [u32], output: &mut [u32])
    requires
        sorted(old(left)@),
        sorted(old(right)@),
        old(output)@.len() == old(left)@.len() + old(right)@.len(),
    ensures
        final(output)@ == merged(old(left)@, old(right)@),
        final(output)@.len() == old(output)@.len(),
        final(left)@ == old(left)@,
        final(right)@ == old(right)@,
{
    let merger = Merger::new(left, right, output);
    proof {
        assert(merger.a_rest() =~= merger.a@);
        assert(merger.b_rest() =~= merger.b@);
        assert(merger.out@.take(0) =~= Seq::<u32>::empty());
        assert(merger.target() =~= merged(merger.a@, merger.b@));
    }
    let depth = division_depth();
    schedule_merge(merger, FIRST_BLOCK, depth);
    proof {
        lemma_merged_len(old(left)@, old(right)@);
    }
}

} // verus!
