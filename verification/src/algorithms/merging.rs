//! The mathematical model of merging two sorted runs of values.
use vstd::prelude::*;
use vstd::seq_lib::lemma_multiset_commutative;
use vstd::multiset::Multiset;

verus! {

/// `s` is sorted in non-decreasing order.
pub open spec fn sorted(s: Seq<u32>) -> bool {
    forall|i: int, j: int| 0 <= i <= j < s.len() ==> s[i] <= s[j]
}

/// The stable merge of `a` and `b`: repeatedly takes the smaller head,
/// preferring `a` on ties.
pub open spec fn merged(a: Seq<u32>, b: Seq<u32>) -> Seq<u32>
    decreases a.len() + b.len(),
{
    if a.len() == 0 {
        b
    } else if b.len() == 0 {
        a
    } else if a[0] <= b[0] {
        seq![a[0]] + merged(a.drop_first(), b)
    } else {
        seq![b[0]] + merged(a, b.drop_first())
    }
}

/// Every element of `x` is at most every element of `y`.
pub open spec fn all_le(x: Seq<u32>, y: Seq<u32>) -> bool {
    forall|i: int, j: int| 0 <= i < x.len() && 0 <= j < y.len() ==> x[i] <= y[j]
}

/// Every element of `x` is strictly below every element of `y`.
pub open spec fn all_lt(x: Seq<u32>, y: Seq<u32>) -> bool {
    forall|i: int, j: int| 0 <= i < x.len() && 0 <= j < y.len() ==> x[i] < y[j]
}

pub proof fn lemma_merged_len(a: Seq<u32>, b: Seq<u32>)
    ensures
        merged(a, b).len() == a.len() + b.len(),
    decreases a.len() + b.len(),
{
    if a.len() == 0 || b.len() == 0 {
    } else if a[0] <= b[0] {
        lemma_merged_len(a.drop_first(), b);
    } else {
        lemma_merged_len(a, b.drop_first());
    }
}

/// Merging neither loses nor invents values.
pub proof fn lemma_merged_multiset(a: Seq<u32>, b: Seq<u32>)
    ensures
        merged(a, b).to_multiset() =~= a.to_multiset().add(b.to_multiset()),
    decreases a.len() + b.len(),
{
    broadcast use vstd::multiset::group_multiset_axioms;
    if a.len() == 0 {
        assert(a.to_multiset() =~= Multiset::empty()) by {
            broadcast use vstd::seq_lib::group_to_multiset_ensures;
        }
    } else if b.len() == 0 {
        assert(b.to_multiset() =~= Multiset::empty()) by {
            broadcast use vstd::seq_lib::group_to_multiset_ensures;
        }
    } else if a[0] <= b[0] {
        lemma_merged_multiset(a.drop_first(), b);
        assert(a =~= seq![a[0]] + a.drop_first());
        lemma_multiset_commutative(seq![a[0]], a.drop_first());
        lemma_multiset_commutative(seq![a[0]], merged(a.drop_first(), b));
    } else {
        lemma_merged_multiset(a, b.drop_first());
        assert(b =~= seq![b[0]] + b.drop_first());
        lemma_multiset_commutative(seq![b[0]], b.drop_first());
        lemma_multiset_commutative(seq![b[0]], merged(a, b.drop_first()));
    }
}

/// The first element of a merge is the head of one of its inputs.
proof fn lemma_merged_first(a: Seq<u32>, b: Seq<u32>)
    requires
        a.len() + b.len() > 0,
    ensures
        merged(a, b).len() > 0,
        (a.len() > 0 && merged(a, b)[0] == a[0]) || (b.len() > 0 && merged(a, b)[0] == b[0]),
{
    lemma_merged_len(a, b);
}

/// Merging two sorted runs gives a sorted run.
pub proof fn lemma_merged_sorted(a: Seq<u32>, b: Seq<u32>)
    requires
        sorted(a),
        sorted(b),
    ensures
        sorted(merged(a, b)),
    decreases a.len() + b.len(),
{
    lemma_merged_len(a, b);
    if a.len() == 0 || b.len() == 0 {
    } else if a[0] <= b[0] {
        let rest = merged(a.drop_first(), b);
        lemma_merged_sorted(a.drop_first(), b);
        if rest.len() > 0 {
            lemma_merged_first(a.drop_first(), b);
        }
        assert forall|i: int, j: int| 0 <= i <= j < rest.len() + 1 implies (seq![a[0]]
            + rest)[i] <= (seq![a[0]] + rest)[j] by {
            if i == 0 && j > 0 {
                assert(rest[0] >= a[0]);
                assert(rest[0] <= rest[j - 1]);
            }
        }
    } else {
        let rest = merged(a, b.drop_first());
        lemma_merged_sorted(a, b.drop_first());
        if rest.len() > 0 {
            lemma_merged_first(a, b.drop_first());
        }
        assert forall|i: int, j: int| 0 <= i <= j < rest.len() + 1 implies (seq![b[0]]
            + rest)[i] <= (seq![b[0]] + rest)[j] by {
            if i == 0 && j > 0 {
                assert(rest[0] >= b[0]);
                assert(rest[0] <= rest[j - 1]);
            }
        }
    }
}

/// A merge splits into two independent merges when everything on the left of
/// the cut comes before everything on the right: left values of `a` are at
/// most right values of `b`, and left values of `b` are strictly below right
/// values of `a` (ties go to `a`).
pub proof fn lemma_merged_split(a1: Seq<u32>, a2: Seq<u32>, b1: Seq<u32>, b2: Seq<u32>)
    requires
        all_le(a1, b2),
        all_lt(b1, a2),
    ensures
        merged(a1 + a2, b1 + b2) == merged(a1, b1) + merged(a2, b2),
    decreases a1.len() + b1.len(),
{
    let a = a1 + a2;
    let b = b1 + b2;
    if a1.len() == 0 && b1.len() == 0 {
        assert(a =~= a2);
        assert(b =~= b2);
        assert(merged(a1, b1) =~= Seq::<u32>::empty());
        assert(merged(a1, b1) + merged(a2, b2) =~= merged(a2, b2));
    } else if a1.len() > 0 && (b1.len() == 0 || a1[0] <= b1[0]) && (b1.len() > 0 || b2.len() == 0
        || a1[0] <= b2[0]) {
        // the head of `a1` comes out first on both sides
        assert(a.drop_first() =~= a1.drop_first() + a2);
        lemma_merged_split(a1.drop_first(), a2, b1, b2);
        if b.len() == 0 {
            assert(merged(a, b) == a);
            assert(merged(a1, b1) == a1);
            assert(merged(a2, b2) == a2);
        } else {
            assert(a[0] == a1[0]);
            assert(b[0] <= b[0]);
            if b1.len() > 0 {
                assert(b[0] == b1[0]);
            } else {
                assert(b[0] == b2[0]);
            }
            assert(merged(a, b) == seq![a[0]] + merged(a.drop_first(), b));
            if b1.len() == 0 {
                assert(merged(a1, b1) == a1);
                assert(merged(a1.drop_first(), b1) == a1.drop_first());
                assert(a1 =~= seq![a1[0]] + a1.drop_first());
            } else {
                assert(merged(a1, b1) == seq![a1[0]] + merged(a1.drop_first(), b1));
            }
            assert(merged(a, b) =~= merged(a1, b1) + merged(a2, b2));
        }
    } else if a1.len() > 0 {
        // the head of `b` comes out first; it belongs to `b1`
        if b1.len() == 0 {
            assert(b2.len() > 0 && a1[0] > b2[0]);
            assert(a1[0] <= b2[0]);
        }
        assert(b1.len() > 0 && b1[0] < a1[0]);
        assert(b.drop_first() =~= b1.drop_first() + b2);
        lemma_merged_split(a1, a2, b1.drop_first(), b2);
        assert(a[0] == a1[0]);
        assert(b[0] == b1[0]);
        assert(merged(a, b) == seq![b[0]] + merged(a, b.drop_first()));
        assert(merged(a1, b1) == seq![b1[0]] + merged(a1, b1.drop_first()));
        assert(merged(a, b) =~= merged(a1, b1) + merged(a2, b2));
    } else {
        // `a1` is empty, `b1` is not: the head of `b1` comes out first
        assert(a =~= a2);
        assert(b.drop_first() =~= b1.drop_first() + b2);
        lemma_merged_split(a1, a2, b1.drop_first(), b2);
        assert(b[0] == b1[0]);
        assert(merged(a1, b1) == b1);
        assert(merged(a1, b1.drop_first()) == b1.drop_first());
        if a.len() == 0 {
            assert(merged(a, b) == b);
            assert(merged(a2, b2) == b2);
            assert(merged(a, b) =~= merged(a1, b1) + merged(a2, b2));
        } else {
            assert(a[0] == a2[0]);
            assert(b1[0] < a2[0]);
            assert(merged(a, b) == seq![b[0]] + merged(a, b.drop_first()));
            assert(b1 =~= seq![b1[0]] + b1.drop_first());
            assert(merged(a, b) =~= merged(a1, b1) + merged(a2, b2));
        }
    }
}

/// When the first `k` values of `a` are at most the head of `b`, the merge
/// starts with them.
pub proof fn lemma_merged_take_a(a: Seq<u32>, b: Seq<u32>, k: int)
    requires
        0 <= k <= a.len(),
        b.len() == 0 || (forall|i: int| 0 <= i < k ==> a[i] <= b[0]),
    ensures
        merged(a, b) == a.take(k) + merged(a.skip(k), b),
    decreases k,
{
    if k == 0 {
        assert(a.skip(0) =~= a);
        assert(a.take(0) + merged(a.skip(0), b) =~= merged(a, b));
    } else {
        if b.len() == 0 {
            assert(merged(a, b) == a);
            assert(merged(a.skip(k), b) == a.skip(k));
            assert(a =~= a.take(k) + a.skip(k));
        } else {
            assert(merged(a, b) == seq![a[0]] + merged(a.drop_first(), b));
            lemma_merged_take_a(a.drop_first(), b, k - 1);
            assert(a.drop_first().skip(k - 1) =~= a.skip(k));
            assert(seq![a[0]] + a.drop_first().take(k - 1) =~= a.take(k));
            assert(merged(a, b) =~= a.take(k) + merged(a.skip(k), b));
        }
    }
}

/// When the first `k` values of `b` are strictly below the head of `a`, the
/// merge starts with them.
pub proof fn lemma_merged_take_b(a: Seq<u32>, b: Seq<u32>, k: int)
    requires
        0 <= k <= b.len(),
        a.len() == 0 || (forall|i: int| 0 <= i < k ==> b[i] < a[0]),
    ensures
        merged(a, b) == b.take(k) + merged(a, b.skip(k)),
    decreases k,
{
    if k == 0 {
        assert(b.skip(0) =~= b);
        assert(b.take(0) + merged(a, b.skip(0)) =~= merged(a, b));
    } else {
        if a.len() == 0 {
            assert(merged(a, b) == b);
            assert(merged(a, b.skip(k)) == b.skip(k));
            assert(b =~= b.take(k) + b.skip(k));
        } else {
            assert(merged(a, b) == seq![b[0]] + merged(a, b.drop_first()));
            lemma_merged_take_b(a, b.drop_first(), k - 1);
            assert(b.drop_first().skip(k - 1) =~= b.skip(k));
            assert(seq![b[0]] + b.drop_first().take(k - 1) =~= b.take(k));
            assert(merged(a, b) =~= b.take(k) + merged(a, b.skip(k)));
        }
    }
}

/// Two runs of one repeated value merge into the first followed by the second.
pub proof fn lemma_merged_equal_runs(x: Seq<u32>, y: Seq<u32>, p: u32)
    requires
        forall|i: int| 0 <= i < x.len() ==> #[trigger] x[i] == p,
        forall|i: int| 0 <= i < y.len() ==> #[trigger] y[i] == p,
    ensures
        merged(x, y) == x + y,
{
    lemma_merged_take_a(x, y, x.len() as int);
    assert(x.take(x.len() as int) =~= x);
    assert(x.skip(x.len() as int) =~= Seq::<u32>::empty());
}

/// Cutting both runs around a pivot value: the merge is the merge of the parts
/// below the pivot, then every copy of the pivot (those of `x` first), then
/// the merge of the parts above it.
pub proof fn lemma_merged_around_pivot(x: Seq<u32>, xl: int, xh: int, y: Seq<u32>, yl: int, yh: int, p: u32)
    requires
        0 <= xl <= xh <= x.len(),
        0 <= yl <= yh <= y.len(),
        forall|i: int| 0 <= i < xl ==> #[trigger] x[i] < p,
        forall|i: int| xl <= i < xh ==> #[trigger] x[i] == p,
        forall|i: int| xh <= i < x.len() ==> #[trigger] x[i] > p,
        forall|i: int| 0 <= i < yl ==> #[trigger] y[i] < p,
        forall|i: int| yl <= i < yh ==> #[trigger] y[i] == p,
        forall|i: int| yh <= i < y.len() ==> #[trigger] y[i] > p,
    ensures
        merged(x, y) == merged(x.take(xl), y.take(yl)) + (x.subrange(xl, xh) + y.subrange(yl, yh))
            + merged(x.skip(xh), y.skip(yh)),
{
    let x1 = x.take(xl);
    let x2 = x.subrange(xl, xh);
    let x3 = x.skip(xh);
    let y1 = y.take(yl);
    let y2 = y.subrange(yl, yh);
    let y3 = y.skip(yh);
    assert(x =~= x1 + (x2 + x3));
    assert(y =~= y1 + (y2 + y3));
    assert(all_le(x1, y2 + y3)) by {
        assert forall|i: int, j: int| 0 <= i < x1.len() && 0 <= j < (y2 + y3).len() implies x1[i]
            <= (y2 + y3)[j] by {
            assert(x1[i] == x[i]);
            assert((y2 + y3)[j] == y[yl + j]);
        }
    }
    assert(all_lt(y1, x2 + x3)) by {
        assert forall|i: int, j: int| 0 <= i < y1.len() && 0 <= j < (x2 + x3).len() implies y1[i]
            < (x2 + x3)[j] by {
            assert(y1[i] == y[i]);
            assert((x2 + x3)[j] == x[xl + j]);
        }
    }
    lemma_merged_split(x1, x2 + x3, y1, y2 + y3);
    assert(all_le(x2, y3)) by {
        assert forall|i: int, j: int| 0 <= i < x2.len() && 0 <= j < y3.len() implies x2[i]
            <= y3[j] by {
            assert(x2[i] == x[xl + i]);
            assert(y3[j] == y[yh + j]);
        }
    }
    assert(all_lt(y2, x3)) by {
        assert forall|i: int, j: int| 0 <= i < y2.len() && 0 <= j < x3.len() implies y2[i]
            < x3[j] by {
            assert(y2[i] == y[yl + i]);
            assert(x3[j] == x[xh + j]);
        }
    }
    lemma_merged_split(x2, x3, y2, y3);
    assert forall|i: int| 0 <= i < x2.len() implies #[trigger] x2[i] == p by {
        assert(x2[i] == x[xl + i]);
    }
    assert forall|i: int| 0 <= i < y2.len() implies #[trigger] y2[i] == p by {
        assert(y2[i] == y[yl + i]);
    }
    lemma_merged_equal_runs(x2, y2, p);
    assert(merged(x, y) =~= merged(x1, y1) + (x2 + y2) + merged(x3, y3));
}

/// One step of the stable merge from position `(i, j)`: the head of `a`
/// is taken unless `a` is used up or the head of `b` is strictly smaller.
pub open spec fn merge_step_from(a: Seq<u32>, b: Seq<u32>, pos: (nat, nat)) -> (nat, nat) {
    if pos.0 < a.len() && (pos.1 >= b.len() || a[pos.0 as int] <= b[pos.1 as int]) {
        ((pos.0 + 1) as nat, pos.1)
    } else {
        (pos.0, (pos.1 + 1) as nat)
    }
}

/// How many values of `a` and of `b` the stable merge has taken after `k`
/// values.
pub open spec fn merge_position(a: Seq<u32>, b: Seq<u32>, k: nat) -> (nat, nat)
    decreases k,
{
    if k == 0 {
        (0, 0)
    } else {
        merge_step_from(a, b, merge_position(a, b, (k - 1) as nat))
    }
}

/// Within the merge, the position takes `k` values in all, no more from a
/// side than it holds.
pub proof fn lemma_merge_position_bounds(a: Seq<u32>, b: Seq<u32>, k: nat)
    requires
        k <= a.len() + b.len(),
    ensures
        merge_position(a, b, k).0 + merge_position(a, b, k).1 == k,
        merge_position(a, b, k).0 <= a.len(),
        merge_position(a, b, k).1 <= b.len(),
    decreases k,
{
    if k > 0 {
        lemma_merge_position_bounds(a, b, (k - 1) as nat);
    }
}

/// Merging `k1 + k2` values is merging `k1`, then `k2` from the rests.
pub proof fn lemma_merge_position_compose(a: Seq<u32>, b: Seq<u32>, k1: nat, k2: nat)
    requires
        k1 + k2 <= a.len() + b.len(),
    ensures
        ({
            let p = merge_position(a, b, k1);
            let q = merge_position(a.skip(p.0 as int), b.skip(p.1 as int), k2);
            merge_position(a, b, k1 + k2) == ((p.0 + q.0) as nat, (p.1 + q.1) as nat)
        }),
    decreases k2,
{
    let p = merge_position(a, b, k1);
    lemma_merge_position_bounds(a, b, k1);
    let a2 = a.skip(p.0 as int);
    let b2 = b.skip(p.1 as int);
    if k2 > 0 {
        lemma_merge_position_compose(a, b, k1, (k2 - 1) as nat);
        let q = merge_position(a2, b2, (k2 - 1) as nat);
        lemma_merge_position_bounds(a2, b2, (k2 - 1) as nat);
        assert(merge_position(a, b, (k1 + k2) as nat) == merge_step_from(
            a,
            b,
            merge_position(a, b, (k1 + (k2 - 1)) as nat),
        ));
        if q.0 < a2.len() {
            assert(a2[q.0 as int] == a[(p.0 + q.0) as int]);
        }
        if q.1 < b2.len() {
            assert(b2[q.1 as int] == b[(p.1 + q.1) as int]);
        }
    }
}

/// While the next `t` values of `a` are at most the head of `b`, the merge
/// takes them from `a`.
pub proof fn lemma_merge_position_take_a(a: Seq<u32>, b: Seq<u32>, t: nat)
    requires
        t <= a.len(),
        b.len() == 0 || (forall|i: int| 0 <= i < t ==> a[i] <= b[0]),
    ensures
        merge_position(a, b, t) == (t, 0nat),
    decreases t,
{
    if t > 0 {
        lemma_merge_position_take_a(a, b, (t - 1) as nat);
    }
}

/// While the next `t` values of `b` are below the head of `a`, the merge
/// takes them from `b`.
pub proof fn lemma_merge_position_take_b(a: Seq<u32>, b: Seq<u32>, t: nat)
    requires
        t <= b.len(),
        a.len() == 0 || (forall|i: int| 0 <= i < t ==> b[i] < a[0]),
    ensures
        merge_position(a, b, t) == (0nat, t),
    decreases t,
{
    if t > 0 {
        lemma_merge_position_take_b(a, b, (t - 1) as nat);
    }
}

} // verus!
