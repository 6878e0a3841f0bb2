use kvik::adaptors::merge::{cut_around_middle, search_and_cut, Merge};
use kvik::algorithms::manual_merge::{adaptive_slice_merge, Merger};
use kvik::algorithms::producer_merge::{adaptive_producer_merge, rayon_slice_merge};
use kvik::slice::SliceProducer;
use kvik::traits::{Divisible, Producer};

fn reference_merge(a: &[u32], b: &[u32]) -> Vec<u32> {
    let mut out = Vec::new();
    let (mut i, mut j) = (0, 0);
    while i < a.len() || j < b.len() {
        if j == b.len() || (i < a.len() && a[i] <= b[j]) {
            out.push(a[i]);
            i += 1;
        } else {
            out.push(b[j]);
            j += 1;
        }
    }
    out
}

fn run_adaptive(a: &[u32], b: &[u32]) -> Vec<u32> {
    let mut left = a.to_vec();
    let mut right = b.to_vec();
    let mut out = vec![0u32; a.len() + b.len()];
    adaptive_slice_merge(&mut left, &mut right, &mut out);
    assert_eq!(left, a);
    assert_eq!(right, b);
    out
}

fn run_rayon(a: &[u32], b: &[u32], reset: usize) -> Vec<u32> {
    let mut out = vec![0u32; a.len() + b.len()];
    rayon_slice_merge(a, b, &mut out, reset);
    out
}

#[test]
fn adaptive_merge_interleaved() {
    let a: Vec<u32> = (0..1000).map(|x| 2 * x).collect();
    let b: Vec<u32> = (0..1000).map(|x| 2 * x + 1).collect();
    let expected: Vec<u32> = (0..2000).collect();
    assert_eq!(run_adaptive(&a, &b), expected);
}

#[test]
fn adaptive_merge_all_equal() {
    let a = vec![7u32; 3000];
    let b = vec![7u32; 2500];
    assert_eq!(run_adaptive(&a, &b), vec![7u32; 5500]);
}

#[test]
fn adaptive_merge_empty_sides() {
    assert_eq!(run_adaptive(&[], &[1, 2, 3]), vec![1, 2, 3]);
    assert_eq!(run_adaptive(&[4, 5], &[]), vec![4, 5]);
    assert_eq!(run_adaptive(&[], &[]), Vec::<u32>::new());
}

#[test]
fn adaptive_merge_disjoint_ranges() {
    let a: Vec<u32> = (5000..9000).collect();
    let b: Vec<u32> = (0..5000).collect();
    let expected: Vec<u32> = (0..9000).collect();
    assert_eq!(run_adaptive(&a, &b), expected);
    assert_eq!(run_adaptive(&b, &a), expected);
}

#[test]
fn adaptive_merge_runs_of_duplicates() {
    let a: Vec<u32> = (0..20000).map(|x| x / 100).collect();
    let b: Vec<u32> = (0..15000).map(|x| x / 37).collect();
    assert_eq!(run_adaptive(&a, &b), reference_merge(&a, &b));
}

#[test]
fn adaptive_merge_in_a_pool() {
    let pool = rayon::ThreadPoolBuilder::new().num_threads(4).build().unwrap();
    let a: Vec<u32> = (0..100000).map(|x| (x * 7) / 3).collect();
    let b: Vec<u32> = (0..80000).map(|x| (x * 5) / 2).collect();
    let out = pool.install(|| run_adaptive(&a, &b));
    assert_eq!(out, reference_merge(&a, &b));
}

#[test]
fn rayon_merge_matches_reference() {
    let a: Vec<u32> = (0..5000).map(|x| (x * 3) / 2).collect();
    let b: Vec<u32> = (0..4000).map(|x| x / 3).collect();
    assert_eq!(run_rayon(&a, &b, 0), reference_merge(&a, &b));
    assert_eq!(run_rayon(&a, &b, 4), reference_merge(&a, &b));
    let pool = rayon::ThreadPoolBuilder::new().num_threads(4).build().unwrap();
    let out = pool.install(|| run_rayon(&a, &b, 3));
    assert_eq!(out, reference_merge(&a, &b));
}

#[test]
fn rayon_merge_is_stable_on_ties() {
    // All values equal: the output is the values, whatever their side.
    assert_eq!(run_rayon(&[1, 1, 1, 1, 1, 1, 1], &[1, 1, 1, 1, 1, 1], 2), vec![1u32; 13]);
    assert_eq!(run_rayon(&[], &[2, 3], 2), vec![2, 3]);
}

#[test]
fn merger_copies_and_triviality() {
    let a = [1u32, 2, 3];
    let b = [10u32, 11];
    let mut out = [0u32; 5];
    {
        let mut m = Merger::new(&a, &b, &mut out);
        // `a` ends below the start of `b`: nothing to gain from dividing.
        assert!(!m.check_triviality());
        m.manual_merge(usize::MAX);
    }
    assert_eq!(out, [1, 2, 3, 10, 11]);
    let (x, y) = ([1u32, 3, 5], [2u32, 4, 6]);
    let mut out3 = [0u32; 6];
    {
        let mut m = Merger::new(&x, &y, &mut out3);
        m.manual_merge(4);
        assert_eq!((m.out_index, m.a_index, m.b_index), (4, 2, 2));
    }
    assert_eq!(out3, [1, 2, 3, 4, 0, 0]);
    let c = [5u32, 6];
    let d = [1u32, 7];
    let mut out2 = [0u32; 4];
    {
        let mut m = Merger::new(&c, &d, &mut out2);
        assert!(m.check_triviality());
        m.copy_from_b(1);
        m.copy_from_a(2);
        m.copy_from_b(1);
    }
    assert_eq!(out2, [1, 5, 6, 7]);
}

#[test]
fn merge_producer_yields_the_stable_merge() {
    let a = [1u32, 3, 3, 5, 8];
    let b = [2u32, 3, 4, 9];
    let mut m = Merge { a: SliceProducer { slice: &a[..] }, b: SliceProducer { slice: &b[..] } };
    assert_eq!(m.sizes(), (9, Some(9)));
    assert_eq!(m.length(), 9);
    let mut got = Vec::new();
    while let Some(x) = m.next() {
        got.push(x);
    }
    assert_eq!(got, vec![1, 2, 3, 3, 3, 4, 5, 8, 9]);
}

#[test]
fn merge_producer_division_keeps_the_merge() {
    let a: Vec<u32> = (0..40).map(|x| x / 2).collect();
    let b: Vec<u32> = (0..30).map(|x| x / 3 + 1).collect();
    let m = Merge { a: SliceProducer { slice: &a[..] }, b: SliceProducer { slice: &b[..] } };
    assert!(m.should_be_divided());
    let (mut l, mut r) = m.divide();
    assert!(l.a.slice.len() + l.b.slice.len() >= 1);
    assert!(r.a.slice.len() + r.b.slice.len() >= 1);
    let mut got = Vec::new();
    while let Some(x) = l.next() {
        got.push(x);
    }
    while let Some(x) = r.next() {
        got.push(x);
    }
    assert_eq!(got, reference_merge(&a, &b));
}

#[test]
fn merge_producer_not_worth_dividing() {
    // Too short.
    let a = [1u32, 2, 3];
    let b = [1u32, 2, 3, 4, 5, 6, 7];
    let m = Merge { a: SliceProducer { slice: &a[..] }, b: SliceProducer { slice: &b[..] } };
    assert!(!m.should_be_divided());
    // Ranges do not overlap.
    let c = [1u32, 2, 3, 4, 5, 6];
    let d = [6u32, 7, 8, 9, 10, 11];
    let m = Merge { a: SliceProducer { slice: &c[..] }, b: SliceProducer { slice: &d[..] } };
    assert!(!m.should_be_divided());
    // A side is one run of equal values.
    let e = [4u32; 8];
    let m = Merge { a: SliceProducer { slice: &e[..] }, b: SliceProducer { slice: &c[..] } };
    assert!(!m.should_be_divided());
}

#[test]
fn cut_around_middle_between_different_values() {
    let s = [1u32, 2, 3, 4, 5, 6, 7, 8];
    let (l, r) = cut_around_middle(SliceProducer { slice: &s[..] });
    assert_eq!(l.slice, &[1, 2, 3, 4, 5]);
    assert_eq!(r.slice, &[6, 7, 8]);
    // The middle sits in a long run: the cut is at an end of the run.
    let t = [0u32, 5, 5, 5, 5, 5, 5, 5, 5, 5, 9];
    let (l, r) = cut_around_middle(SliceProducer { slice: &t[..] });
    assert!(l.slice.len() >= 1 && r.slice.len() >= 1);
    assert!(l.slice[l.slice.len() - 1] < r.slice[0]);
    assert_eq!(l.slice.len() + r.slice.len(), t.len());
    let u = [5u32, 5, 5, 5, 5, 5, 5, 5, 5, 6];
    let (l, r) = cut_around_middle(SliceProducer { slice: &u[..] });
    assert_eq!(l.slice.len(), 9);
    assert_eq!(r.slice, &[6]);
    let v = [1u32, 5, 5, 5, 5, 5, 5, 5, 5, 5];
    let (l, r) = cut_around_middle(SliceProducer { slice: &v[..] });
    assert_eq!(l.slice, &[1]);
    assert_eq!(r.slice.len(), 9);
}

#[test]
fn search_and_cut_after_the_value() {
    let s = [1u32, 3, 3, 3, 7, 9];
    let (l, r) = search_and_cut(SliceProducer { slice: &s[..] }, 3);
    assert_eq!(l.slice, &[1, 3, 3, 3]);
    assert_eq!(r.slice, &[7, 9]);
    let (l, r) = search_and_cut(SliceProducer { slice: &s[..] }, 0);
    assert_eq!(l.slice.len(), 0);
    assert_eq!(r.slice.len(), 6);
    let (l, r) = search_and_cut(SliceProducer { slice: &s[..] }, 9);
    assert_eq!(l.slice.len(), 6);
    assert_eq!(r.slice.len(), 0);
    let (l, r) = search_and_cut(SliceProducer { slice: &s[..] }, 8);
    assert_eq!(l.slice, &[1, 3, 3, 3, 7]);
    assert_eq!(r.slice, &[9]);
}

#[test]
fn adaptive_producer_merge_matches_reference() {
    let a: Vec<u32> = (0..7000).map(|x| (x * 3) / 2).collect();
    let b: Vec<u32> = (0..6000).map(|x| x / 3).collect();
    let mut out = vec![0u32; a.len() + b.len()];
    adaptive_producer_merge(&a, &b, &mut out);
    assert_eq!(out, reference_merge(&a, &b));
    let pool = rayon::ThreadPoolBuilder::new().num_threads(4).build().unwrap();
    let mut out2 = vec![0u32; a.len() + b.len()];
    pool.install(|| adaptive_producer_merge(&a, &b, &mut out2));
    assert_eq!(out2, reference_merge(&a, &b));
    let mut empty: Vec<u32> = Vec::new();
    adaptive_producer_merge(&[], &[], &mut empty);
    assert!(empty.is_empty());
}

#[test]
fn work_drives_a_merger_to_completion() {
    let a: Vec<u32> = (0..50000).map(|x| 2 * x).collect();
    let b: Vec<u32> = (0..50000).map(|x| 2 * x + 1).collect();
    let mut out = vec![0u32; 100000];
    let leaves = kvik::adaptive::work(Merger::new(&a, &b, &mut out));
    assert!(!leaves.is_empty());
    assert!(leaves.iter().all(|m| m.out_index == m.out.len()));
    drop(leaves);
    assert_eq!(out, (0..100000).collect::<Vec<u32>>());
    let pool = rayon::ThreadPoolBuilder::new().num_threads(4).build().unwrap();
    let mut out2 = vec![0u32; 100000];
    let n = pool.install(|| kvik::adaptive::work(Merger::new(&b, &a, &mut out2)).len());
    assert!(n >= 1);
    assert_eq!(out2, (0..100000).collect::<Vec<u32>>());
}

#[test]
fn work_without_division_returns_one_state() {
    // One side of one value: the merge is never worth dividing, so the one
    // state returned is the merge worked to its end.
    let a: Vec<u32> = (0..5000).collect();
    let b: Vec<u32> = vec![2500];
    let mut out = vec![0u32; 5001];
    let leaves = kvik::adaptive::work(Merger::new(&a, &b, &mut out));
    assert_eq!(leaves.len(), 1);
    assert_eq!(leaves[0].out_index, 5001);
    assert_eq!((leaves[0].a_index, leaves[0].b_index), (5000, 1));
    drop(leaves);
    assert_eq!(out, reference_merge(&a, &b));
}

#[test]
fn merger_divide_places_the_pivot() {
    let a = [1u32, 2, 3, 5, 5, 7];
    let b = [0u32, 4, 5, 6, 8];
    let mut buf = [0u32, 1, 2, 0, 0, 0, 0, 0, 0, 0, 0];
    {
        let mut m = Merger::new(&a, &b, &mut buf);
        m.a_index = 2;
        m.b_index = 1;
        m.out_index = 3;
        assert!(m.check_triviality());
        let (l, r) = m.divide();
        assert_eq!((l.a, l.b, r.a, r.b), (&[3u32][..], &[4u32][..], &[7u32][..], &[6u32, 8][..]));
        assert_eq!((l.out.len(), r.out.len()), (2, 3));
    }
    assert_eq!(buf, [0, 1, 2, 0, 0, 5, 5, 5, 0, 0, 0]);
}

#[test]
fn cut_around_middle_at_the_start_of_the_middle_run() {
    let s = [1u32, 2, 2, 2, 2, 2, 3];
    let (l, r) = cut_around_middle(SliceProducer { slice: &s[..] });
    assert_eq!(l.slice, &[1]);
    assert_eq!(r.slice, &[2, 2, 2, 2, 2, 3]);
}
