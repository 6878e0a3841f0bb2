use std::sync::atomic::{AtomicBool, AtomicUsize, Ordering};

use kvik::adaptors::all::All;
use kvik::adaptors::by_blocks::ByBlocks;
use kvik::adaptors::filter::{Filter, FilterConsumer};
use kvik::adaptors::flat_map::{FlatMap, FlatMapConsumer};
use kvik::adaptors::fold::{fold_producer, Fold};
use kvik::adaptors::map::MapProducer;
use kvik::adaptors::next::Next;
use kvik::adaptors::rev::Rev;
use kvik::adaptors::try_fold::TryFold;
use kvik::adaptors::zip::Zip;
use kvik::blocked::Blocked;
use kvik::schedulers::ReduceConsumer;
use kvik::slice::SliceProducer;
use kvik::traits::{Consumer, Divisible, Producer};

fn drain<P: Producer>(mut p: P) -> Vec<P::Item> {
    let mut out = Vec::new();
    while let Some(x) = p.next() {
        out.push(x);
    }
    out
}

#[test]
fn range_divides_in_the_middle() {
    let r = 3usize..10;
    assert!(r.should_be_divided());
    let (a, b) = r.divide();
    assert_eq!(a, 3..6);
    assert_eq!(b, 6..10);
    assert!(!(4usize..5).should_be_divided());
    let (c, d) = (0usize..10).divide_at(7);
    assert_eq!((c, d), (0..7, 7..10));
    let mut e = 0usize..4;
    assert_eq!(Producer::next_back(&mut e), Some(3));
    assert_eq!(Producer::next(&mut e), Some(0));
    assert_eq!(e.length(), 2);
    assert_eq!(e.preview(1), 2);
    assert_eq!(e.sizes(), (2, Some(2)));
}

#[test]
fn slice_producer_divides_and_yields() {
    let v = [10u32, 20, 30, 40, 50];
    let p = SliceProducer { slice: &v[..] };
    assert_eq!(p.preview(3), 40);
    let (l, r) = p.divide_at(2);
    assert_eq!(drain(l), vec![10, 20]);
    assert_eq!(drain(r), vec![30, 40, 50]);
}

#[test]
fn rev_yields_backwards_and_divides() {
    let r = Rev { base: 0usize..6 };
    assert_eq!(r.preview(0), 5);
    assert_eq!(r.preview(5), 0);
    assert_eq!(r.length(), 6);
    let (a, b) = r.divide();
    assert_eq!(drain(a), vec![5, 4, 3]);
    assert_eq!(drain(b), vec![2, 1, 0]);
    let (c, d) = Rev { base: 0usize..6 }.divide_at(2);
    assert_eq!(drain(c), vec![5, 4]);
    assert_eq!(drain(d), vec![3, 2, 1, 0]);
    let mut e = Rev { base: 0usize..3 };
    assert_eq!(e.next_back(), Some(0));
    assert_eq!(drain(e), vec![2, 1]);
    // Reversing twice gives the original order back.
    assert_eq!(drain(Rev { base: Rev { base: 0usize..4 } }), vec![0, 1, 2, 3]);
}

#[test]
fn zip_pairs_items_and_divides_alike() {
    let v = [7u32, 8, 9, 10];
    let z = Zip { a: 0usize..4, b: SliceProducer { slice: &v[..] } };
    assert_eq!(z.preview(2), (2, 9));
    assert_eq!(z.sizes(), (4, Some(4)));
    let (l, r) = z.divide();
    assert_eq!(drain(l), vec![(0, 7), (1, 8)]);
    assert_eq!(drain(r), vec![(2, 9), (3, 10)]);
    let (l, r) = Zip { a: 0usize..4, b: SliceProducer { slice: &v[..] } }.divide_at(3);
    assert_eq!(drain(l), vec![(0, 7), (1, 8), (2, 9)]);
    assert_eq!(drain(r), vec![(3, 10)]);
}

#[test]
fn map_applies_the_function() {
    let double = |x: usize| 2 * x;
    let m = MapProducer { base: 0usize..5, op: double };
    assert_eq!(m.preview(4), 8);
    let (a, b) = m.divide();
    assert_eq!(drain(a), vec![0, 2]);
    assert_eq!(drain(b), vec![4, 6, 8]);
}

#[test]
fn filter_keeps_accepted_items() {
    let even = |x: &usize| x % 2 == 0;
    let f = Filter { base: 0usize..10, filter: even };
    assert_eq!(f.sizes(), (0, Some(10)));
    let (a, b) = f.divide();
    assert_eq!(drain(a), vec![0, 2, 4]);
    assert_eq!(drain(b), vec![6, 8]);
    let top = kvik::filter::Filter { base: 0usize..10, filter: |x: &usize| *x < 4 };
    assert_eq!(drain(top), vec![0, 1, 2, 3]);
}

#[test]
fn all_gives_verdicts_and_stops() {
    let stop = AtomicBool::new(false);
    let small = |x: usize| x < 3;
    let all = All { base: 0usize..6, predicate: &small, stop: &stop };
    assert_eq!(drain(all), vec![Ok(()), Ok(()), Ok(()), Err(())]);
    assert!(stop.load(Ordering::Relaxed));
    // Once the flag is up, a piece yields nothing and is not divided.
    let other = All { base: 0usize..6, predicate: &small, stop: &stop };
    assert!(other.done());
    assert!(!other.should_be_divided());
    assert_eq!(other.sizes(), (0, Some(0)));
    assert_eq!(drain(other), Vec::<Result<(), ()>>::new());
}

#[test]
fn all_partial_fold_reports_one_failure() {
    let stop = AtomicBool::new(false);
    let small = |x: usize| x < 5;
    let count = |acc: usize, r: Result<(), ()>| acc + if r.is_err() { 1 } else { 0 };
    let mut all = All { base: 0usize..10, predicate: &small, stop: &stop };
    // The first four items pass: nothing is folded.
    assert_eq!(all.partial_fold(0usize, &count, 4), 0);
    assert!(!all.done());
    // The next three hold a failure: one `Err` is folded and the flag goes up.
    assert_eq!(all.partial_fold(0usize, &count, 3), 1);
    assert!(all.done());
    assert_eq!(all.base, 7..10);
    // Once done, nothing more is folded.
    assert_eq!(all.partial_fold(5usize, &count, 3), 5);
    assert_eq!(all.base, 7..10);
}

#[test]
fn next_stops_pieces_right_of_a_find() {
    let found_at = AtomicUsize::new(usize::MAX);
    let p = Next { base: 0usize..100 }.producer(&found_at);
    assert!(!p.done());
    let (mut left, mut right) = p.divide_at(50);
    assert_eq!(left.fake_range, 0..50);
    assert_eq!(right.fake_range, 50..usize::MAX);
    assert_eq!(right.next(), Some(50));
    assert_eq!(found_at.load(Ordering::Relaxed), 50);
    assert_eq!(left.next(), Some(0));
    assert_eq!(found_at.load(Ordering::Relaxed), 0);
    // The right piece starts after the find: it is done.
    assert!(right.done());
    assert_eq!(right.next(), None);
    assert!(!left.done());
}

#[test]
fn fold_folds_each_piece() {
    let id = || 0usize;
    let add = |acc: usize, x: usize| acc + x;
    let p = Fold { base: 0usize..10, id, fold: add }.producer::<usize>();
    assert_eq!(p.sizes(), (10, Some(10)));
    let (l, r) = p.divide();
    assert_eq!(drain(l), vec![10]);
    assert_eq!(drain(r), vec![35]);
    assert_eq!(fold_producer(0usize..5, &add, 100), 110);
}

#[test]
fn try_fold_divides_with_fresh_starts() {
    let stop = AtomicBool::new(false);
    let id = || 1u64;
    let op = |a: u64, x: usize| -> Result<u64, ()> { Ok(a + x as u64) };
    let p = TryFold { base: 0usize..8, identity: id, fold_op: op }.producer::<u64>(&stop);
    assert_eq!(p.init, Some(1));
    assert!(p.should_be_divided());
    assert_eq!(p.sizes(), (8, Some(8)));
    let (l, r) = p.divide();
    assert_eq!(l.init, Some(1));
    assert_eq!(r.init, Some(1));
    assert_eq!(l.base, Some(0..4));
    assert_eq!(r.base, Some(4..8));
    r.mark_done();
    assert!(l.done());
    assert!(!l.should_be_divided());
    assert_eq!(l.sizes(), (0, Some(0)));
}

#[test]
fn by_blocks_reduces_the_covered_prefix() {
    let reducer = ReduceConsumer { op: |a: usize, b: usize| a + b, identity: || 0usize };
    let all_covered = ByBlocks { base: 0usize..10, blocks_sizes: Some(vec![1, 2, 4, 8]) };
    assert_eq!(all_covered.reduce(&reducer), 45);
    // The sizes cover only the first 6 items.
    let part = ByBlocks { base: 0usize..10, blocks_sizes: Some(vec![1, 2, 3]) };
    assert_eq!(part.reduce(&reducer), 15);
    let empty = ByBlocks { base: 0usize..0, blocks_sizes: Some(vec![5]) };
    assert_eq!(empty.reduce(&reducer), 0);
}

#[test]
fn blocked_folds_by_blocks() {
    let add = |acc: usize, x: usize| acc + x;
    let mut b = Blocked::new(0usize..10);
    assert_eq!(b.limit, 0);
    assert!(!b.completed());
    assert_eq!(b.next(), None);
    assert_eq!(b.partial_fold(0, &add, 3), 3);
    assert_eq!(b.partial_fold(0, &add, 4), 3 + 4 + 5 + 6);
    assert_eq!(b.partial_fold(100, &add, 50), 100 + 7 + 8 + 9);
    assert!(b.completed());
    let (l, r) = Blocked::new(0usize..4).divide();
    assert_eq!((l.limit, r.limit), (0, 0));
    assert_eq!(l.base, 0..2);
}

#[test]
fn consumers_reduce_all_the_items() {
    let reducer = ReduceConsumer { op: |a: usize, b: usize| a + b, identity: || 0usize };
    assert_eq!(reducer.consume_producer(0usize..100), 4950);
    let reducer = ReduceConsumer { op: |a: usize, b: usize| a + b, identity: || 0usize };
    let c = FilterConsumer { base: reducer, filter: |x: &usize| x % 3 == 0 };
    assert_eq!(c.consume_producer(0usize..10), 3 + 6 + 9);
    let pool = rayon::ThreadPoolBuilder::new().num_threads(3).build().unwrap();
    let r = pool.install(|| {
        let reducer = ReduceConsumer { op: |a: usize, b: usize| a + b, identity: || 0usize };
        FilterConsumer { base: reducer, filter: |x: &usize| x % 2 == 1 }.consume_producer(0usize..1000)
    });
    assert_eq!(r, 250000);
}

#[test]
fn flat_map_consumes_every_inner_producer() {
    let reducer = ReduceConsumer { op: |a: usize, b: usize| a + b, identity: || 0usize };
    // The sums of 0..x for x in 0..5: 0 + 0 + 1 + 3 + 6.
    let fm = FlatMap { base: 0usize..5, map_op: |x: usize| 0..x };
    assert_eq!(fm.drive(reducer), 10);
    let c = FlatMapConsumer { base: reducer, map_op: |x: usize| x..x + 2 };
    assert_eq!(c.consume_producer(0usize..3), 9);
    let pool = rayon::ThreadPoolBuilder::new().num_threads(4).build().unwrap();
    let r = pool.install(|| FlatMap { base: 0usize..100, map_op: |x: usize| 0..x }.drive(reducer));
    assert_eq!(r, (0..100usize).map(|x| x * x.saturating_sub(1) / 2).sum::<usize>());
}

#[test]
fn lengths_of_folds_and_verdicts() {
    let id = || 0usize;
    let add = |acc: usize, x: usize| acc + x;
    let mut p = Fold { base: 0usize..10, id, fold: add }.producer::<usize>();
    assert_eq!(p.length(), 1);
    assert_eq!(p.next(), Some(45));
    assert_eq!(p.length(), 0);
    let stop = AtomicBool::new(false);
    let small = |x: usize| x < 3;
    let all = All { base: 2usize..9, predicate: &small, stop: &stop };
    assert_eq!(all.length(), 7);
    assert_eq!(all.sizes(), (7, Some(7)));
}

#[test]
fn zip_stops_with_the_shorter_left_side() {
    let v = [7u32, 8, 9, 10, 11];
    let z = Zip { a: 0usize..3, b: SliceProducer { slice: &v[..] } };
    assert_eq!(z.sizes(), (3, Some(3)));
    let (l, r) = z.divide();
    let mut got = drain(l);
    got.extend(drain(r));
    assert_eq!(got, vec![(0, 7), (1, 8), (2, 9)]);
}

#[test]
fn all_next_unless_follows_the_flag_read() {
    let stop = AtomicBool::new(false);
    let small = |x: usize| x < 2;
    let mut all = All { base: 0usize..4, predicate: &small, stop: &stop };
    // Read as raised: nothing is checked, the base stays.
    assert_eq!(all.next_unless(true), None);
    assert_eq!(all.next_back_unless(true), None);
    assert_eq!(all.base, 0..4);
    // Read as clear: the verdicts on the next and the last items.
    assert_eq!(all.next_unless(false), Some(Ok(())));
    assert_eq!(all.next_back_unless(false), Some(Err(())));
    assert!(all.done());
    assert_eq!(all.base, 1..3);
    // The flag is up, but a read that came before it still checks.
    assert_eq!(all.next_unless(false), Some(Ok(())));
    assert_eq!(all.next(), None);
    assert_eq!(all.base, 2..3);
}

#[test]
fn all_partial_fold_unless_follows_the_flag_read() {
    let stop = AtomicBool::new(false);
    let small = |x: usize| x < 5;
    let count = |acc: usize, r: Result<(), ()>| acc + if r.is_err() { 1 } else { 0 };
    let mut all = All { base: 0usize..10, predicate: &small, stop: &stop };
    assert_eq!(all.partial_fold_unless(true, 7usize, &count, 10), 7);
    assert_eq!(all.base, 0..10);
    assert!(!all.done());
    // Items 0 to 5: 5 fails, one `Err` is folded.
    assert_eq!(all.partial_fold_unless(false, 7usize, &count, 6), 8);
    assert_eq!(all.base, 6..10);
    assert!(all.done());
    // Fewer items left than the limit: all of them are checked.
    let stop2 = AtomicBool::new(false);
    let mut all2 = All { base: 0usize..3, predicate: &small, stop: &stop2 };
    assert_eq!(all2.partial_fold_unless(false, 0usize, &count, 100), 0);
    assert_eq!(all2.base, 3..3);
    assert!(!all2.done());
}

#[test]
fn next_producer_after_a_read_of_the_record() {
    let found_at = AtomicUsize::new(usize::MAX);
    let p = Next { base: 0usize..10 }.producer(&found_at);
    let (mut left, mut right) = p.divide();
    let start = right.fake_range.start;
    assert!(start > 0);
    // A find further left was read: the right piece yields nothing.
    assert_eq!(right.next_after(start - 1), None);
    assert_eq!(right.next_back_after(0), None);
    assert_eq!(right.base, 5..10);
    // Nothing further left: it yields, and records its start.
    assert_eq!(right.next_after(start), Some(5));
    assert_eq!(found_at.load(Ordering::Relaxed), start);
    assert_eq!(right.next_back_after(usize::MAX), Some(9));
    // The left piece starts at 0: it always yields, and lowers the record.
    assert_eq!(left.next_after(0), Some(0));
    assert_eq!(found_at.load(Ordering::Relaxed), 0);
    assert_eq!(left.next_back_after(0), Some(4));
    // The right piece now sees the find further left.
    assert_eq!(right.next(), None);
    assert_eq!(right.base, 6..9);
}

#[test]
fn fold_producer_partial_fold_keeps_the_final_value() {
    let add = |acc: usize, x: usize| acc + x;
    let ignored = |b: u8, _t: usize| b;
    let mut p = Fold { base: 0usize..10, id: || 100usize, fold: add }.producer::<usize>();
    // Folds 0..4 into the kept value, and hands back its argument.
    assert_eq!(p.partial_fold(3u8, &ignored, 4), 3);
    assert_eq!(p.init, Some(100 + 6));
    assert_eq!(p.base, Some(4..10));
    // More than what is left: the rest is folded.
    assert_eq!(p.partial_fold(0u8, &ignored, 100), 0);
    assert_eq!(p.init, Some(145));
    assert_eq!(p.base, Some(10..10));
    // The value yielded is the fold of all the items.
    assert_eq!(p.next(), Some(145));
    assert_eq!(p.next(), None);
    // Without a base, nothing changes.
    assert_eq!(p.partial_fold(9u8, &ignored, 4), 9);
    assert_eq!(p.init, None);
}

#[test]
fn all_partial_fold_folds_one_err_on_a_failure() {
    let s = AtomicBool::new(false);
    let not_three = |v: usize| v != 3;
    let bump = |n: u32, _r: Result<(), ()>| n + 1;
    let mut x = All { base: 1usize..5, predicate: &not_three, stop: &s };
    assert_eq!(x.partial_fold(10u32, &bump, 4), 11);
    assert!(s.load(Ordering::Relaxed));
    assert_eq!(x.base, 5..5);
}
