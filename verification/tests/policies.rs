use std::sync::atomic::{AtomicBool, AtomicIsize, AtomicU64, AtomicUsize, Ordering};

use kvik::adaptive::division_depth;
use kvik::adaptors::bound_depth::BoundDepth;
use kvik::adaptors::composed_counter::ComposedCounter;
use kvik::adaptors::composition::composed::Composed as NestedComposed;
use kvik::adaptors::composition::composed_task::ComposedTask;
use kvik::adaptors::composition::composed_size::initial_counter;
use kvik::adaptors::even_levels::EvenLevels;
use kvik::adaptors::force_depth::ForceDepth;
use kvik::adaptors::rayon_policy::{may_divide, next_counter, Rayon};
use kvik::adaptors::size_limit::SizeLimit;
use kvik::cap::Cap;
use kvik::composed::Composed;
use kvik::composed_size::{fold_with_budget, ComposedSize};
use kvik::traits::{Divisible, Producer};
use kvik::utils::log2::{ceil_log2, floor_log2};
use kvik::utils::ratio::parallelism_allowed;

#[test]
fn integer_logarithms() {
    assert_eq!(floor_log2(0), 0);
    assert_eq!(floor_log2(1), 0);
    assert_eq!(floor_log2(2), 1);
    assert_eq!(floor_log2(7), 2);
    assert_eq!(floor_log2(8), 3);
    assert_eq!(floor_log2(usize::MAX), usize::BITS - 1);
    assert_eq!(ceil_log2(0), 0);
    assert_eq!(ceil_log2(1), 0);
    assert_eq!(ceil_log2(2), 1);
    assert_eq!(ceil_log2(5), 3);
    assert_eq!(ceil_log2(8), 3);
    assert_eq!(ceil_log2(9), 4);
}

#[test]
fn bound_depth_stops_dividing() {
    let p = BoundDepth { base: 0usize..100, limit: 2 };
    assert!(p.should_be_divided());
    let (l, _) = p.divide();
    assert_eq!(l.limit, 1);
    let (ll, _) = l.divide();
    assert_eq!(ll.limit, 0);
    assert!(!ll.should_be_divided());
    let (lll, _) = ll.divide();
    assert_eq!(lll.limit, 0);
}

#[test]
fn force_depth_divides_while_forced() {
    let p = ForceDepth { base: 0usize..1, limit: 1 };
    // Forced although the base is too small to be worth dividing.
    assert!(p.should_be_divided());
    let q = ForceDepth { base: 0usize..1, limit: 0 };
    assert!(!q.should_be_divided());
}

#[test]
fn even_levels_divides_odd_levels() {
    let p = EvenLevels::new(0usize..2);
    assert!(p.counter);
    let (l, r) = p.divide();
    assert!(!l.counter && !r.counter);
    // A piece of one item at an odd level is still divided.
    let (one, _) = l.divide();
    assert!(one.counter);
    let odd = EvenLevels { base: 0usize..1, counter: false };
    assert!(odd.should_be_divided());
    let even = EvenLevels { base: 0usize..1, counter: true };
    assert!(!even.should_be_divided());
    let top = kvik::even_levels::EvenLevels { base: 0usize..8 }.producer();
    assert!(top.counter);
}

#[test]
fn size_limit_stops_below_the_limit() {
    assert!(SizeLimit { base: 0usize..100, limit: 10 }.should_be_divided());
    assert!(!SizeLimit { base: 0usize..10, limit: 10 }.should_be_divided());
}

#[test]
fn rayon_counter_rules() {
    // One division less on the creating thread, never below zero.
    assert_eq!(next_counter(3, 5, 1, 1), 2);
    assert_eq!(next_counter(0, 5, 1, 1), 0);
    // A steal resets the budget.
    assert_eq!(next_counter(0, 5, 1, 2), 4);
    assert_eq!(next_counter(3, 0, 1, 2), 0);
    assert!(may_divide(1, 0, 0));
    assert!(!may_divide(0, 0, 0));
    assert!(may_divide(0, 0, 3));
    assert_eq!(initial_counter(4, 9), 4);
    assert_eq!(initial_counter(4, 2), 2);
}

#[test]
fn rayon_policy_producer_divides_with_its_budget() {
    let p = Rayon { base: 0usize..100, reset_counter: 2 }.producer();
    assert_eq!(p.counter, 2);
    assert_eq!(p.reset_counter, 2);
    assert!(p.should_be_divided());
    let (l, r) = p.divide();
    assert_eq!(l.base, 0..50);
    assert_eq!(r.base, 50..100);
}

#[test]
fn parallelism_share_of_work() {
    // Nine tenths of the work or more: parallelism stays allowed.
    assert!(parallelism_allowed(10, 80, 100));
    assert!(parallelism_allowed(90, 0, 100));
    assert!(!parallelism_allowed(10, 79, 100));
    assert!(!parallelism_allowed(0, 0, 1));
    // No work at all: allowed.
    assert!(parallelism_allowed(0, 0, 0));
    assert!(parallelism_allowed(usize::MAX, u64::MAX, usize::MAX));
}

#[test]
fn composed_fold_counts_work_and_sets_the_flag() {
    let flag = AtomicBool::new(true);
    let c = Composed { base: 0usize..0, counter: AtomicU64::new(0) };
    let add = |a: usize, b: usize| a + b;
    let p = c.producer(0usize..100, &flag);
    assert_eq!(p.initial_size, 100);
    let (l, r) = p.divide();
    assert_eq!(l.fold(0, &add), 1225);
    // 50 of 100 done: below nine tenths, parallelism was switched off.
    assert!(!flag.load(Ordering::Relaxed));
    assert_eq!(c.counter.load(Ordering::Relaxed), 50);
    assert!(!r.should_be_divided());
    assert_eq!(r.fold(0, &add), 3725);
    // With the last piece, all the work is done: switched on again.
    assert!(flag.load(Ordering::Relaxed));
    assert_eq!(c.counter.load(Ordering::Relaxed), 100);
}

#[test]
fn composed_size_needs_a_worker_thread() {
    let budget = AtomicUsize::new(3);
    assert!(ComposedSize { base: 0usize..10, reset_counter: 5 }.producer(&budget).is_none());
    let pool = rayon::ThreadPoolBuilder::new().num_threads(2).build().unwrap();
    let p = pool
        .install(|| ComposedSize { base: 0usize..10, reset_counter: 5 }.producer(&budget))
        .unwrap();
    assert_eq!(p.counter, 3);
    assert_eq!(p.reset_counter, 5);
    let add = |a: usize, b: usize| a + b;
    assert_eq!(fold_with_budget(p, 0, &add, &budget), 45);
    // The budget of the enclosing computation is restored.
    assert_eq!(budget.load(Ordering::Relaxed), 3);
}

#[test]
fn division_depth_follows_the_pool() {
    let pool = rayon::ThreadPoolBuilder::new().num_threads(4).build().unwrap();
    assert_eq!(pool.install(division_depth), 3);
    let pool = rayon::ThreadPoolBuilder::new().num_threads(5).build().unwrap();
    assert_eq!(pool.install(division_depth), 4);
}

/// Divides `p` while it asks to be, and returns the depth of each piece left
/// whole, left to right.
fn whole_depths<P: Divisible>(p: P, depth: usize, out: &mut Vec<usize>) {
    if p.should_be_divided() {
        let (l, r) = p.divide();
        whole_depths(l, depth + 1, out);
        whole_depths(r, depth + 1, out);
    } else {
        out.push(depth);
    }
}

#[test]
fn bound_depth_gives_at_most_two_to_the_limit_pieces() {
    for limit in 0u32..5 {
        let mut depths = Vec::new();
        whole_depths(BoundDepth { base: 0usize..1000, limit }, 0, &mut depths);
        assert_eq!(depths.len(), 1 << limit);
        assert!(depths.iter().all(|&d| d <= limit as usize));
    }
    // A small base stops dividing before the limit is spent.
    let mut depths = Vec::new();
    whole_depths(BoundDepth { base: 0usize..3, limit: 4 }, 0, &mut depths);
    assert!(depths.len() <= 16);
    assert_eq!(depths.len(), 3);
}

#[test]
fn even_levels_leaves_whole_pieces_at_even_depths() {
    for n in [1usize, 2, 3, 5, 8, 13] {
        let mut depths = Vec::new();
        whole_depths(EvenLevels::new(0usize..n), 0, &mut depths);
        assert!(depths.iter().all(|d| d % 2 == 0), "{:?}", depths);
    }
    let mut depths = Vec::new();
    whole_depths(EvenLevels::new(0usize..3), 0, &mut depths);
    // 3 is divided into 1 and 2, the odd level forces the 1 into 0 and 1,
    // and the 2 into 1 and 1.
    assert_eq!(depths, vec![2, 2, 2, 2]);
}

#[test]
fn composition_divides_only_where_parallelism_is_allowed() {
    let flag = AtomicBool::new(true);
    let p = NestedComposed { base: 0usize..10 }.producer(&flag);
    assert!(!p.should_be_divided_given(false));
    assert!(p.should_be_divided_given(true));
    assert!(p.should_be_divided());
    flag.store(false, Ordering::Relaxed);
    assert!(!p.should_be_divided());
    let one = NestedComposed { base: 0usize..1 }.producer(&flag);
    assert!(!one.should_be_divided_given(true));
}

#[test]
fn composed_task_divides_the_last_task() {
    let flag = AtomicBool::new(true);
    let t = ComposedTask { base: SizeLimit { base: 0usize..0, limit: 0 }, counter: AtomicU64::new(1) };
    // Under its size limit, the base does not ask to be divided.
    let p = t.producer(SizeLimit { base: 0usize..10, limit: 100 }, &flag);
    assert!(p.should_be_divided_given(true, 1));
    assert!(!p.should_be_divided_given(true, 2));
    assert!(!p.should_be_divided_given(false, 1));
    assert!(p.should_be_divided());
    t.counter.store(3, Ordering::Relaxed);
    assert!(!p.should_be_divided());
}

#[test]
fn composed_counter_divides_at_the_limit_of_the_work() {
    let flag = AtomicBool::new(true);
    // 100 items, divided again once 10 or fewer are left to do.
    let c = ComposedCounter { base: SizeLimit { base: 0usize..0, limit: 0 }, counter: AtomicU64::new(0), threshold: 10 };
    let p = c.producer(SizeLimit { base: 0usize..100, limit: 1000 }, &flag);
    assert!(p.at_limit_given(0));
    let (l, _r) = p.divide();
    assert!(!l.at_limit_given(0));
    assert!(!l.at_limit_given(39));
    assert!(l.at_limit_given(40));
    assert!(!l.should_be_divided_given(0, true));
    assert!(l.should_be_divided_given(40, true));
    assert!(!l.should_be_divided_given(40, false));
    c.counter.store(45, Ordering::Relaxed);
    assert!(l.at_limit());
    assert!(l.should_be_divided());
}

#[test]
fn cap_keeps_a_unit_only_while_one_is_left() {
    let limit = AtomicIsize::new(1);
    let p = Cap { base: 0usize..10, limit: &limit }.producer();
    assert_eq!(limit.load(Ordering::SeqCst), 0);
    // The count stood at 0: the unit is kept.
    assert!(p.should_be_divided());
    assert_eq!(limit.load(Ordering::SeqCst), -1);
    // The count stood at -1: the unit is given back.
    assert!(!p.should_be_divided());
    assert_eq!(limit.load(Ordering::SeqCst), -1);
    assert!(p.keep_unit_given(0));
    assert_eq!(limit.load(Ordering::SeqCst), -1);
    assert!(!p.keep_unit_given(-1));
    assert_eq!(limit.load(Ordering::SeqCst), 0);
}
