use kvik::adaptors::merge::Merge;
use kvik::adaptors::microblocks::MicroBlockSizes;
use kvik::schedulers::{schedule_join, sequential_scheduler, ReduceConsumer};
use kvik::slice::SliceProducer;

#[test]
fn sequential_scheduler_folds_in_order() {
    let reducer = ReduceConsumer { op: |a: usize, b: usize| a + b, identity: || 0usize };
    assert_eq!(sequential_scheduler(0usize..101, &reducer), 5050);
    assert_eq!(sequential_scheduler(0usize..0, &reducer), 0);
    // A non-commutative reduction shows the order.
    let concat = ReduceConsumer { op: |a: u64, b: u64| a * 10 + b, identity: || 0u64 };
    let v = [1u64, 2, 3];
    assert_eq!(sequential_scheduler(SliceProducer { slice: &v[..] }, &concat), 123);
}

#[test]
fn schedule_join_equals_the_sequential_fold() {
    let reducer = ReduceConsumer { op: |a: usize, b: usize| a + b, identity: || 0usize };
    for depth in 0..6 {
        assert_eq!(schedule_join(0usize..1000, &reducer, depth), 499500);
    }
    let pool = rayon::ThreadPoolBuilder::new().num_threads(3).build().unwrap();
    let r = pool.install(|| schedule_join(0usize..10000, &reducer, 8));
    assert_eq!(r, 49995000);
}

#[test]
fn schedule_join_reduces_a_merge() {
    let a: Vec<u32> = (0..200).map(|x| x / 3).collect();
    let b: Vec<u32> = (0..150).map(|x| x / 2).collect();
    // Keep the largest value: the maximum is a monoid with 0 as unit.
    let max = ReduceConsumer { op: |x: u32, y: u32| if x < y { y } else { x }, identity: || 0u32 };
    let m = Merge { a: SliceProducer { slice: &a[..] }, b: SliceProducer { slice: &b[..] } };
    assert_eq!(schedule_join(m, &max, 4), 74);
}

#[test]
fn micro_block_sizes_are_carried() {
    let p = MicroBlockSizes { inner: 0usize..10, lower: 3, upper: 9 };
    assert_eq!(p.micro_block_sizes(), (3, 9));
}

#[test]
fn merge_with_producer_hands_the_merge_to_the_callback() {
    let a = [1u32, 3, 5, 7];
    let b = [2u32, 4, 6, 8, 10];
    let sum = ReduceConsumer { op: |x: u32, y: u32| x + y, identity: || 0u32 };
    let m = Merge { a: SliceProducer { slice: &a[..] }, b: SliceProducer { slice: &b[..] } };
    assert_eq!(m.with_producer(sum), 46);
    // The last item of the merge: the largest.
    let last = ReduceConsumer { op: |x: u32, y: u32| if y != 0 { y } else { x }, identity: || 0u32 };
    let m = Merge { a: SliceProducer { slice: &a[..] }, b: SliceProducer { slice: &b[..] } };
    assert_eq!(m.with_producer(last), 10);
    // The first item: the smallest.
    let first = ReduceConsumer { op: |x: u32, y: u32| if x != 0 { x } else { y }, identity: || 0u32 };
    let m = Merge { a: SliceProducer { slice: &b[..] }, b: SliceProducer { slice: &a[..] } };
    assert_eq!(m.with_producer(first), 1);
}
