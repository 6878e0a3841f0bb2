use kvik::algorithms::iter_sort::{
    iter_sort_jc_adaptive, iter_sort_jc_rayon, iter_sort_rayon_adaptive, iter_sort_rayon_rayon,
    iter_sort_size_adaptive, iter_sort_size_rayon,
};
use kvik::algorithms::slice_merge_sort::{levels_for_threads, slice_par_sort, sort_levels};

fn shuffled(n: u32, seed: u32) -> Vec<u32> {
    let mut x = seed;
    (0..n)
        .map(|_| {
            x = x.wrapping_mul(1103515245).wrapping_add(12345);
            (x >> 8) % (n / 3 + 1)
        })
        .collect()
}

fn check_sort(sort: &dyn Fn(&mut [u32]), n: u32, seed: u32) {
    let mut v = shuffled(n, seed);
    let mut expected = v.clone();
    expected.sort();
    sort(&mut v);
    assert_eq!(v, expected);
}

fn all_sorts() -> Vec<Box<dyn Fn(&mut [u32])>> {
    vec![
        Box::new(|s: &mut [u32]| slice_par_sort(s)),
        Box::new(|s: &mut [u32]| iter_sort_jc_adaptive(s)),
        Box::new(|s: &mut [u32]| iter_sort_size_adaptive(s, 4)),
        Box::new(|s: &mut [u32]| iter_sort_rayon_adaptive(s)),
        Box::new(|s: &mut [u32]| iter_sort_rayon_rayon(s)),
        Box::new(|s: &mut [u32]| iter_sort_size_rayon(s, 3)),
        Box::new(|s: &mut [u32]| iter_sort_jc_rayon(s)),
    ]
}

#[test]
fn sorts_small_inputs() {
    for sort in all_sorts() {
        for n in 0..40 {
            check_sort(sort.as_ref(), n, n + 1);
        }
    }
}

#[test]
fn sorts_with_duplicates() {
    for sort in all_sorts() {
        check_sort(sort.as_ref(), 5000, 7);
    }
}

#[test]
fn sorts_in_a_pool() {
    let pool = rayon::ThreadPoolBuilder::new().num_threads(4).build().unwrap();
    pool.install(|| {
        for sort in all_sorts() {
            check_sort(sort.as_ref(), 20000, 3);
        }
    });
}

#[test]
fn sorts_sorted_and_reversed_inputs() {
    for sort in all_sorts() {
        let mut v: Vec<u32> = (0..3000).collect();
        sort(&mut v);
        assert_eq!(v, (0..3000).collect::<Vec<u32>>());
        let mut w: Vec<u32> = (0..3000).rev().collect();
        sort(&mut w);
        assert_eq!(w, (0..3000).collect::<Vec<u32>>());
    }
}

#[test]
fn division_levels() {
    // 2 * ceil(log2 n) - floor(log2 n)
    assert_eq!(levels_for_threads(0), 0);
    assert_eq!(levels_for_threads(1), 0);
    assert_eq!(levels_for_threads(2), 1);
    assert_eq!(levels_for_threads(3), 3);
    assert_eq!(levels_for_threads(4), 2);
    assert_eq!(levels_for_threads(5), 4);
    assert_eq!(levels_for_threads(8), 3);
    assert_eq!(levels_for_threads(12), 5);
    let pool = rayon::ThreadPoolBuilder::new().num_threads(12).build().unwrap();
    assert_eq!(pool.install(sort_levels), 5);
    let pool = rayon::ThreadPoolBuilder::new().num_threads(4).build().unwrap();
    assert_eq!(pool.install(sort_levels), 2);
}
