# kvik

Adaptive parallel iterators over rayon's thread pool, with their logic
verified by Verus.

- `src/traits.rs`: what a producer is (`Divisible`, `Producer`) and how
  results combine (`Reducer`), with their contracts.
- `src/range.rs`, `src/slice.rs`: integer ranges and slices as producers.
- `src/adaptors/`: producers built on producers (map, filter, zip, rev,
  merge, fold, all, next, ...) and the division policies (bounded depth,
  size limit, even levels, rayon's counter, composition policies).
- `src/division.rs`: division trees, over which the laws of the division
  policies are stated.
- `src/schedulers.rs`, `src/adaptive.rs`: sequential, join-based and
  adaptive scheduling.
- `src/algorithms/`: parallel merges of sorted slices and the stable
  parallel merge sorts built on them.
- `src/pool.rs`: the calls into rayon's thread pool.
- `app/lib.rs`: the per-thread state of the composition policies.
