//! Adaptive parallel iterators, with a verified core.
pub mod adaptive;
pub mod adaptors;
pub mod algorithms;
pub mod blocked;
pub mod cap;
pub mod closures;
pub mod composed;
pub mod composed_size;
pub mod division;
pub mod even_levels;
pub mod filter;
pub mod pool;
pub mod range;
pub mod schedulers;
pub mod slice;
pub mod traits;
pub mod utils;
