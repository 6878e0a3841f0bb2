pub mod bound_depth;
pub mod force_depth;
pub mod adaptive;
pub mod even_levels;
pub mod log;
pub mod microblocks;
pub mod scheduler_adaptors;
pub mod sequential;
pub mod size_limit;
pub mod rayon_policy;
pub mod composition;
pub mod composed_counter;
pub mod map;
pub mod filter;
pub mod rev;
pub mod zip;
pub mod merge;
pub mod all;
pub mod next;
pub mod fold;
pub mod try_fold;
pub mod by_blocks;
pub mod flat_map;
