pub mod slice_utils;
pub mod log2;
pub mod ratio;
