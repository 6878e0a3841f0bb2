pub mod manual_merge;
pub mod merging;
pub mod slice_merge_sort;
pub mod iter_sort;
pub mod producer_merge;
