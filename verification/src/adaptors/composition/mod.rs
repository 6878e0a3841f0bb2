pub mod composed;
pub mod composed_task;
pub mod composed_size;
