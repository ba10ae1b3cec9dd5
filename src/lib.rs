//! Elementwise addition of square `i32` matrices, sequential or split by
//! stride partitioning of the rows across a fixed number of workers.
pub mod generate;
pub mod matrix;
pub mod parallel;
pub mod partition;
pub mod render;
