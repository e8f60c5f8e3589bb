//! A hybrid adaptive sorting engine for sequences of signed 64-bit integers.
//!
//! The engine partitions like quicksort while a depth budget lasts, sorts small
//! ranges by insertion, and falls back to heapsort once the budget is spent.

pub mod model;
pub mod insertion;
pub mod heap;
pub mod partition;
pub mod sorting;
pub mod chunks;
