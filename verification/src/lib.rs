//! A trace-driven simulator of a set-associative cache with least-recently-used
//! replacement.
//!
//! The simulator replays memory accesses against a cache of `2^s` sets with `e` lines
//! each and `2^b`-byte blocks. It stores no data: a line records only which block
//! occupies it and when that block was last used. What it reports is how many accesses
//! hit, how many missed, and how many misses had to evict a block.

pub mod address;
pub mod model;
pub mod set;
pub mod cache;
pub mod trace;
pub mod number;
pub mod text;
pub mod laws;
pub mod options;
