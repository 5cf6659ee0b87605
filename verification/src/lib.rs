//! A 4-bit count-min sketch with periodic aging. It estimates how often an item
//! has been seen in a stream of accesses, in memory that does not grow with the
//! number of items, and backs the admission decisions of a cache.
//!
//! - `sketch` holds the sketch itself, `FrequencyCountSketch`.
//! - `model` says what a sketch is as a sequence of counters, and what its
//!   operations do to that sequence; `laws` proves what follows for whole runs
//!   of operations.
//! - `hashing` turns items into hash codes and hash codes into counter selectors.
//! - `packing` relates the words of the table to the counters they hold.
//! - `bits`, `lanes` and `sums` are the arithmetic underneath.

pub mod bits;
pub mod hashing;
pub mod lanes;
pub mod laws;
pub mod model;
pub mod packing;
pub mod sketch;
pub mod sums;
