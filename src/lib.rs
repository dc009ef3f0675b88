//! A fixed-footprint histogram of `u64` observations with power-of-two buckets.
//!
//! Bucket `0` holds the value zero. Bucket `i` for `1 <= i <= 62` covers
//! `[2^(i-1), 2^i - 1]`. Bucket `63` starts at `2^62` and is open upward: every
//! value from `2^62` through `u64::MAX` lands there, although its stored `end`
//! reads `2^63 - 1`.
//!
//! Counts saturate at `u64::MAX` instead of wrapping.

pub mod bucket;
pub mod histogram;
pub mod laws;

pub use bucket::Bucket;
pub use histogram::Base2Histogram;
