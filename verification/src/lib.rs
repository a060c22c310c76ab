//! A statistically careful micro-benchmark core: a picosecond-precision
//! duration model with lossless formatting, a deferred-destruction buffer,
//! a statistics aggregator, a hierarchical configuration resolver, and the
//! per-entry scheduling and driving logic that ties them together.

pub mod bench;
pub mod config;
pub mod defer;
pub mod entry;
pub mod stats;
pub mod time;
