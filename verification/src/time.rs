//! Time representation: the picosecond-precision duration model.

pub mod fine_duration;
