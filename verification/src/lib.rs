//! Time alignment of sharded raw recordings.
//!
//! A recording is a directory of shards, each named by the nanosecond at which it
//! was opened. The only exact clock is a marker that the hardware writes into the
//! samples. This library finds those markers, maps a wall-clock instant to a place
//! in the shards, splits the multiplexed stream into its channels, and steers the
//! extraction of a span of samples around known-bad windows.

pub mod catalog;
pub mod clock;
pub mod concat;
pub mod cursor;
pub mod i2s;
pub mod pps;
pub mod runs;
pub mod text;
