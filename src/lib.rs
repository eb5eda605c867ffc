//! Conversions between clock-style durations (`hours:minutes:seconds`)
//! and single scalar values in one unit.

pub mod digits;
pub mod parse;
pub mod time;
pub mod unit;

pub use time::Time;
pub use parse::{matches_scalar, parse_time, TimeError};
pub use unit::Unit;
