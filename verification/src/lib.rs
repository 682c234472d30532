pub mod aggregate;
pub mod classify;
pub mod events;
pub mod pattern;
pub mod render;
pub mod report;
pub mod text;
pub mod time;

use vstd::prelude::*;

verus! {

/// The minute of the hour at which a check-in counts as on time.
pub const REQUIRED_MINUTE: u8 = 7;

/// The local hour of a morning check-in.
pub const MORNING_HOUR: u8 = 6;

/// The local hour of an evening check-in.
pub const EVENING_HOUR: u8 = 18;

/// The first year the monthly walk covers.
pub const START_YEAR: i32 = 2020;

/// The character budget of a summary-mode report.
pub const SUMMARY_CHAR_BUDGET: usize = 2000;

} // verus!
