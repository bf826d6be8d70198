//! A calendar-dated measurement series library: densification of a sparse,
//! irregularly dated series into a gap-free day-by-day series (linear
//! interpolation between observations, forward-fill after the last one), and
//! trailing rolling averages over the densified series.
//!
//! Dates are handled as proleptic Gregorian day numbers; values are plain
//! integer scalars (a caller chooses the fixed-point scale). Every public
//! function carries a contract that pins its result down exactly.

pub mod date;
pub mod series;
pub mod densify;
pub mod rolling;
pub mod laws;
