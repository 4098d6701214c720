//! Resolution of recurring weekly time windows against a reference instant.
//!
//! A schedule is a set of labeled windows, each recurring on a fixed set of
//! weekdays with a fixed start and end time of day.  The library expands such
//! a window into the concrete intervals it occupies in a given ISO week, and
//! resolves which window is active at a reference instant or, failing that,
//! which one starts soonest and in how long.

pub mod calendar;
pub mod course;
pub mod time;
