//! Clocks: interval tree clocks for causality, wall-clock time for tags.

pub mod itc;
pub mod wall;
