//! Timing parameters of the record-update scenario.
pub mod params;
