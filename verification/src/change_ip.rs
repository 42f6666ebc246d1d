//! Timing parameters of the address-rotation scenario.
pub mod params;
