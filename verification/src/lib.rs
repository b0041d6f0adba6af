//! Sensor conditioning and hysteresis control for a bang-bang refrigeration
//! thermostat.
//!
//! Each control tick takes two raw analog samples (the setpoint dial and the
//! temperature sensor), clips them to the converter's range, passes each through
//! an outlier-rejecting filter and a recursive mean filter, maps them to
//! milli-degrees, and decides with a dead band whether the compressor runs.
//! Everything here is pure computation on plain values; reading the converters
//! and driving the pins is left to the caller.

pub mod filter;
pub mod fridge;
pub mod pipeline;
pub mod sampler;
