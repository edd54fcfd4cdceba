//! Closed-loop fan controller core.
//!
//! The library holds the verified logic of a periodic thermal control loop:
//! the piecewise fan-speed policy over a millidegree temperature reading,
//! the parser for the textual sensor value, and the tick-by-tick control
//! state machine with its write-on-change and fail-fast rules. Hardware
//! access (the register bus, the sensor file, timers and signals) lives
//! outside the library and hands it plain values.

pub mod control;
pub mod curve;
pub mod sensor;
