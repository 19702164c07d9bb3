//! Signal-generation and monitoring core of a pull-based audio engine.
//!
//! Amplitudes are fixed-point integers ([`signal::UNIT`] is full scale) and
//! durations are whole microseconds, so that every conversion and every mix is
//! exact and stated in the contracts.

pub mod effect;
pub mod oscilloscope;
pub mod patch;
pub mod signal;
