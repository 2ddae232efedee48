//! SRF05 ultrasonic rangefinder: conversion of an echo pulse width to a
//! distance, edge capture from interrupt timestamps, and the decision logic of
//! the blocking polling driver.

pub mod blocking;
pub mod capture;
pub mod math;

pub use blocking::{EchoPhase, EchoPoll, MeasureError, PollStep};
pub use capture::EdgeCapture;
pub use math::{pulse_width_to_mm, Error, Reading};
