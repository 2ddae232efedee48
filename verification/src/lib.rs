//! Verified core of an SRF05 rangefinder + MPU-6050 attitude station:
//! pulse-width conversion, edge capture, echo polling, median filtering,
//! IMU calibration, button debouncing and the calibration record format.

pub mod srf05;
pub mod median;
pub mod calibration;
pub mod ranging;
pub mod debouncer;
pub mod flash_store;
pub mod wire;
pub mod imu;
pub mod station;
pub mod usb_log;

pub use calibration::{Calibration, Calibrator, RawSample3};
pub use median::{MedianFilter, NO_READING};
