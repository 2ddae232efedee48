//! MPU-6050 register map, the identity check of its start-up, and the
//! decoding of its 14-byte accelerometer/temperature/gyro burst read.
use vstd::prelude::*;
use crate::calibration::RawSample3;
use crate::wire::{from_be, i16_from_be};

verus! {

/// I2C address of the MPU-6050 (AD0 low).
pub const ADDR: u8 = 0x68;
pub const REG_SMPLRT_DIV: u8 = 0x19;
pub const REG_CONFIG: u8 = 0x1A;
pub const REG_GYRO_CONFIG: u8 = 0x1B;
pub const REG_ACCEL_CONFIG: u8 = 0x1C;
pub const REG_INT_PIN_CFG: u8 = 0x37;
pub const REG_INT_ENABLE: u8 = 0x38;
pub const REG_ACCEL_XOUT_H: u8 = 0x3B;
pub const REG_PWR_MGMT_1: u8 = 0x6B;
pub const REG_WHO_AM_I: u8 = 0x75;

/// The start-up configuration, written in this order as (register, value):
/// wake the chip, gyro +-250 deg/s, accelerometer +-2 g, 44 Hz low-pass
/// filter, sample rate 1 kHz / 10, INT pin push-pull active high, and
/// data-ready interrupt enabled.
pub const INIT_WRITES: [[u8; 2]; 7] = [
    [REG_PWR_MGMT_1, 0x00],
    [REG_GYRO_CONFIG, 0x00],
    [REG_ACCEL_CONFIG, 0x00],
    [REG_CONFIG, 0x03],
    [REG_SMPLRT_DIV, 0x09],
    [REG_INT_PIN_CFG, 0x00],
    [REG_INT_ENABLE, 0x01],
];

/// What WHO_AM_I reads on a genuine MPU-6050.
pub const WHO_AM_I_VALUE: u8 = 0x68;

/// Length of the burst read starting at ACCEL_XOUT_H: accel X/Y/Z, the
/// temperature, gyro X/Y/Z, two bytes each.
pub const BURST_LEN: usize = 14;

#[derive(Debug)]
pub enum Error<E> {
    I2c(E),
    UnexpectedWhoAmI(u8),
}

/// Accept the chip only if WHO_AM_I reads as an MPU-6050's.
pub fn check_who_am_i<E>(who: u8) -> (r: Result<(), Error<E>>)
    ensures
        who == WHO_AM_I_VALUE <==> r is Ok,
        who != WHO_AM_I_VALUE ==> (r matches Err(Error::UnexpectedWhoAmI(w)) && w == who),
{
    if who != WHO_AM_I_VALUE {
        return Err(Error::UnexpectedWhoAmI(who));
    }
    Ok(())
}

/// The three big-endian values at `at`, `at + 2`, `at + 4` of `b`.
pub open spec fn sample_at(b: Seq<u8>, at: int) -> RawSample3 {
    RawSample3 {
        x: from_be(b[at], b[at + 1]),
        y: from_be(b[at + 2], b[at + 3]),
        z: from_be(b[at + 4], b[at + 5]),
    }
}

/// Split a burst read into (accelerometer, gyro), skipping the temperature
/// bytes in between.
pub fn decode_burst(buf: &[u8; 14]) -> (r: (RawSample3, RawSample3))
    ensures
        r == (sample_at(buf@, 0), sample_at(buf@, 8)),
{
    let accel = RawSample3 {
        x: i16_from_be(buf[0], buf[1]),
        y: i16_from_be(buf[2], buf[3]),
        z: i16_from_be(buf[4], buf[5]),
    };
    let gyro = RawSample3 {
        x: i16_from_be(buf[8], buf[9]),
        y: i16_from_be(buf[10], buf[11]),
        z: i16_from_be(buf[12], buf[13]),
    };
    (accel, gyro)
}

} // verus!
