use srf05_imu_station::imu::{check_who_am_i, decode_burst, Error, INIT_WRITES, WHO_AM_I_VALUE};
use srf05_imu_station::RawSample3;

#[test]
fn genuine_chip_is_accepted() {
    assert!(check_who_am_i::<()>(WHO_AM_I_VALUE).is_ok());
}

#[test]
fn other_chip_is_rejected_with_its_id() {
    assert!(matches!(check_who_am_i::<()>(0x70), Err(Error::UnexpectedWhoAmI(0x70))));
}

#[test]
fn burst_is_split_into_accel_and_gyro() {
    let buf = [
        0x40, 0x00, 0xff, 0xfe, 0x80, 0x00, // accel
        0x12, 0x34, // temperature, skipped
        0x00, 0x05, 0x7f, 0xff, 0xff, 0x00, // gyro
    ];
    let (accel, gyro) = decode_burst(&buf);
    assert_eq!(accel, RawSample3 { x: 16384, y: -2, z: i16::MIN });
    assert_eq!(gyro, RawSample3 { x: 5, y: i16::MAX, z: -256 });
}

#[test]
fn start_up_writes_configure_ranges_rate_and_interrupt_in_order() {
    assert_eq!(
        INIT_WRITES,
        [
            [0x6B, 0x00], // PWR_MGMT_1: wake
            [0x1B, 0x00], // GYRO_CONFIG: +-250 deg/s
            [0x1C, 0x00], // ACCEL_CONFIG: +-2 g
            [0x1A, 0x03], // CONFIG: low-pass filter
            [0x19, 0x09], // SMPLRT_DIV: 1 kHz / 10
            [0x37, 0x00], // INT_PIN_CFG
            [0x38, 0x01], // INT_ENABLE: data ready
        ]
    );
}
