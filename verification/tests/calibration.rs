use srf05_imu_station::calibration::EXPECTED_ACCEL_Z_AT_REST;
use srf05_imu_station::{Calibration, Calibrator, RawSample3};

#[test]
fn perfect_sensor_yields_zero_bias() {
    let mut cal = Calibrator::<10>::new();
    let mut result = None;
    for _ in 0..10 {
        result = cal.push(
            RawSample3 { x: 0, y: 0, z: 0 },
            RawSample3 {
                x: 0,
                y: 0,
                z: EXPECTED_ACCEL_Z_AT_REST as i16,
            },
        );
    }
    assert_eq!(result, Some(Calibration::default()));
}

#[test]
fn constant_gyro_offset_is_captured_as_bias() {
    let mut cal = Calibrator::<5>::new();
    let mut result = None;
    for _ in 0..5 {
        result = cal.push(
            RawSample3 { x: 12, y: -8, z: 3 },
            RawSample3 {
                x: 0,
                y: 0,
                z: EXPECTED_ACCEL_Z_AT_REST as i16,
            },
        );
    }
    let cal = result.unwrap();
    assert_eq!(cal.gyro_bias, RawSample3 { x: 12, y: -8, z: 3 });
}

#[test]
fn noisy_samples_average_out() {
    // Alternating +2/-2 around a true bias of 10 should average to 10.
    let mut cal = Calibrator::<4>::new();
    let mut result = None;
    for x in [12, 8, 12, 8] {
        result = cal.push(
            RawSample3 { x, y: 0, z: 0 },
            RawSample3 {
                x: 0,
                y: 0,
                z: EXPECTED_ACCEL_Z_AT_REST as i16,
            },
        );
    }
    assert_eq!(result.unwrap().gyro_bias.x, 10);
}

#[test]
fn no_result_before_n_samples() {
    let mut cal = Calibrator::<5>::new();
    for _ in 0..4 {
        assert!(cal
            .push(RawSample3::default(), RawSample3::default())
            .is_none());
    }
}

#[test]
fn accel_offset_measured_relative_to_expected_gravity() {
    let mut cal = Calibrator::<3>::new();
    let mut result = None;
    for _ in 0..3 {
        // Z reads 100 LSB high of the expected resting value.
        result = cal.push(
            RawSample3::default(),
            RawSample3 {
                x: 0,
                y: 0,
                z: (EXPECTED_ACCEL_Z_AT_REST + 100) as i16,
            },
        );
    }
    assert_eq!(result.unwrap().accel_offset.z, 100);
}

#[test]
fn correcting_with_its_own_bias_cancels_it_out() {
    let cal = Calibration {
        gyro_bias: RawSample3 { x: 12, y: -8, z: 3 },
        accel_offset: RawSample3 {
            x: 5,
            y: -5,
            z: 100,
        },
    };
    let raw_gyro = RawSample3 { x: 12, y: -8, z: 3 };
    assert_eq!(cal.correct_gyro(raw_gyro), RawSample3 { x: 0, y: 0, z: 0 });
}

#[test]
fn correction_clamps_instead_of_overflowing() {
    let cal = Calibration {
        gyro_bias: RawSample3 {
            x: -20000,
            y: 0,
            z: 0,
        },
        accel_offset: RawSample3::default(),
    };
    let raw = RawSample3 {
        x: 20000,
        y: 0,
        z: 0,
    };
    // 20000 - (-20000) = 40000, which overflows i16::MAX (32767)
    assert_eq!(cal.correct_gyro(raw).x, i16::MAX);
}

#[test]
fn correction_clamps_at_the_negative_end_too() {
    let cal = Calibration {
        gyro_bias: RawSample3::default(),
        accel_offset: RawSample3 { x: 20000, y: 1, z: -3 },
    };
    let raw = RawSample3 { x: -20000, y: 1, z: 7 };
    assert_eq!(cal.correct_accel(raw), RawSample3 { x: i16::MIN, y: 0, z: 10 });
}

#[test]
fn zero_calibration_leaves_readings_unchanged() {
    let cal = Calibration::default();
    let raw = RawSample3 { x: -123, y: 456, z: 32767 };
    assert_eq!(cal.correct_gyro(raw), raw);
    assert_eq!(cal.correct_accel(raw), raw);
}

#[test]
fn calibrated_still_board_reads_gravity_only() {
    let gyro = RawSample3 { x: 40, y: -7, z: 2 };
    let accel = RawSample3 { x: -300, y: 120, z: 16000 };
    let mut cal = Calibrator::<8>::new();
    let mut result = None;
    for _ in 0..8 {
        result = cal.push(gyro, accel);
    }
    let c = result.unwrap();
    assert_eq!(c.correct_gyro(gyro), RawSample3 { x: 0, y: 0, z: 0 });
    assert_eq!(c.correct_accel(accel), RawSample3 { x: 0, y: 0, z: 16384 });
}

#[test]
fn mean_rounds_toward_zero() {
    // x sums to 7 over 2 samples (3.5 -> 3), y to -7 (-3.5 -> -3).
    let mut cal = Calibrator::<2>::new();
    cal.push(RawSample3 { x: 3, y: -3, z: 0 }, RawSample3 { x: 0, y: 0, z: 16384 });
    let c = cal
        .push(RawSample3 { x: 4, y: -4, z: 0 }, RawSample3 { x: 0, y: 0, z: 16384 })
        .unwrap();
    assert_eq!(c.gyro_bias, RawSample3 { x: 3, y: -3, z: 0 });
}

#[test]
fn samples_collected_counts_pushes() {
    let mut cal = Calibrator::<3>::default();
    assert_eq!(cal.samples_collected(), 0);
    cal.push(RawSample3::default(), RawSample3::default());
    cal.push(RawSample3::default(), RawSample3::default());
    assert_eq!(cal.samples_collected(), 2);
}

#[test]
fn huge_window_keeps_collecting() {
    let mut cal = Calibrator::<{ 1usize << 40 }>::new();
    for k in 1..=3 {
        assert!(cal.push(RawSample3::default(), RawSample3::default()).is_none());
        assert_eq!(cal.samples_collected(), k);
    }
}
