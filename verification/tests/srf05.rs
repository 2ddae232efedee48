use srf05_imu_station::srf05::blocking::{POLL_STEP_US, TIMEOUT_US, TRIGGER_PULSE_US};
use srf05_imu_station::srf05::{pulse_width_to_mm, EchoPhase, EchoPoll, EdgeCapture, Error, MeasureError, PollStep, Reading};

#[test]
fn typical_pulse_converts_correctly() {
    // ~5831us round-trip ≈ 1000mm, per the SRF05 datasheet formula.
    assert_eq!(pulse_width_to_mm(5831), Reading::Mm(1000));
}

#[test]
fn very_long_pulse_is_out_of_range() {
    assert_eq!(pulse_width_to_mm(30_000), Reading::OutOfRange);
}

#[test]
fn zero_width_is_zero_distance() {
    assert_eq!(pulse_width_to_mm(0), Reading::Mm(0));
}

#[test]
fn range_limit_is_four_metres() {
    // 23323us -> 3999.89 -> 3999 mm; 23324 -> 4000.06 -> 4000 mm; 23330 -> 4001 mm.
    assert_eq!(pulse_width_to_mm(23_323), Reading::Mm(3999));
    assert_eq!(pulse_width_to_mm(23_324), Reading::Mm(4000));
    assert_eq!(pulse_width_to_mm(23_330), Reading::OutOfRange);
    assert_eq!(pulse_width_to_mm(u32::MAX), Reading::OutOfRange);
}

#[test]
fn edge_capture_measures_rise_to_fall() {
    let mut c = EdgeCapture::new();
    c.on_rise(1_000);
    c.on_fall(1_000 + 5_831);
    assert_eq!(c.take_reading(), Ok(Reading::Mm(1000)));
    // the reading is handed out once
    assert_eq!(c.take_reading(), Err(Error::TimeOut));
}

#[test]
fn edge_capture_ignores_fall_without_rise() {
    let mut c = EdgeCapture::new();
    c.on_fall(500);
    assert_eq!(c.take_reading(), Err(Error::TimeOut));
}

#[test]
fn edge_capture_saturates_odd_clocks() {
    let mut c = EdgeCapture::new();
    c.on_rise(10_000);
    c.on_fall(5_000); // clock went backwards: zero width
    assert_eq!(c.take_reading(), Ok(Reading::Mm(0)));
    c.on_rise(0);
    c.on_fall(u64::MAX); // far too long for u32: saturates
    assert_eq!(c.take_reading(), Ok(Reading::OutOfRange));
}

#[test]
fn edge_capture_reset_drops_pending_edges() {
    let mut c = EdgeCapture::default();
    c.on_rise(1);
    c.reset();
    c.on_fall(2_000);
    assert_eq!(c.take_reading(), Err(Error::TimeOut));
}

/// Runs the polling machine over the given levels, as the blocking driver
/// does, and returns the final step and the total delay requested.
fn run(levels: &[bool]) -> (Option<PollStep>, u64) {
    let mut p = EchoPoll::new();
    let mut delay = 0u64;
    for &l in levels {
        match p.on_level(l) {
            PollStep::ReadNow => {}
            PollStep::ReadAfter(us) => delay += us as u64,
            other => return (Some(other), delay),
        }
    }
    (None, delay)
}

#[test]
fn polling_measures_the_high_time() {
    // Low, rising edge, 232 high polls, then low: 232 * 5us = 1160us ≈ 198mm.
    let mut levels = vec![false, true];
    levels.extend(std::iter::repeat(true).take(232));
    levels.push(false);
    let (step, _) = run(&levels);
    assert_eq!(step, Some(PollStep::Done(Reading::Mm(198))));
}

#[test]
fn polling_without_rise_times_out() {
    let levels = vec![false; (TIMEOUT_US / POLL_STEP_US + 1) as usize];
    let (step, delay) = run(&levels);
    assert_eq!(step, Some(PollStep::TimedOut));
    assert_eq!(delay, TIMEOUT_US as u64);
    // one poll fewer is not yet a timeout
    let (step, _) = run(&levels[1..]);
    assert_eq!(step, None);
}

#[test]
fn polling_endless_echo_times_out() {
    let mut levels = vec![true];
    levels.extend(std::iter::repeat(true).take((TIMEOUT_US / POLL_STEP_US + 1) as usize));
    let (step, _) = run(&levels);
    assert_eq!(step, Some(PollStep::TimedOut));
}

#[test]
fn polling_state_follows_the_echo() {
    let mut p = EchoPoll::new();
    assert_eq!(p.on_level(false), PollStep::ReadAfter(5));
    assert_eq!(p, EchoPoll { phase: EchoPhase::AwaitingRise, elapsed_us: 5 });
    assert_eq!(p.on_level(true), PollStep::ReadNow);
    assert_eq!(p, EchoPoll { phase: EchoPhase::TimingHigh, elapsed_us: 0 });
    assert_eq!(TRIGGER_PULSE_US, 10);
}

#[test]
fn measure_error_keeps_its_cause() {
    let e: MeasureError<u8> = MeasureError::Reading(Error::TimeOut);
    assert!(matches!(e, MeasureError::Reading(Error::TimeOut)));
    let p: MeasureError<u8> = MeasureError::Pin(3);
    assert!(matches!(p, MeasureError::Pin(3)));
}
