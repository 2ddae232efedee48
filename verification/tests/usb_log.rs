use srf05_imu_station::usb_log::{WriteOutcome, WriteProgress, MAX_IDLE_POLLS};

#[test]
fn write_finishes_when_all_bytes_are_taken() {
    let mut p = WriteProgress::new(10);
    assert!(p.should_attempt());
    p.record(WriteOutcome::Wrote(4));
    p.record(WriteOutcome::NoProgress);
    p.record(WriteOutcome::Wrote(6));
    assert!(!p.should_attempt());
    assert_eq!(p.reported(), 10);
}

#[test]
fn stalled_port_gives_up_after_idle_polls() {
    let mut p = WriteProgress::new(10);
    p.record(WriteOutcome::Wrote(3));
    let mut polls = 0;
    while p.should_attempt() {
        p.record(WriteOutcome::NoProgress);
        polls += 1;
    }
    assert_eq!(polls, MAX_IDLE_POLLS);
    assert_eq!(p.reported(), 3);
}

#[test]
fn failed_port_reports_whole_buffer_when_nothing_was_sent() {
    let mut p = WriteProgress::new(8);
    p.record(WriteOutcome::Failed);
    assert!(!p.should_attempt());
    assert_eq!(p.reported(), 8);
}
