use srf05_imu_station::ranging::{classify, EchoCapture, Reading};
use srf05_imu_station::station::{process_range, RangeSample, NEAR_MM};
use srf05_imu_station::srf05::{Error, Reading as SrfReading};
use srf05_imu_station::{MedianFilter, NO_READING};

#[test]
fn classify_converts_like_the_driver() {
    assert_eq!(classify(Some(5831)), Reading::Mm(1000));
    assert_eq!(classify(Some(30_000)), Reading::OutOfRange);
    assert_eq!(classify(None), Reading::NoEcho);
    assert_eq!(classify(Some(0)), Reading::Mm(0));
}

#[test]
fn echo_capture_hands_out_width_once() {
    let mut c = EchoCapture::new();
    c.on_fall(10); // no rise yet: ignored
    assert_eq!(c.take_result(), None);
    c.on_rise(100);
    c.on_fall(1260);
    assert_eq!(c.take_result(), Some(1160));
    assert_eq!(c.take_result(), None);
    c.on_rise(5);
    c.reset();
    c.on_fall(50);
    assert_eq!(c.take_result(), None);
}

#[test]
fn ranging_cycle_filters_and_drives_led() {
    let mut f = MedianFilter::<5>::new();
    let s = process_range(&mut f, Ok(SrfReading::Mm(250)));
    assert_eq!(s, RangeSample { raw: 250, filtered: 250, led_on: true });
    let s = process_range(&mut f, Err(Error::TimeOut));
    assert_eq!(s, RangeSample { raw: NO_READING, filtered: NO_READING, led_on: false });
    let s = process_range(&mut f, Ok(SrfReading::OutOfRange));
    assert_eq!(s.raw, NO_READING);
    process_range(&mut f, Ok(SrfReading::Mm(260)));
    // window: 250, none, none, 260, 270 -> median 270
    let s = process_range(&mut f, Ok(SrfReading::Mm(270)));
    assert_eq!(s, RangeSample { raw: 270, filtered: 270, led_on: true });
    let s = process_range(&mut f, Ok(SrfReading::Mm(280)));
    // window: none, none, 260, 270, 280 -> median 280
    assert_eq!(s.filtered, 280);
    assert!(s.led_on);
    assert_eq!(NEAR_MM, 300);
}
