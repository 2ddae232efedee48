use srf05_imu_station::debouncer::{ButtonEvent, ButtonMonitor, Debouncer, Edge};

// Active-low button: a low level means pressed.
const LOW: bool = false;
const HIGH: bool = true;

#[test]
fn initial_level_seeds_state_without_edge() {
    let mut d = Debouncer::new(LOW, true, 10, 0);
    assert!(d.is_pressed());
    assert_eq!(d.update(100, LOW), Edge::NoChange);
    let d2 = Debouncer::new(HIGH, false, 10, 0);
    assert!(d2.is_pressed());
}

#[test]
fn press_is_reported_after_debounce_time() {
    let mut d = Debouncer::new(HIGH, true, 10, 0);
    assert!(!d.is_pressed());
    assert_eq!(d.update(100, LOW), Edge::NoChange); // candidate changes
    assert_eq!(d.update(105, LOW), Edge::NoChange); // not long enough yet
    assert_eq!(d.update(110, LOW), Edge::Pressed);
    assert!(d.is_pressed());
    assert_eq!(d.update(111, LOW), Edge::NoChange); // reported once
    assert_eq!(d.update(120, HIGH), Edge::NoChange);
    assert_eq!(d.update(130, HIGH), Edge::Released);
    assert!(!d.is_pressed());
}

#[test]
fn bounce_restarts_the_clock() {
    let mut d = Debouncer::new(HIGH, true, 10, 0);
    assert_eq!(d.update(100, LOW), Edge::NoChange);
    assert_eq!(d.update(108, HIGH), Edge::NoChange); // bounced back
    assert_eq!(d.update(109, LOW), Edge::NoChange); // new candidate at 109
    assert_eq!(d.update(115, LOW), Edge::NoChange);
    assert_eq!(d.update(119, LOW), Edge::Pressed);
}

#[test]
fn wrapping_timer_still_debounces() {
    let mut d = Debouncer::new(HIGH, true, 10, 0);
    assert_eq!(d.update(u64::MAX - 4, LOW), Edge::NoChange);
    assert_eq!(d.update(3, LOW), Edge::NoChange); // 8 ticks later
    assert_eq!(d.update(5, LOW), Edge::Pressed); // 10 ticks later
}

fn button() -> ButtonMonitor {
    // debounce 2, click window 50, hold 200
    ButtonMonitor::new(HIGH, true, 2, 50, 200, 0)
}

/// Presses (low) from `from` to `to`, updating every tick; returns the events.
fn hold_level(b: &mut ButtonMonitor, level: bool, from: u64, to: u64) -> Vec<ButtonEvent> {
    let mut evs = Vec::new();
    for t in from..to {
        let e = b.update(t, level);
        if e != ButtonEvent::NoEvent {
            evs.push(e);
        }
    }
    evs
}

#[test]
fn single_click_reported_after_window() {
    let mut b = button();
    assert!(hold_level(&mut b, LOW, 10, 30).is_empty());
    assert!(hold_level(&mut b, HIGH, 30, 60).is_empty());
    // released at tick 32; the window closes after tick 82
    assert_eq!(hold_level(&mut b, HIGH, 60, 100), vec![ButtonEvent::Clicks(1)]);
}

#[test]
fn double_click_counts_two() {
    let mut b = button();
    hold_level(&mut b, LOW, 10, 20);
    hold_level(&mut b, HIGH, 20, 40);
    hold_level(&mut b, LOW, 40, 50);
    assert_eq!(hold_level(&mut b, HIGH, 50, 200), vec![ButtonEvent::Clicks(2)]);
}

#[test]
fn long_press_fires_hold_once_and_no_click() {
    let mut b = button();
    assert_eq!(hold_level(&mut b, LOW, 10, 400), vec![ButtonEvent::HoldTriggered]);
    assert!(hold_level(&mut b, HIGH, 400, 600).is_empty());
}

#[test]
fn clicks_count_only_presses_of_their_sequence() {
    let mut b = button();
    // one click, reported after the window closes
    hold_level(&mut b, LOW, 10, 20);
    assert_eq!(hold_level(&mut b, HIGH, 20, 100), vec![ButtonEvent::Clicks(1)]);
    // then three quick presses: a new sequence of three
    hold_level(&mut b, LOW, 100, 110);
    hold_level(&mut b, HIGH, 110, 120);
    hold_level(&mut b, LOW, 120, 130);
    hold_level(&mut b, HIGH, 130, 140);
    hold_level(&mut b, LOW, 140, 150);
    assert_eq!(hold_level(&mut b, HIGH, 150, 300), vec![ButtonEvent::Clicks(3)]);
}
