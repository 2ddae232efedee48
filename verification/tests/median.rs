use srf05_imu_station::{MedianFilter, NO_READING};

fn feed<const N: usize>(f: &mut MedianFilter<N>, xs: &[u16]) -> Option<u16> {
    let mut last = None;
    for &x in xs {
        last = f.push(x);
    }
    last
}

#[test]
fn no_output_until_window_is_full() {
    let mut f = MedianFilter::<5>::new();
    for x in [10, 20, 30, 40] {
        assert_eq!(f.push(x), None);
    }
    assert!(f.push(50).is_some());
}

#[test]
fn constant_input_passes_through() {
    let mut f = MedianFilter::<5>::new();
    assert_eq!(feed(&mut f, &[300; 5]), Some(300));
}

#[test]
fn median_is_the_middle_value_regardless_of_order() {
    let mut f = MedianFilter::<5>::new();
    assert_eq!(feed(&mut f, &[5, 1, 4, 2, 3]), Some(3));
}

#[test]
fn single_spike_is_rejected() {
    let mut f = MedianFilter::<5>::new();
    assert_eq!(feed(&mut f, &[500, 502, 4000, 499, 501]), Some(501));
}

#[test]
fn single_dropout_is_rejected() {
    let mut f = MedianFilter::<5>::new();
    assert_eq!(feed(&mut f, &[500, NO_READING, 502, 499, 501]), Some(501));
}

#[test]
fn majority_dropouts_report_no_reading() {
    let mut f = MedianFilter::<5>::new();
    let out = feed(&mut f, &[500, NO_READING, NO_READING, 499, NO_READING]);
    assert_eq!(out, Some(NO_READING));
}

#[test]
fn step_change_appears_on_the_third_new_sample() {
    let mut f = MedianFilter::<5>::new();
    feed(&mut f, &[100; 5]);
    assert_eq!(f.push(200), Some(100));
    assert_eq!(f.push(200), Some(100));
    assert_eq!(f.push(200), Some(200)); // (N+1)/2 samples of latency
}

#[test]
fn isolated_spikes_never_reach_the_output() {
    // True distance ~800 mm with a spike every 4th sample: any 5-sample
    // window holds at most 2 spikes, which is still fewer than a majority.
    let data: Vec<u16> = (0..40)
        .map(|i| {
            if i % 4 == 3 {
                3000
            } else {
                798 + (i % 5) as u16
            }
        })
        .collect();
    assert_eq!(data.iter().max(), Some(&3000)); // the raw data does have spikes
    let mut f = MedianFilter::<5>::new();
    for &x in &data {
        if let Some(y) = f.push(x) {
            assert!((798..=802).contains(&y), "spike leaked: {y}");
        }
    }
}

#[test]
fn reset_forgets_history() {
    let mut f = MedianFilter::<5>::new();
    feed(&mut f, &[100; 5]);
    f.reset();
    assert_eq!(f.push(100), None);
}

#[test]
fn window_of_one_passes_every_sample() {
    let mut f = MedianFilter::<1>::new();
    assert_eq!(f.push(7), Some(7));
    assert_eq!(f.push(3), Some(3));
}

#[test]
fn old_samples_leave_the_window() {
    let mut f = MedianFilter::<3>::new();
    assert_eq!(feed(&mut f, &[1, 9, 9]), Some(9));
    // the window becomes [9, 9, 1], then [9, 1, 1]
    assert_eq!(f.push(1), Some(9));
    assert_eq!(f.push(1), Some(1));
}

#[test]
fn majority_within_range_bounds_the_output() {
    let mut f = MedianFilter::<7>::new();
    let out = feed(&mut f, &[0, 65000, 410, 400, 1, 405, 402]);
    let m = out.unwrap();
    assert!((400..=410).contains(&m));
    assert_eq!(m, 402);
}
