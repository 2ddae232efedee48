//! The station's ranging step: turn a capture result into a raw distance,
//! filter it, and decide the proximity LED.
use vstd::prelude::*;
use crate::median::{is_median, last_n, MedianFilter, NO_READING};
use crate::srf05::math::{Error, Reading};

verus! {

/// Targets closer than this many millimetres light the LED.
pub const NEAR_MM: u16 = 300;

/// One ranging cycle's output.
#[derive(Debug, Clone, Copy, PartialEq, Eq, Structural)]
pub struct RangeSample {
    /// This cycle's distance, or `NO_READING`.
    pub raw: u16,
    /// The filtered distance (the raw one until the filter window is full).
    pub filtered: u16,
    /// Whether the proximity LED is lit.
    pub led_on: bool,
}

/// The raw distance a capture result stands for: out of range and no echo
/// both count as no reading.
pub open spec fn raw_distance(r: Result<Reading, Error>) -> u16 {
    match r {
        Ok(Reading::Mm(mm)) => mm,
        _ => NO_READING,
    }
}

/// One ranging cycle: record the capture result in the filter and decide
/// the LED from the filtered distance.
pub fn process_range<const N: usize>(filter: &mut MedianFilter<N>, reading: Result<Reading, Error>) -> (s: RangeSample)
    requires
        old(filter).wf(),
    ensures
        final(filter).wf(),
        s.raw == raw_distance(reading),
        reading matches Ok(Reading::Mm(mm)) ==> s.raw == mm,
        !(reading matches Ok(Reading::Mm(_))) ==> s.raw == NO_READING,
        final(filter)@ == last_n(old(filter)@.push(s.raw), N as nat),
        final(filter)@.len() < N ==> s.filtered == s.raw,
        final(filter)@.len() == N ==> is_median(final(filter)@, s.filtered),
        s.led_on == (s.filtered < NEAR_MM),
{
    let raw = match reading {
        Ok(Reading::Mm(mm)) => mm,
        Ok(Reading::OutOfRange) => NO_READING,
        Err(Error::TimeOut) => NO_READING,
    };
    let filtered = match filter.push(raw) {
        Some(m) => m,
        None => raw,
    };
    RangeSample { raw, filtered, led_on: filtered < NEAR_MM }
}

/// A valid reading's raw distance is that distance, whatever it is; only an
/// out-of-range reading or a missing echo counts as no reading.
pub proof fn lemma_raw_distance_is_the_reading(r: Result<Reading, Error>)
    ensures
        r matches Ok(Reading::Mm(mm)) ==> raw_distance(r) == mm,
        r == Ok::<Reading, Error>(Reading::OutOfRange) ==> raw_distance(r) == NO_READING,
        r == Err::<Reading, Error>(Error::TimeOut) ==> raw_distance(r) == NO_READING,
{
}

/// A missing reading never lights the LED by itself: until the filter is
/// full it is shown as is, and `NO_READING` is far beyond the threshold.
pub proof fn lemma_no_reading_is_far()
    ensures
        !(NO_READING < NEAR_MM),
{
}

} // verus!
