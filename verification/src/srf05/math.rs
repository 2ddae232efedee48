use vstd::prelude::*;
use vstd::arithmetic::div_mod::lemma_div_is_ordered;

verus! {

/// A completed SRF05 reading.
#[derive(Debug, Clone, Copy, PartialEq, Eq, Structural)]
pub enum Reading {
    /// Distance to nearest reflective surface.
    Mm(u16),
    /// A valid echo returned, but implies a distance beyond the sensor's
    /// useful range.
    OutOfRange,
}

#[derive(Debug, Clone, Copy, PartialEq, Eq, Structural)]
pub enum Error {
    /// No falling edge arrived within the timeout: check wiring/power.
    TimeOut,
}

/// Farthest distance, in millimetres, still reported as a distance.
pub const MAX_RANGE_MM: u64 = 4_000;

/// Pulse widths above this many microseconds are converted as if they were
/// exactly this long (they are far out of range anyway).
pub const WIDTH_CAP_US: u32 = 100_000;

/// The pulse width actually used by the conversion.
pub open spec fn capped_width(width_us: u32) -> int {
    if width_us < WIDTH_CAP_US { width_us as int } else { WIDTH_CAP_US as int }
}

/// Distance in millimetres for an echo pulse: sound travels 0.343 mm/us and
/// the pulse covers the round trip, so `width * 343 / 2000`, rounded down.
pub open spec fn distance_mm(width_us: u32) -> int {
    capped_width(width_us) * 343 / 2000
}

/// The reading that a pulse of `width_us` microseconds stands for.
pub open spec fn reading_for_width(width_us: u32) -> Reading {
    if distance_mm(width_us) > MAX_RANGE_MM {
        Reading::OutOfRange
    } else {
        Reading::Mm(distance_mm(width_us) as u16)
    }
}

/// Convert an echo pulse width from microseconds to a distance.
pub fn pulse_width_to_mm(width_us: u32) -> (r: Reading)
    ensures
        r == reading_for_width(width_us),
{
    let w: u64 = if width_us < WIDTH_CAP_US { width_us as u64 } else { WIDTH_CAP_US as u64 };
    let mm: u64 = w * 343 / 2000;
    if mm > MAX_RANGE_MM {
        Reading::OutOfRange
    } else {
        Reading::Mm(mm as u16)
    }
}

/// A longer echo never means a shorter distance.
pub proof fn lemma_distance_monotone(w1: u32, w2: u32)
    requires
        w1 <= w2,
    ensures
        distance_mm(w1) <= distance_mm(w2),
{
    assert(capped_width(w1) * 343 <= capped_width(w2) * 343);
    lemma_div_is_ordered(capped_width(w1) * 343, capped_width(w2) * 343, 2000);
}

/// The distance is the one-way path of sound at 343 m/s over the echo time,
/// rounded down to a millimetre: `2000 * d <= 343 * w < 2000 * (d + 1)` for
/// the (capped) width `w`; pulses longer than the cap count as the cap.
pub proof fn lemma_distance_is_sound_path(w: u32)
    ensures
        2000 * distance_mm(w) <= 343 * capped_width(w) < 2000 * (distance_mm(w) + 1),
        w <= WIDTH_CAP_US ==> capped_width(w) == w,
        w >= WIDTH_CAP_US ==> capped_width(w) == WIDTH_CAP_US,
{
    let x = 343 * capped_width(w);
    vstd::arithmetic::div_mod::lemma_fundamental_div_mod(x, 2000);
    assert(capped_width(w) * 343 == x);
}

/// Every distance reported is within the sensor's range.
pub proof fn lemma_reported_distance_in_range(w: u32)
    ensures
        reading_for_width(w) matches Reading::Mm(mm) ==> mm <= MAX_RANGE_MM && mm == distance_mm(w),
{
}

} // verus!
