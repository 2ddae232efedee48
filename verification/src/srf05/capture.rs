use vstd::prelude::*;
use crate::srf05::math::{pulse_width_to_mm, reading_for_width, Error, Reading};

verus! {

/// Width in microseconds of a pulse that rose at `rise_us` and fell at
/// `fall_us`: zero if the clock appears to have gone backwards, and
/// `u32::MAX` if it does not fit a `u32`.
pub open spec fn pulse_width(rise_us: u64, fall_us: u64) -> u32 {
    if fall_us <= rise_us {
        0
    } else if fall_us - rise_us > u32::MAX {
        u32::MAX
    } else {
        (fall_us - rise_us) as u32
    }
}

/// The pending rising edge and completed pulse width after a falling edge at
/// `now_us`: a fall with no prior rise changes nothing.
pub open spec fn after_fall(state: (Option<u64>, Option<u32>), now_us: u64) -> (Option<u64>, Option<u32>) {
    match state.0 {
        Some(rise) => (None, Some(pulse_width(rise, now_us))),
        None => state,
    }
}

/// Width of the pulse between two timestamps, saturating as `pulse_width`
/// says.
pub(crate) fn width_between(rise_us: u64, now_us: u64) -> (w: u32)
    ensures
        w == pulse_width(rise_us, now_us),
{
    let d = now_us.saturating_sub(rise_us);
    match u32::try_from(d) {
        Ok(w) => w,
        Err(_) => u32::MAX,
    }
}

/// Accumulates a rising/falling edge pair into a distance reading.
///
/// Hardware-free: feed it timestamps from any monotonically increasing
/// microsecond clock.
#[derive(Debug, Clone, Copy, Default)]
pub struct EdgeCapture {
    rise_us: Option<u64>,
    width_us: Option<u32>,
}

impl View for EdgeCapture {
    /// The pending rising edge and the completed pulse width, if any.
    type V = (Option<u64>, Option<u32>);

    closed spec fn view(&self) -> (Option<u64>, Option<u32>) {
        (self.rise_us, self.width_us)
    }
}

impl EdgeCapture {
    pub fn new() -> (c: Self)
        ensures
            c@ == (None::<u64>, None::<u32>),
    {
        EdgeCapture { rise_us: None, width_us: None }
    }

    pub fn reset(&mut self)
        ensures
            final(self)@ == (None::<u64>, None::<u32>),
    {
        *self = Self::new();
    }

    /// Call from your rising-edge interrupt/event, with the current time.
    pub fn on_rise(&mut self, now_us: u64)
        ensures
            final(self)@ == (Some(now_us), old(self)@.1),
    {
        self.rise_us = Some(now_us);
    }

    /// Call from your falling-edge interrupt/event, with the current time.
    /// A falling edge with no prior rising edge is treated as noise.
    pub fn on_fall(&mut self, now_us: u64)
        ensures
            final(self)@ == after_fall(old(self)@, now_us),
    {
        if let Some(rise) = self.rise_us.take() {
            self.width_us = Some(width_between(rise, now_us));
        }
    }

    /// Take the completed reading, if the pulse has finished.
    pub fn take_reading(&mut self) -> (r: Result<Reading, Error>)
        ensures
            final(self)@ == (old(self)@.0, None::<u32>),
            r == match old(self)@.1 {
                Some(w) => Ok::<Reading, Error>(reading_for_width(w)),
                None => Err(Error::TimeOut),
            },
    {
        match self.width_us.take() {
            Some(w) => Ok(pulse_width_to_mm(w)),
            None => Err(Error::TimeOut),
        }
    }
}

/// A rising edge at `rise_us` followed by a falling edge at `fall_us` yields
/// the reading of the pulse between them, whatever the capture held before;
/// the reading is handed out once, and a second take reports a timeout.
pub proof fn lemma_rise_then_fall_reading(state: (Option<u64>, Option<u32>), rise_us: u64, fall_us: u64)
    ensures
        after_fall((Some(rise_us), state.1), fall_us) == (None::<u64>, Some(pulse_width(rise_us, fall_us))),
{
}

/// The width of a pulse is the time from its rise to its fall, zero if the
/// clock seems to run backwards, and capped at `u32::MAX`.
pub proof fn lemma_pulse_width_is_elapsed_time(rise_us: u64, fall_us: u64)
    ensures
        rise_us <= fall_us && fall_us - rise_us <= u32::MAX ==> pulse_width(rise_us, fall_us) == fall_us
            - rise_us,
        fall_us - rise_us > u32::MAX ==> pulse_width(rise_us, fall_us) == u32::MAX,
        fall_us < rise_us ==> pulse_width(rise_us, fall_us) == 0,
{
}

/// A falling edge without a rising edge before it leaves the capture as it
/// was.
pub proof fn lemma_fall_without_rise_is_ignored(width: Option<u32>, now_us: u64)
    ensures
        after_fall((None::<u64>, width), now_us) == (None::<u64>, width),
{
}

} // verus!
