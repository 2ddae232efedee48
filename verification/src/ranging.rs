//! Interrupt-fed echo capture and classification of the captured pulse, as
//! the station's ranging task uses them.
use vstd::prelude::*;
use crate::srf05::capture::{after_fall, width_between};
use crate::srf05::math::{distance_mm, reading_for_width, MAX_RANGE_MM, WIDTH_CAP_US};

verus! {

/// Records the rising edge of the echo and, on the falling edge, the pulse
/// width.
#[derive(Clone, Copy)]
pub struct EchoCapture {
    rise_us: Option<u64>,
    width_us: Option<u32>,
}

impl View for EchoCapture {
    /// The pending rising edge and the completed pulse width, if any.
    type V = (Option<u64>, Option<u32>);

    closed spec fn view(&self) -> (Option<u64>, Option<u32>) {
        (self.rise_us, self.width_us)
    }
}

impl EchoCapture {
    pub fn new() -> (c: Self)
        ensures
            c@ == (None::<u64>, None::<u32>),
    {
        EchoCapture { rise_us: None, width_us: None }
    }

    pub fn reset(&mut self)
        ensures
            final(self)@ == (None::<u64>, None::<u32>),
    {
        *self = Self::new();
    }

    pub fn on_rise(&mut self, now_us: u64)
        ensures
            final(self)@ == (Some(now_us), old(self)@.1),
    {
        self.rise_us = Some(now_us);
    }

    /// A falling edge with no prior rising edge is noise: it is ignored.
    pub fn on_fall(&mut self, now_us: u64)
        ensures
            final(self)@ == after_fall(old(self)@, now_us),
    {
        if let Some(rise) = self.rise_us.take() {
            self.width_us = Some(width_between(rise, now_us));
        }
    }

    /// Hands out the completed pulse width once.
    pub fn take_result(&mut self) -> (r: Option<u32>)
        ensures
            r == old(self)@.1,
            final(self)@ == (old(self)@.0, None::<u32>),
    {
        self.width_us.take()
    }
}

#[derive(Debug, Clone, Copy, PartialEq, Eq, Structural)]
pub enum Reading {
    Mm(u16),
    OutOfRange,
    NoEcho,
}

/// The reading a captured pulse width stands for; no pulse means no echo.
pub open spec fn classified(width_us: Option<u32>) -> Reading {
    match width_us {
        None => Reading::NoEcho,
        Some(w) => if distance_mm(w) > MAX_RANGE_MM {
            Reading::OutOfRange
        } else {
            Reading::Mm(distance_mm(w) as u16)
        },
    }
}

pub fn classify(width_us: Option<u32>) -> (r: Reading)
    ensures
        r == classified(width_us),
{
    match width_us {
        None => Reading::NoEcho,
        Some(w) => {
            let capped: u64 = if w < WIDTH_CAP_US { w as u64 } else { WIDTH_CAP_US as u64 };
            let mm: u64 = capped * 343 / 2000;
            if mm > MAX_RANGE_MM {
                Reading::OutOfRange
            } else {
                Reading::Mm(mm as u16)
            }
        },
    }
}

/// A captured pulse means the same distance here as in the SRF05 driver's own
/// conversion.
pub proof fn lemma_classify_agrees_with_driver(w: u32)
    ensures
        classified(Some(w)) == match reading_for_width(w) {
            crate::srf05::math::Reading::Mm(mm) => Reading::Mm(mm),
            crate::srf05::math::Reading::OutOfRange => Reading::OutOfRange,
        },
{
}

} // verus!
