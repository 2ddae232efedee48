//! Progress of one log write over the USB serial port. The writer polls the
//! USB device and offers the rest of the buffer to the serial port until it
//! is all taken, the port stays busy for too many polls in a row, or the
//! port fails; logging must never block the firmware for long.
use vstd::prelude::*;

verus! {

/// Consecutive polls without progress after which a write gives up.
pub const MAX_IDLE_POLLS: u32 = 2_000;

/// What one attempt to hand bytes to the serial port came to.
#[derive(Debug, Clone, Copy, PartialEq, Eq, Structural)]
pub enum WriteOutcome {
    /// The port took this many bytes.
    Wrote(usize),
    /// The port took nothing this time (full, or would block).
    NoProgress,
    /// The port failed, or there is no USB device.
    Failed,
}

/// The state of a write of `len` bytes.
#[derive(Debug, Clone, Copy, PartialEq, Eq, Structural)]
pub struct WriteProgress {
    pub len: usize,
    pub written: usize,
    pub idle_polls: u32,
    pub gave_up: bool,
}

impl WriteProgress {
    pub fn new(len: usize) -> (p: Self)
        ensures
            p == (WriteProgress { len, written: 0, idle_polls: 0, gave_up: false }),
    {
        WriteProgress { len, written: 0, idle_polls: 0, gave_up: false }
    }

    /// Whether another attempt is due.
    pub open spec fn attempt_due(self) -> bool {
        !self.gave_up && self.written < self.len && self.idle_polls < MAX_IDLE_POLLS
    }

    pub fn should_attempt(&self) -> (b: bool)
        ensures
            b == self.attempt_due(),
    {
        !self.gave_up && self.written < self.len && self.idle_polls < MAX_IDLE_POLLS
    }

    /// How far the write is from finishing: it shrinks with every attempt.
    pub open spec fn remaining_work(self) -> int {
        if self.gave_up {
            0
        } else {
            (self.len - self.written) * (MAX_IDLE_POLLS + 1) + (MAX_IDLE_POLLS - self.idle_polls)
        }
    }

    /// Account for one attempt. The port never takes more than it was
    /// offered: the rest of the buffer.
    pub fn record(&mut self, outcome: WriteOutcome)
        requires
            old(self).attempt_due(),
            outcome matches WriteOutcome::Wrote(n) ==> n <= old(self).len - old(self).written,
        ensures
            final(self).len == old(self).len,
            final(self).written <= final(self).len,
            0 <= final(self).remaining_work() < old(self).remaining_work(),
            outcome matches WriteOutcome::Wrote(n) ==> n > 0 ==> *final(self) == (WriteProgress {
                written: (old(self).written + n) as usize,
                idle_polls: 0,
                ..*old(self)
            }),
            (outcome == WriteOutcome::NoProgress || outcome == WriteOutcome::Wrote(0)) ==> *final(self)
                == (WriteProgress { idle_polls: (old(self).idle_polls + 1) as u32, ..*old(self) }),
            outcome == WriteOutcome::Failed ==> *final(self) == (WriteProgress { gave_up: true, ..*old(self) }),
    {
        match outcome {
            WriteOutcome::Wrote(n) => {
                if n > 0 {
                    self.written = self.written + n;
                    self.idle_polls = 0;
                } else {
                    self.idle_polls = self.idle_polls + 1;
                }
            },
            WriteOutcome::NoProgress => {
                self.idle_polls = self.idle_polls + 1;
            },
            WriteOutcome::Failed => {
                self.gave_up = true;
            },
        }
        proof {
            let o = *old(self);
            assert(0 <= self.remaining_work() < o.remaining_work()) by (nonlinear_arith)
                requires
                    o.written < o.len,
                    o.idle_polls < MAX_IDLE_POLLS,
                    !o.gave_up,
                    self.len == o.len,
                    self.written <= self.len,
                    self.gave_up || self.written > o.written || (self.written == o.written
                        && self.idle_polls == o.idle_polls + 1),
                    self.written > o.written ==> self.idle_polls == 0,
                    self.idle_polls <= MAX_IDLE_POLLS,
                    self.remaining_work() == if self.gave_up { 0 } else { (self.len - self.written) * (
                    MAX_IDLE_POLLS + 1) + (MAX_IDLE_POLLS - self.idle_polls) },
                    o.remaining_work() == (o.len - o.written) * (MAX_IDLE_POLLS + 1) + (MAX_IDLE_POLLS
                        - o.idle_polls),
            ;
        }
    }

    /// What the write reports to the logger: the bytes taken, or, if none
    /// were, the whole buffer, so that a missing or stalled host drops log
    /// data instead of stalling the firmware.
    pub fn reported(&self) -> (n: usize)
        ensures
            n == if self.written == 0 { self.len } else { self.written },
    {
        if self.written == 0 {
            self.len
        } else {
            self.written
        }
    }
}

} // verus!
