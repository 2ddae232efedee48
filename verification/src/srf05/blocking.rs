//! Decision logic of the blocking SRF05 driver. The driver triggers a ping,
//! then polls the ECHO pin, delaying between polls; this machine is told
//! each level read and says whether to read again (now, or after a delay)
//! or what the measurement came to.
use vstd::prelude::*;
use crate::srf05::math::{pulse_width_to_mm, reading_for_width, Error, Reading};

verus! {

/// Longest an SRF05 holds ECHO high with no target in range.
pub const TIMEOUT_US: u32 = 35_000;

/// Polling granularity: coarser = less accurate, finer = more delay calls.
pub const POLL_STEP_US: u32 = 5;

/// How long TRIG is held high to start a ping.
pub const TRIGGER_PULSE_US: u32 = 10;

/// Why a blocking measurement failed.
#[derive(Debug)]
pub enum MeasureError<E> {
    /// The underlying GPIO operation failed.
    Pin(E),
    /// No echo, or it never returned to low.
    Reading(Error),
}

/// Which part of the echo the driver is waiting on.
#[derive(Debug, Clone, Copy, PartialEq, Eq, Structural)]
pub enum EchoPhase {
    /// ECHO has not gone high yet.
    AwaitingRise,
    /// ECHO is high; its width is being timed.
    TimingHigh,
}

/// What the driver does after a poll of the ECHO pin.
#[derive(Debug, Clone, Copy, PartialEq, Eq, Structural)]
pub enum PollStep {
    /// Read the pin again straight away.
    ReadNow,
    /// Delay this many microseconds, then read the pin again.
    ReadAfter(u32),
    /// The echo has ended; this is the measurement.
    Done(Reading),
    /// The echo did not rise, or did not fall, within the timeout.
    TimedOut,
}

/// The state of a measurement in progress: the phase, and the microseconds
/// counted in it.
#[derive(Debug, Clone, Copy, PartialEq, Eq, Structural)]
pub struct EchoPoll {
    pub phase: EchoPhase,
    pub elapsed_us: u32,
}

/// One poll: the next state and what to do, given the level just read.
pub open spec fn poll_step(s: EchoPoll, high: bool) -> (EchoPoll, PollStep) {
    match s.phase {
        EchoPhase::AwaitingRise => if high {
            (EchoPoll { phase: EchoPhase::TimingHigh, elapsed_us: 0 }, PollStep::ReadNow)
        } else if s.elapsed_us >= TIMEOUT_US {
            (s, PollStep::TimedOut)
        } else {
            (
                EchoPoll { phase: EchoPhase::AwaitingRise, elapsed_us: (s.elapsed_us + POLL_STEP_US) as u32 },
                PollStep::ReadAfter(POLL_STEP_US),
            )
        },
        EchoPhase::TimingHigh => if !high {
            (s, PollStep::Done(reading_for_width(s.elapsed_us)))
        } else if s.elapsed_us >= TIMEOUT_US {
            (s, PollStep::TimedOut)
        } else {
            (
                EchoPoll { phase: EchoPhase::TimingHigh, elapsed_us: (s.elapsed_us + POLL_STEP_US) as u32 },
                PollStep::ReadAfter(POLL_STEP_US),
            )
        },
    }
}

impl EchoPoll {
    /// The state right after the trigger pulse: waiting for ECHO to rise.
    pub fn new() -> (p: Self)
        ensures
            p == (EchoPoll { phase: EchoPhase::AwaitingRise, elapsed_us: 0 }),
    {
        EchoPoll { phase: EchoPhase::AwaitingRise, elapsed_us: 0 }
    }

    /// The counter never passes the timeout by more than one poll step.
    pub open spec fn wf(&self) -> bool {
        self.elapsed_us < TIMEOUT_US + POLL_STEP_US
    }

    /// Account for one read of the ECHO pin.
    pub fn on_level(&mut self, high: bool) -> (step: PollStep)
        requires
            old(self).wf(),
        ensures
            final(self).wf(),
            (*final(self), step) == poll_step(*old(self), high),
            step matches PollStep::ReadAfter(d) ==> d == POLL_STEP_US && final(self).elapsed_us
                == old(self).elapsed_us + d,
            step == PollStep::ReadNow ==> final(self).elapsed_us == 0,
    {
        match self.phase {
            EchoPhase::AwaitingRise => {
                if high {
                    self.phase = EchoPhase::TimingHigh;
                    self.elapsed_us = 0;
                    return PollStep::ReadNow;
                }
                if self.elapsed_us >= TIMEOUT_US {
                    return PollStep::TimedOut;
                }
                self.elapsed_us += POLL_STEP_US;
                PollStep::ReadAfter(POLL_STEP_US)
            },
            EchoPhase::TimingHigh => {
                if !high {
                    return PollStep::Done(pulse_width_to_mm(self.elapsed_us));
                }
                if self.elapsed_us >= TIMEOUT_US {
                    return PollStep::TimedOut;
                }
                self.elapsed_us += POLL_STEP_US;
                PollStep::ReadAfter(POLL_STEP_US)
            },
        }
    }
}

/// The count of elapsed microseconds is real time: a poll that counts time
/// asks for exactly that delay before the next read, an immediate re-read
/// (only on the rising edge) counts nothing and starts timing the pulse at
/// zero, and a finished measurement leaves the state alone.
pub proof fn lemma_counted_time_is_delayed(s: EchoPoll, high: bool)
    ensures
        ({
            let (t, step) = poll_step(s, high);
            &&& t.elapsed_us == s.elapsed_us + POLL_STEP_US ==> step == PollStep::ReadAfter(POLL_STEP_US)
            &&& step matches PollStep::ReadAfter(d) ==> d == POLL_STEP_US && t.elapsed_us == s.elapsed_us + d
                && t.phase == s.phase
            &&& step == PollStep::ReadNow ==> s.phase == EchoPhase::AwaitingRise && high && t
                == (EchoPoll { phase: EchoPhase::TimingHigh, elapsed_us: 0 })
            &&& (step is Done || step is TimedOut) ==> t == s
            &&& s.phase == EchoPhase::TimingHigh && high && s.elapsed_us < TIMEOUT_US ==> step
                == PollStep::ReadAfter(POLL_STEP_US)
            &&& s.phase == EchoPhase::AwaitingRise && !high && s.elapsed_us < TIMEOUT_US ==> step
                == PollStep::ReadAfter(POLL_STEP_US)
        }),
{
}

/// Whether a step ends the measurement.
pub open spec fn is_final(step: PollStep) -> bool {
    step is Done || step is TimedOut
}

/// Feeding the levels read, in order, from state `s`: the step that ends the
/// measurement, or `None` if the levels run out first.
pub open spec fn run(s: EchoPoll, levels: Seq<bool>) -> Option<PollStep>
    decreases levels.len(),
{
    if levels.len() == 0 {
        None
    } else {
        let (t, step) = poll_step(s, levels[0]);
        if is_final(step) {
            Some(step)
        } else {
            run(t, levels.drop_first())
        }
    }
}

/// `n` copies of `level`.
pub open spec fn repeat(level: bool, n: nat) -> Seq<bool> {
    Seq::new(n, |i: int| level)
}

/// Timing a pulse: after `k` more high reads (no more than the timeout
/// allows) and then a low one, the measurement is the reading of a pulse of
/// `k` poll steps, wherever the count stood before.
proof fn lemma_timing_run(e: nat, k: nat)
    requires
        e % 5 == 0,
        e + 5 * k <= TIMEOUT_US,
    ensures
        run(
            EchoPoll { phase: EchoPhase::TimingHigh, elapsed_us: e as u32 },
            repeat(true, k).push(false),
        ) == Some(PollStep::Done(reading_for_width((e + 5 * k) as u32))),
    decreases k,
{
    let s = EchoPoll { phase: EchoPhase::TimingHigh, elapsed_us: e as u32 };
    let levels = repeat(true, k).push(false);
    if k == 0 {
        assert(levels[0] == false);
    } else {
        assert(levels[0] == true);
        assert(levels.drop_first() =~= repeat(true, (k - 1) as nat).push(false));
        lemma_timing_run(e + 5, (k - 1) as nat);
    }
}

/// Waiting for the rise: after `j` low reads (no more than the timeout allows)
/// the first high read starts the timing at zero.
proof fn lemma_waiting_run(e: nat, j: nat, rest: Seq<bool>)
    requires
        e % 5 == 0,
        e + 5 * j <= TIMEOUT_US,
    ensures
        run(EchoPoll { phase: EchoPhase::AwaitingRise, elapsed_us: e as u32 }, repeat(false, j).push(true) + rest)
            == run(EchoPoll { phase: EchoPhase::TimingHigh, elapsed_us: 0 }, rest),
    decreases j,
{
    let levels = repeat(false, j).push(true) + rest;
    if j == 0 {
        assert(levels[0] == true);
        assert(levels.drop_first() =~= rest);
    } else {
        assert(levels[0] == false);
        assert(levels.drop_first() =~= repeat(false, (j - 1) as nat).push(true) + rest);
        lemma_waiting_run(e + 5, (j - 1) as nat, rest);
    }
}

/// An echo that rises after `j` low polls and stays high for `k` more polls
/// (each within the timeout) measures a pulse of `k` poll steps: the width
/// is the poll step times the number of high reads after the rise.
pub proof fn lemma_measured_width(j: nat, k: nat)
    requires
        5 * j <= TIMEOUT_US,
        5 * k <= TIMEOUT_US,
    ensures
        run(EchoPoll { phase: EchoPhase::AwaitingRise, elapsed_us: 0 }, repeat(false, j).push(true) + repeat(true, k).push(false))
            == Some(PollStep::Done(reading_for_width((5 * k) as u32))),
{
    lemma_waiting_run(0, j, repeat(true, k).push(false));
    lemma_timing_run(0, k);
}

/// An echo that never rises times out after the timeout's worth of polls.
pub proof fn lemma_no_rise_times_out()
    ensures
        run(EchoPoll { phase: EchoPhase::AwaitingRise, elapsed_us: 0 }, repeat(false, 7001))
            == Some(PollStep::TimedOut),
{
    lemma_low_run(0, 7001);
}

/// Low reads while waiting: they count up five microseconds at a time and
/// time out once the timeout is reached.
proof fn lemma_low_run(e: nat, j: nat)
    requires
        e % 5 == 0,
        e <= TIMEOUT_US,
        e + 5 * j == TIMEOUT_US + 5,
    ensures
        run(EchoPoll { phase: EchoPhase::AwaitingRise, elapsed_us: e as u32 }, repeat(false, j))
            == Some(PollStep::TimedOut),
    decreases j,
{
    let levels = repeat(false, j);
    assert(levels[0] == false);
    if e < TIMEOUT_US {
        assert(levels.drop_first() =~= repeat(false, (j - 1) as nat));
        lemma_low_run(e + 5, (j - 1) as nat);
    }
}

/// An echo that stays high too long times out.
pub proof fn lemma_endless_echo_times_out(j: nat)
    requires
        5 * j <= TIMEOUT_US,
    ensures
        run(EchoPoll { phase: EchoPhase::AwaitingRise, elapsed_us: 0 }, repeat(false, j).push(true) + repeat(true, 7001))
            == Some(PollStep::TimedOut),
{
    lemma_waiting_run(0, j, repeat(true, 7001));
    lemma_high_run(0, 7001);
}

/// High reads while timing: they count up five microseconds at a time and
/// time out once the timeout is reached.
proof fn lemma_high_run(e: nat, k: nat)
    requires
        e % 5 == 0,
        e <= TIMEOUT_US,
        e + 5 * k == TIMEOUT_US + 5,
    ensures
        run(EchoPoll { phase: EchoPhase::TimingHigh, elapsed_us: e as u32 }, repeat(true, k))
            == Some(PollStep::TimedOut),
    decreases k,
{
    let levels = repeat(true, k);
    assert(levels[0] == true);
    if e < TIMEOUT_US {
        assert(levels.drop_first() =~= repeat(true, (k - 1) as nat));
        lemma_high_run(e + 5, (k - 1) as nat);
    }
}

} // verus!
