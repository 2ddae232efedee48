//! Button debouncing and click/hold detection on a free-running tick
//! counter. The caller reads the pin and hands its level in; the timer may
//! wrap around, so tick differences are taken modulo 2^64.
use vstd::prelude::*;

verus! {

#[derive(Debug, Clone, Copy, PartialEq, Eq, Structural)]
pub enum Edge {
    /// No change of the debounced state.
    NoChange,
    Pressed,
    Released,
}

#[derive(Debug, Clone, Copy, PartialEq, Eq, Structural)]
pub enum ButtonEvent {
    /// Nothing to report.
    NoEvent,
    /// A click sequence of this many clicks has ended.
    Clicks(u8),
    HoldTriggered,
}

/// Ticks from `since` to `now` on a wrapping 64-bit counter.
pub open spec fn ticks_between(since: u64, now: u64) -> int {
    if now >= since {
        now - since
    } else {
        now - since + 0x1_0000_0000_0000_0000
    }
}

/// Whether a pin level means "pressed".
pub open spec fn pressed_from_level(active_low: bool, level_high: bool) -> bool {
    if active_low {
        !level_high
    } else {
        level_high
    }
}

/// What a debouncer knows.
#[derive(Debug, Clone, Copy, PartialEq, Eq, Structural)]
pub struct DebounceState {
    /// The debounced state: pressed or not.
    pub stable_pressed: bool,
    /// The raw reading currently being checked.
    pub candidate_pressed: bool,
    /// Tick at which the candidate reading last changed.
    pub candidate_since: u64,
    /// How long a reading must hold to count.
    pub debounce_ticks: u64,
    pub active_low: bool,
}

/// One update of a debouncer: a changed raw reading becomes the candidate
/// and restarts the clock; a candidate that differs from the stable state
/// and has held for `debounce_ticks` becomes the stable state, which is
/// reported as an edge.
pub open spec fn debounce_step(d: DebounceState, now: u64, level_high: bool) -> (DebounceState, Edge) {
    let raw = pressed_from_level(d.active_low, level_high);
    if raw != d.candidate_pressed {
        (DebounceState { candidate_pressed: raw, candidate_since: now, ..d }, Edge::NoChange)
    } else if d.candidate_pressed != d.stable_pressed && ticks_between(d.candidate_since, now)
        >= d.debounce_ticks {
        (
            DebounceState { stable_pressed: d.candidate_pressed, ..d },
            if d.candidate_pressed {
                Edge::Pressed
            } else {
                Edge::Released
            },
        )
    } else {
        (d, Edge::NoChange)
    }
}

/// Debounces one button input.
#[derive(Clone, Copy)]
pub struct Debouncer {
    stable_pressed: bool,
    candidate_pressed: bool,
    candidate_since: u64,
    debounce_ticks: u64,
    active_low: bool,
}

impl View for Debouncer {
    type V = DebounceState;

    closed spec fn view(&self) -> DebounceState {
        DebounceState {
            stable_pressed: self.stable_pressed,
            candidate_pressed: self.candidate_pressed,
            candidate_since: self.candidate_since,
            debounce_ticks: self.debounce_ticks,
            active_low: self.active_low,
        }
    }
}

/// Whether a pin level means "pressed".
fn read_pressed(active_low: bool, level_high: bool) -> (p: bool)
    ensures
        p == pressed_from_level(active_low, level_high),
{
    if active_low {
        !level_high
    } else {
        level_high
    }
}

impl Debouncer {
    /// Create a debouncer from the pin's level read once at construction, at
    /// tick `now`: that reading seeds the stable state, so the first `update`
    /// reports no spurious edge.
    pub fn new(level_high: bool, active_low: bool, debounce_ticks: u64, now: u64) -> (d: Self)
        ensures
            d@ == (DebounceState {
                stable_pressed: pressed_from_level(active_low, level_high),
                candidate_pressed: pressed_from_level(active_low, level_high),
                candidate_since: now,
                debounce_ticks,
                active_low,
            }),
            d@.stable_pressed == (level_high != active_low),
    {
        let mut this = Debouncer {
            stable_pressed: false,
            candidate_pressed: false,
            candidate_since: now,
            debounce_ticks,
            active_low,
        };
        let pressed = read_pressed(this.active_low, level_high);
        this.stable_pressed = pressed;
        this.candidate_pressed = pressed;
        this
    }

    /// Account for the pin's level read at tick `now`.
    pub fn update(&mut self, now: u64, level_high: bool) -> (e: Edge)
        ensures
            (final(self)@, e) == debounce_step(old(self)@, now, level_high),
            // a reading that has held for the debounce time is accepted
            (level_high != old(self)@.active_low) == old(self)@.candidate_pressed
                && old(self)@.candidate_pressed != old(self)@.stable_pressed
                && ticks_between(old(self)@.candidate_since, now) >= old(self)@.debounce_ticks
                ==> final(self)@.stable_pressed == old(self)@.candidate_pressed && e != Edge::NoChange,
    {
        let raw_pressed = read_pressed(self.active_low, level_high);

        if raw_pressed != self.candidate_pressed {
            // raw reading changed
            self.candidate_pressed = raw_pressed;
            self.candidate_since = now;
            return Edge::NoChange;
        }
        if self.candidate_pressed != self.stable_pressed && now.wrapping_sub(self.candidate_since)
            >= self.debounce_ticks {
            // the candidate has held long enough to count
            self.stable_pressed = self.candidate_pressed;
            return if self.stable_pressed {
                Edge::Pressed
            } else {
                Edge::Released
            };
        }
        Edge::NoChange
    }

    pub fn is_pressed(&self) -> (p: bool)
        ensures
            p == self@.stable_pressed,
    {
        self.stable_pressed
    }
}

/// An edge is reported exactly when the debounced state changes, and it names
/// the new state.
pub proof fn lemma_edge_iff_state_change(d: DebounceState, now: u64, level_high: bool)
    ensures
        ({
            let (d2, e) = debounce_step(d, now, level_high);
            &&& (e == Edge::Pressed) == (!d.stable_pressed && d2.stable_pressed)
            &&& (e == Edge::Released) == (d.stable_pressed && !d2.stable_pressed)
            &&& (e == Edge::NoChange) == (d2.stable_pressed == d.stable_pressed)
        }),
{
}

/// A button is pressed when its level is the active one: low for an
/// active-low input, high for an active-high one; the two levels always mean
/// opposite states.
pub proof fn lemma_pressed_follows_level(active_low: bool, level_high: bool)
    ensures
        !active_low ==> pressed_from_level(active_low, level_high) == level_high,
        active_low ==> pressed_from_level(active_low, level_high) == !level_high,
        pressed_from_level(active_low, level_high) != pressed_from_level(active_low, !level_high),
{
}

/// A reading that differs from the debounced state and has held for at
/// least the debounce time (not only exactly that long) is accepted at any
/// update, and reported as the edge towards it.
pub proof fn lemma_held_reading_is_accepted(d: DebounceState, now: u64, level_high: bool)
    requires
        (level_high != d.active_low) == d.candidate_pressed,
        d.candidate_pressed != d.stable_pressed,
        ticks_between(d.candidate_since, now) >= d.debounce_ticks,
    ensures
        debounce_step(d, now, level_high).0.stable_pressed == d.candidate_pressed,
        debounce_step(d, now, level_high).1 == if d.candidate_pressed {
            Edge::Pressed
        } else {
            Edge::Released
        },
{
}

/// No edge is reported unless the reading has held steady for the debounce
/// time: a bounce shorter than that never reaches the debounced state.
pub proof fn lemma_no_edge_before_debounce_time(d: DebounceState, now: u64, level_high: bool)
    requires
        ticks_between(d.candidate_since, now) < d.debounce_ticks,
    ensures
        debounce_step(d, now, level_high).1 == Edge::NoChange,
        debounce_step(d, now, level_high).0.stable_pressed == d.stable_pressed,
{
}

/// A reading that differs from the candidate only restarts the clock: it is
/// never reported at once, however long the previous candidate held.
pub proof fn lemma_change_restarts_clock(d: DebounceState, now: u64, level_high: bool)
    requires
        pressed_from_level(d.active_low, level_high) != d.candidate_pressed,
    ensures
        debounce_step(d, now, level_high) == (
            DebounceState {
                candidate_pressed: pressed_from_level(d.active_low, level_high),
                candidate_since: now,
                ..d
            },
            Edge::NoChange,
        ),
{
}

// ---------------------------------------------------------------------------
// Click sequences and holds
// ---------------------------------------------------------------------------

/// What a button monitor knows.
#[derive(Debug, Clone, Copy, PartialEq, Eq, Structural)]
pub struct ButtonState {
    pub debouncer: DebounceState,
    pub click_count: u8,
    pub press_started: Option<u64>,
    pub last_release: Option<u64>,
    pub hold_fired: bool,
    /// Max ticks between a release and the next press for it to count as
    /// part of the same click sequence.
    pub multi_click_window_ticks: u64,
    /// Ticks of continuous press before `HoldTriggered` fires.
    pub hold_ticks: u64,
}

/// A press at `now` continues the current click sequence.
pub open spec fn within_click_window(b: ButtonState, now: u64) -> bool {
    match b.last_release {
        Some(t) => ticks_between(t, now) <= b.multi_click_window_ticks,
        None => false,
    }
}

/// The monitor after the debouncer's edge has been taken into account.
pub open spec fn after_edge(b: ButtonState, now: u64, level_high: bool) -> ButtonState {
    let (d2, edge) = debounce_step(b.debouncer, now, level_high);
    match edge {
        Edge::Pressed => ButtonState {
            debouncer: d2,
            press_started: Some(now),
            hold_fired: false,
            click_count: if within_click_window(b, now) {
                (b.click_count + 1) as u8
            } else {
                1
            },
            ..b
        },
        Edge::Released => ButtonState {
            debouncer: d2,
            last_release: Some(now),
            press_started: None,
            ..b
        },
        Edge::NoChange => ButtonState { debouncer: d2, ..b },
    }
}

/// This update would press the button once more than a click count can hold.
pub open spec fn click_count_overflows(b: ButtonState, now: u64, level_high: bool) -> bool {
    &&& debounce_step(b.debouncer, now, level_high).1 == Edge::Pressed
    &&& within_click_window(b, now)
    &&& b.click_count == 255
}

/// A press in progress has lasted `hold_ticks` without firing its hold yet.
pub open spec fn hold_due(b: ButtonState, now: u64) -> bool {
    match b.press_started {
        Some(start) => !b.hold_fired && ticks_between(start, now) >= b.hold_ticks,
        None => false,
    }
}

/// The last release lies further back than the click window.
pub open spec fn click_window_closed(b: ButtonState, now: u64) -> bool {
    match b.last_release {
        Some(last) => ticks_between(last, now) > b.multi_click_window_ticks,
        None => false,
    }
}

/// One update of a button monitor: a press held for `hold_ticks` fires one
/// `HoldTriggered` (and cancels the click sequence); otherwise, once the
/// button has stayed released past the click window, the sequence of clicks
/// is reported.
pub open spec fn button_step(b: ButtonState, now: u64, level_high: bool) -> (ButtonState, ButtonEvent) {
    let b1 = after_edge(b, now, level_high);
    if hold_due(b1, now) {
        (ButtonState { hold_fired: true, click_count: 0, ..b1 }, ButtonEvent::HoldTriggered)
    } else if b1.click_count > 0 && !b1.debouncer.stable_pressed && click_window_closed(b1, now) {
        (ButtonState { click_count: 0, ..b1 }, ButtonEvent::Clicks(b1.click_count))
    } else {
        (b1, ButtonEvent::NoEvent)
    }
}

/// Wraps a debouncer to detect click sequences and holds.
pub struct ButtonMonitor {
    debouncer: Debouncer,
    click_count: u8,
    press_started: Option<u64>,
    last_release: Option<u64>,
    hold_fired: bool,
    multi_click_window_ticks: u64,
    hold_ticks: u64,
}

impl View for ButtonMonitor {
    type V = ButtonState;

    closed spec fn view(&self) -> ButtonState {
        ButtonState {
            debouncer: self.debouncer@,
            click_count: self.click_count,
            press_started: self.press_started,
            last_release: self.last_release,
            hold_fired: self.hold_fired,
            multi_click_window_ticks: self.multi_click_window_ticks,
            hold_ticks: self.hold_ticks,
        }
    }
}

impl ButtonMonitor {
    /// Create a monitor from the pin's level read once at construction, at
    /// tick `now`.
    pub fn new(
        level_high: bool,
        active_low: bool,
        debounce_ticks: u64,
        multi_click_window_ticks: u64,
        hold_ticks: u64,
        now: u64,
    ) -> (m: Self)
        ensures
            m@ == (ButtonState {
                debouncer: DebounceState {
                    stable_pressed: pressed_from_level(active_low, level_high),
                    candidate_pressed: pressed_from_level(active_low, level_high),
                    candidate_since: now,
                    debounce_ticks,
                    active_low,
                },
                click_count: 0,
                press_started: None,
                last_release: None,
                hold_fired: false,
                multi_click_window_ticks,
                hold_ticks,
            }),
    {
        ButtonMonitor {
            debouncer: Debouncer::new(level_high, active_low, debounce_ticks, now),
            click_count: 0,
            press_started: None,
            last_release: None,
            hold_fired: false,
            multi_click_window_ticks,
            hold_ticks,
        }
    }

    /// Whether an update with this level at tick `now` would press the
    /// button once more than a click count can hold (256 clicks within the
    /// click window of one another).
    pub fn press_would_overflow(&self, now: u64, level_high: bool) -> (b: bool)
        ensures
            b == click_count_overflows(self@, now, level_high),
    {
        let mut probe = self.debouncer;
        let edge = probe.update(now, level_high);
        let within_window = match self.last_release {
            Some(t) => now.wrapping_sub(t) <= self.multi_click_window_ticks,
            None => false,
        };
        edge == Edge::Pressed && within_window && self.click_count == 255
    }

    /// Account for the pin's level read at tick `now`.
    pub fn update(&mut self, now: u64, level_high: bool) -> (ev: ButtonEvent)
        requires
            !click_count_overflows(old(self)@, now, level_high),
        ensures
            (final(self)@, ev) == button_step(old(self)@, now, level_high),
            (old(self)@.press_started is Some ==> old(self)@.debouncer.stable_pressed) ==> (
            final(self)@.press_started is Some ==> final(self)@.debouncer.stable_pressed),
            (old(self)@.press_started is Some ==> old(self)@.debouncer.stable_pressed) && ev
                == ButtonEvent::HoldTriggered ==> final(self)@.debouncer.stable_pressed,
    {
        match self.debouncer.update(now, level_high) {
            Edge::Pressed => {
                self.press_started = Some(now);
                self.hold_fired = false;
                let within_window = match self.last_release {
                    Some(t) => now.wrapping_sub(t) <= self.multi_click_window_ticks,
                    None => false,
                };
                self.click_count = if within_window {
                    self.click_count + 1
                } else {
                    1
                };
            },
            Edge::Released => {
                self.last_release = Some(now);
                self.press_started = None;
            },
            Edge::NoChange => {},
        }
        if let Some(start) = self.press_started {
            if !self.hold_fired && now.wrapping_sub(start) >= self.hold_ticks {
                self.hold_fired = true;
                // a hold is not also a click
                self.click_count = 0;
                return ButtonEvent::HoldTriggered;
            }
        }
        if self.click_count > 0 && !self.debouncer.is_pressed() {
            if let Some(last_release) = self.last_release {
                if now.wrapping_sub(last_release) > self.multi_click_window_ticks {
                    let n = self.click_count;
                    self.click_count = 0;
                    return ButtonEvent::Clicks(n);
                }
            }
        }
        ButtonEvent::NoEvent
    }
}

/// A click report counts at least one click, ends the sequence, and comes
/// only while the button is released and once the click window after the
/// last release has passed.
pub proof fn lemma_clicks_end_sequence(b: ButtonState, now: u64, level_high: bool, n: u8)
    requires
        button_step(b, now, level_high).1 == ButtonEvent::Clicks(n),
    ensures
        n >= 1,
        button_step(b, now, level_high).0.click_count == 0,
        !button_step(b, now, level_high).0.debouncer.stable_pressed,
        click_window_closed(button_step(b, now, level_high).0, now),
{
}

/// A hold is reported only while the button is held down: as long as a press
/// in progress always means the debounced state is pressed (true of a new
/// monitor, which has none), every update keeps it so, a release ends the
/// press in progress, and a `HoldTriggered` comes only with the button
/// pressed.
pub proof fn lemma_hold_only_while_pressed(b: ButtonState, now: u64, level_high: bool)
    requires
        b.press_started is Some ==> b.debouncer.stable_pressed,
    ensures
        button_step(b, now, level_high).0.press_started is Some ==> button_step(
            b,
            now,
            level_high,
        ).0.debouncer.stable_pressed,
        debounce_step(b.debouncer, now, level_high).1 == Edge::Released ==> button_step(
            b,
            now,
            level_high,
        ).0.press_started is None,
        button_step(b, now, level_high).1 == ButtonEvent::HoldTriggered ==> button_step(
            b,
            now,
            level_high,
        ).0.debouncer.stable_pressed,
{
    lemma_edge_iff_state_change(b.debouncer, now, level_high);
}

/// A debounced press starts a press in progress at that tick, with its hold
/// not yet fired (unless holds fire at once); it continues the click
/// sequence if it comes within the click window of the last release, and
/// otherwise starts a new sequence of one click.
pub proof fn lemma_press_starts_press(b: ButtonState, now: u64, level_high: bool)
    requires
        debounce_step(b.debouncer, now, level_high).1 == Edge::Pressed,
        b.hold_ticks > 0,
        !click_count_overflows(b, now, level_high),
    ensures
        button_step(b, now, level_high).0.press_started == Some(now),
        !button_step(b, now, level_high).0.hold_fired,
        button_step(b, now, level_high).1 == ButtonEvent::NoEvent,
        button_step(b, now, level_high).0.click_count == match b.last_release {
            Some(t) => if ticks_between(t, now) <= b.multi_click_window_ticks {
                b.click_count + 1
            } else {
                1
            },
            None => 1,
        },
{
    lemma_edge_iff_state_change(b.debouncer, now, level_high);
}

/// While the button stays down, the hold fires exactly when the press has
/// lasted `hold_ticks`, if it has not fired yet.
pub proof fn lemma_hold_fires_after_hold_ticks(b: ButtonState, now: u64, level_high: bool, start: u64)
    requires
        debounce_step(b.debouncer, now, level_high).1 == Edge::NoChange,
        b.press_started == Some(start),
        !b.hold_fired,
    ensures
        (button_step(b, now, level_high).1 == ButtonEvent::HoldTriggered) == (ticks_between(start, now)
            >= b.hold_ticks),
        ticks_between(start, now) >= b.hold_ticks ==> button_step(b, now, level_high).0.click_count == 0
            && button_step(b, now, level_high).0.hold_fired,
{
}

/// While the button stays up with clicks pending, the clicks are reported,
/// all of them, exactly once the last release lies further back than the
/// click window.
pub proof fn lemma_clicks_reported_after_window(b: ButtonState, now: u64, level_high: bool, last: u64)
    requires
        debounce_step(b.debouncer, now, level_high).1 == Edge::NoChange,
        !b.debouncer.stable_pressed,
        b.press_started is None,
        b.click_count > 0,
        b.last_release == Some(last),
    ensures
        ticks_between(last, now) > b.multi_click_window_ticks ==> button_step(b, now, level_high).1
            == ButtonEvent::Clicks(b.click_count) && button_step(b, now, level_high).0.click_count == 0,
        ticks_between(last, now) <= b.multi_click_window_ticks ==> button_step(b, now, level_high).1
            == ButtonEvent::NoEvent && button_step(b, now, level_high).0.click_count == b.click_count,
{
    lemma_edge_iff_state_change(b.debouncer, now, level_high);
}

/// A hold fires at most once per press: once it has fired, only a new press
/// can fire it again.
pub proof fn lemma_hold_fires_once_per_press(b: ButtonState, now: u64, level_high: bool)
    requires
        b.hold_fired,
        debounce_step(b.debouncer, now, level_high).1 != Edge::Pressed,
    ensures
        button_step(b, now, level_high).1 != ButtonEvent::HoldTriggered,
{
}

/// A hold cancels the click sequence: with no clicks pending and no new
/// press, no click report follows.
pub proof fn lemma_no_clicks_without_press(b: ButtonState, now: u64, level_high: bool)
    requires
        b.click_count == 0,
        debounce_step(b.debouncer, now, level_high).1 != Edge::Pressed,
    ensures
        !(button_step(b, now, level_high).1 is Clicks),
{
}

/// Firing a hold clears the pending clicks.
pub proof fn lemma_hold_clears_clicks(b: ButtonState, now: u64, level_high: bool)
    requires
        button_step(b, now, level_high).1 == ButtonEvent::HoldTriggered,
    ensures
        button_step(b, now, level_high).0.click_count == 0,
        button_step(b, now, level_high).0.hold_fired,
{
}

// ---------------------------------------------------------------------------
// What a click report counts, across updates
// ---------------------------------------------------------------------------

/// One update of a button monitor as seen from outside: when it happened,
/// the debounced edge it saw, and the event it reported.
#[derive(Debug, Clone, Copy, PartialEq, Eq, Structural)]
pub struct ButtonStep {
    pub now: u64,
    pub edge: Edge,
    pub event: ButtonEvent,
}

/// The monitor after the updates `inputs` (tick, pin level), in order.
pub open spec fn run_buttons(b: ButtonState, inputs: Seq<(u64, bool)>) -> ButtonState
    decreases inputs.len(),
{
    if inputs.len() == 0 {
        b
    } else {
        button_step(run_buttons(b, inputs.drop_last()), inputs.last().0, inputs.last().1).0
    }
}

/// The edges and events of the updates `inputs`, in order.
pub open spec fn button_trace(b: ButtonState, inputs: Seq<(u64, bool)>) -> Seq<ButtonStep>
    decreases inputs.len(),
{
    if inputs.len() == 0 {
        Seq::empty()
    } else {
        let prev = run_buttons(b, inputs.drop_last());
        let (now, level) = inputs.last();
        button_trace(b, inputs.drop_last()).push(
            ButtonStep {
                now,
                edge: debounce_step(prev.debouncer, now, level).1,
                event: button_step(prev, now, level).1,
            },
        )
    }
}

/// None of the updates `inputs` presses the button once more than a click
/// count can hold.
pub open spec fn runs_without_overflow(b: ButtonState, inputs: Seq<(u64, bool)>) -> bool
    decreases inputs.len(),
{
    inputs.len() == 0 || (runs_without_overflow(b, inputs.drop_last()) && !click_count_overflows(
        run_buttons(b, inputs.drop_last()),
        inputs.last().0,
        inputs.last().1,
    ))
}

/// Tick of the last release in a trace.
pub open spec fn last_release_time(tr: Seq<ButtonStep>) -> Option<u64>
    decreases tr.len(),
{
    if tr.len() == 0 {
        None
    } else if tr.last().edge == Edge::Released {
        Some(tr.last().now)
    } else {
        last_release_time(tr.drop_last())
    }
}

/// Step `i` of the trace is a press that begins a new click sequence: no
/// release before it, or the last release more than `window` ticks before.
pub open spec fn starts_sequence(tr: Seq<ButtonStep>, i: int, window: u64) -> bool {
    &&& tr[i].edge == Edge::Pressed
    &&& match last_release_time(tr.take(i)) {
        None => true,
        Some(r) => ticks_between(r, tr[i].now) > window,
    }
}

/// Step `i` reported a hold or a click sequence, which ends the sequence.
pub open spec fn ends_sequence(tr: Seq<ButtonStep>, i: int) -> bool {
    tr[i].event is HoldTriggered || tr[i].event is Clicks
}

/// Where the click sequence in progress after the trace begins: just after
/// the last step that reported a hold or clicks, or at the last press that
/// began a new sequence, whichever is later.
pub open spec fn sequence_start(tr: Seq<ButtonStep>, window: u64) -> int
    decreases tr.len(),
{
    if tr.len() == 0 {
        0
    } else if ends_sequence(tr, tr.len() - 1) {
        tr.len() as int
    } else if starts_sequence(tr, tr.len() - 1, window) {
        tr.len() - 1
    } else {
        sequence_start(tr.drop_last(), window)
    }
}

/// Number of debounced presses in a trace.
pub open spec fn count_presses(tr: Seq<ButtonStep>) -> nat
    decreases tr.len(),
{
    if tr.len() == 0 {
        0
    } else {
        count_presses(tr.drop_last()) + if tr.last().edge == Edge::Pressed { 1nat } else { 0nat }
    }
}

proof fn lemma_count_presses_push_skip(tr: Seq<ButtonStep>, st: ButtonStep, s: int)
    requires
        0 <= s <= tr.len(),
    ensures
        count_presses(tr.push(st).skip(s)) == count_presses(tr.skip(s)) + if st.edge == Edge::Pressed { 1nat } else { 0nat },
{
    assert(tr.push(st).skip(s).drop_last() =~= tr.skip(s));
    assert(tr.push(st).skip(s).last() == st);
}

/// Along any run from a monitor with no click sequence and no release yet,
/// the pending click count is the number of presses since the sequence in
/// progress began.
proof fn lemma_click_count_tracks_presses(b: ButtonState, inputs: Seq<(u64, bool)>)
    requires
        b.click_count == 0,
        b.last_release is None,
        runs_without_overflow(b, inputs),
    ensures
        ({
            let s = run_buttons(b, inputs);
            let tr = button_trace(b, inputs);
            let w = b.multi_click_window_ticks;
            &&& tr.len() == inputs.len()
            &&& s.multi_click_window_ticks == w
            &&& s.last_release == last_release_time(tr)
            &&& 0 <= sequence_start(tr, w) <= tr.len()
            &&& s.click_count == count_presses(tr.skip(sequence_start(tr, w)))
        }),
    decreases inputs.len(),
{
    let w = b.multi_click_window_ticks;
    let tr = button_trace(b, inputs);
    if inputs.len() == 0 {
        assert(tr.skip(0) =~= Seq::<ButtonStep>::empty());
    } else {
        let pre = inputs.drop_last();
        lemma_click_count_tracks_presses(b, pre);
        let prev = run_buttons(b, pre);
        let ptr = button_trace(b, pre);
        let (now, level) = inputs.last();
        let st = tr.last();
        assert(tr == ptr.push(st));
        assert(tr.drop_last() =~= ptr);
        assert(tr.take(tr.len() - 1) =~= ptr);
        let ps = sequence_start(ptr, w);
        lemma_count_presses_push_skip(ptr, st, ps);
        let edge = debounce_step(prev.debouncer, now, level).1;
        let b1 = after_edge(prev, now, level);
        let s = run_buttons(b, inputs);
        assert(s == button_step(prev, now, level).0);
        assert(st == ButtonStep { now, edge, event: button_step(prev, now, level).1 });
        assert(tr[tr.len() - 1] == st);
        assert(!click_count_overflows(prev, now, level));
        if ends_sequence(tr, tr.len() - 1) {
            assert(s.click_count == 0);
            assert(tr.skip(tr.len() as int) =~= Seq::<ButtonStep>::empty());
        } else {
            assert(s == b1);
            if edge == Edge::Pressed {
                assert(within_click_window(prev, now) == !starts_sequence(tr, tr.len() - 1, w));
                if starts_sequence(tr, tr.len() - 1, w) {
                    assert(tr.skip(tr.len() - 1) =~= seq![st]);
                    assert(seq![st].drop_last() =~= Seq::<ButtonStep>::empty());
                    assert(count_presses(Seq::<ButtonStep>::empty()) == 0);
                    assert(seq![st].last() == st && seq![st].len() == 1);
                    assert(count_presses(seq![st]) == 1);
                    assert(s.click_count == 1);
                } else {
                    assert(prev.click_count < 255);
                    assert(s.click_count == prev.click_count + 1);
                }
            } else {
                assert(!starts_sequence(tr, tr.len() - 1, w));
                assert(s.click_count == prev.click_count);
            }
        }
    }
}

/// A click report counts exactly the debounced presses of the sequence it
/// ends: those since the last hold or click report, or since the last press
/// that came more than the click window after the release before it (that
/// press included), whichever is later. This holds along any run from a
/// freshly created monitor in which no click count overflows.
pub proof fn lemma_clicks_count_presses_of_sequence(b: ButtonState, inputs: Seq<(u64, bool)>, n: u8)
    requires
        b.click_count == 0,
        b.last_release is None,
        runs_without_overflow(b, inputs),
        inputs.len() > 0,
        button_trace(b, inputs).last().event == ButtonEvent::Clicks(n),
    ensures
        ({
            let prev = button_trace(b, inputs).drop_last();
            n == count_presses(prev.skip(sequence_start(prev, b.multi_click_window_ticks)))
        }),
{
    let pre = inputs.drop_last();
    lemma_click_count_tracks_presses(b, pre);
    let tr = button_trace(b, inputs);
    assert(tr.drop_last() =~= button_trace(b, pre));
}

} // verus!
