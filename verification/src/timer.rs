//! The countdown state machine.
//!
//! A [`TimerState`] owns the remaining and total seconds of one phase and a
//! [`TimerMode`]. It consumes key commands and one-second ticks; it completes
//! when the remaining time reaches zero and quits when the quit command
//! arrives. Ticks are never charged while the timer is paused.

use vstd::prelude::*;

verus! {

/// Which kind of countdown a timer is running.
#[derive(PartialEq, Eq, Structural, Clone, Copy, Debug)]
pub enum Phase {
    Work,
    Break,
}

impl Phase {
    /// The label shown next to the countdown.
    pub fn label(&self) -> (r: &'static str)
        ensures
            *self == Phase::Work ==> r@ == "Work"@,
            *self == Phase::Break ==> r@ == "Break"@,
    {
        match self {
            Phase::Work => "Work",
            Phase::Break => "Break",
        }
    }
}

/// A key command recognised while a countdown owns the terminal input.
#[derive(PartialEq, Eq, Structural, Clone, Copy, Debug)]
pub enum Key {
    Quit,
    Pause,
    Resume,
    Other,
}

/// The command a typed character stands for.
pub open spec fn spec_key_of_char(c: char) -> Key {
    if c == 'q' {
        Key::Quit
    } else if c == 'p' {
        Key::Pause
    } else if c == 'r' {
        Key::Resume
    } else {
        Key::Other
    }
}

/// Maps a typed character to its command: `q` quits, `p` pauses, `r`
/// resumes, every other character is ignored.
pub fn key_of_char(c: char) -> (k: Key)
    ensures
        k == spec_key_of_char(c),
{
    if c == 'q' {
        Key::Quit
    } else if c == 'p' {
        Key::Pause
    } else if c == 'r' {
        Key::Resume
    } else {
        Key::Other
    }
}

/// Where the state machine stands: two live modes and two terminal ones.
#[derive(PartialEq, Eq, Structural, Clone, Copy, Debug)]
pub enum TimerMode {
    Running,
    Paused,
    Completed,
    Quit,
}

/// One phase's countdown state.
#[derive(PartialEq, Eq, Structural, Clone, Copy, Debug)]
pub struct TimerState {
    pub remaining_seconds: u64,
    pub total_seconds: u64,
    pub mode: TimerMode,
    pub phase: Phase,
}

/// The fresh state a phase starts in: the full duration, running.
pub open spec fn spec_new(total_seconds: u64, phase: Phase) -> TimerState {
    TimerState {
        remaining_seconds: total_seconds,
        total_seconds: total_seconds,
        mode: TimerMode::Running,
        phase: phase,
    }
}

/// What one key command does to an active state: quit always terminates,
/// pause only bites while running, resume only while paused, and any other
/// key changes nothing. The remaining time is never touched.
pub open spec fn spec_handle_key(s: TimerState, k: Key) -> TimerState {
    match k {
        Key::Quit => TimerState { mode: TimerMode::Quit, ..s },
        Key::Pause => if s.mode == TimerMode::Running {
            TimerState { mode: TimerMode::Paused, ..s }
        } else {
            s
        },
        Key::Resume => if s.mode == TimerMode::Paused {
            TimerState { mode: TimerMode::Running, ..s }
        } else {
            s
        },
        Key::Other => s,
    }
}

/// What one tick does to a running state: the last second completes the
/// phase, every earlier one lowers the remaining time by exactly one.
pub open spec fn spec_tick(s: TimerState) -> TimerState {
    if s.remaining_seconds <= 1 {
        TimerState { remaining_seconds: 0, mode: TimerMode::Completed, ..s }
    } else {
        TimerState { remaining_seconds: (s.remaining_seconds - 1) as u64, ..s }
    }
}

impl TimerState {
    /// The state invariant: a phase always has a positive duration, the
    /// remaining time never exceeds it, and the timer is completed exactly
    /// when no time remains.
    pub open spec fn wf(self) -> bool {
        &&& self.total_seconds >= 1
        &&& self.remaining_seconds <= self.total_seconds
        &&& (self.mode == TimerMode::Completed <==> self.remaining_seconds == 0)
    }

    /// Whether the timer still consumes events (running or paused).
    pub open spec fn is_active(self) -> bool {
        self.mode == TimerMode::Running || self.mode == TimerMode::Paused
    }

    /// Starts a phase of `total_seconds` seconds; zero-length phases are
    /// rejected at construction.
    pub fn new(total_seconds: u64, phase: Phase) -> (t: TimerState)
        requires
            total_seconds >= 1,
        ensures
            t == spec_new(total_seconds, phase),
            t.wf(),
    {
        TimerState {
            remaining_seconds: total_seconds,
            total_seconds: total_seconds,
            mode: TimerMode::Running,
            phase: phase,
        }
    }

    /// Whether the timer still consumes events.
    pub fn active(&self) -> (b: bool)
        ensures
            b == self.is_active(),
    {
        match self.mode {
            TimerMode::Running => true,
            TimerMode::Paused => true,
            TimerMode::Completed => false,
            TimerMode::Quit => false,
        }
    }

    /// Seconds already consumed, for a progress display.
    pub fn elapsed_seconds(&self) -> (e: u64)
        requires
            self.wf(),
        ensures
            e == self.total_seconds - self.remaining_seconds,
    {
        self.total_seconds - self.remaining_seconds
    }

    /// Applies one key command to an active timer; see [`spec_handle_key`].
    pub fn handle_key(&mut self, k: Key)
        requires
            old(self).wf(),
            old(self).is_active(),
        ensures
            *final(self) == spec_handle_key(*old(self), k),
            final(self).wf(),
            final(self).remaining_seconds == old(self).remaining_seconds,
            final(self).total_seconds == old(self).total_seconds,
            final(self).phase == old(self).phase,
            k == Key::Quit ==> final(self).mode == TimerMode::Quit,
    {
        match k {
            Key::Quit => {
                self.mode = TimerMode::Quit;
            },
            Key::Pause => {
                if self.mode == TimerMode::Running {
                    self.mode = TimerMode::Paused;
                }
            },
            Key::Resume => {
                if self.mode == TimerMode::Paused {
                    self.mode = TimerMode::Running;
                }
            },
            Key::Other => {},
        }
    }

    /// Consumes one tick of a running timer; see [`spec_tick`].
    pub fn tick(&mut self)
        requires
            old(self).wf(),
            old(self).mode == TimerMode::Running,
        ensures
            *final(self) == spec_tick(*old(self)),
            final(self).wf(),
            final(self).remaining_seconds == old(self).remaining_seconds - 1,
            final(self).total_seconds == old(self).total_seconds,
            final(self).phase == old(self).phase,
            old(self).remaining_seconds > 1 ==> final(self).mode == TimerMode::Running,
            old(self).remaining_seconds == 1 ==> final(self).mode == TimerMode::Completed,
    {
        if self.remaining_seconds <= 1 {
            self.remaining_seconds = 0;
            self.mode = TimerMode::Completed;
        } else {
            self.remaining_seconds = self.remaining_seconds - 1;
        }
    }
}

/// Splits a remaining time into the minutes and seconds a clock face shows.
pub fn time_parts(remaining_seconds: u64) -> (p: (u64, u64))
    ensures
        p.0 == remaining_seconds / 60,
        p.1 == remaining_seconds % 60,
        p.1 < 60,
        p.0 * 60 + p.1 == remaining_seconds,
{
    (remaining_seconds / 60, remaining_seconds % 60)
}

/// One thing the timer observes: a one-second tick or a key press.
#[derive(PartialEq, Eq, Structural, Clone, Copy, Debug)]
pub enum TimerEvent {
    Tick,
    Press(Key),
}

/// One step of the machine on an arbitrary event. A tick only bites while
/// running; a key press only while active; terminal states absorb everything.
pub open spec fn spec_step(s: TimerState, ev: TimerEvent) -> TimerState {
    match ev {
        TimerEvent::Tick => if s.mode == TimerMode::Running {
            spec_tick(s)
        } else {
            s
        },
        TimerEvent::Press(k) => if s.is_active() {
            spec_handle_key(s, k)
        } else {
            s
        },
    }
}

/// Folds a whole event trace through the machine, first event first.
pub open spec fn run(s: TimerState, evs: Seq<TimerEvent>) -> TimerState
    decreases evs.len(),
{
    if evs.len() == 0 {
        s
    } else {
        run(spec_step(s, evs[0]), evs.subrange(1, evs.len() as int))
    }
}

/// A trace of `n` ticks and nothing else.
pub open spec fn tick_trace(n: nat) -> Seq<TimerEvent> {
    Seq::new(n, |i: int| TimerEvent::Tick)
}

/// How many ticks a trace holds.
pub open spec fn tick_count(evs: Seq<TimerEvent>) -> nat
    decreases evs.len(),
{
    if evs.len() == 0 {
        0
    } else {
        (if evs[0] == TimerEvent::Tick { 1 as nat } else { 0 as nat })
            + tick_count(evs.subrange(1, evs.len() as int))
    }
}

/// Running a concatenated trace is running its halves in order.
pub proof fn lemma_run_append(s: TimerState, a: Seq<TimerEvent>, b: Seq<TimerEvent>)
    ensures
        run(s, a + b) == run(run(s, a), b),
    decreases a.len(),
{
    if a.len() == 0 {
        assert(a + b =~= b);
    } else {
        assert((a + b)[0] == a[0]);
        assert((a + b).subrange(1, (a + b).len() as int)
            =~= a.subrange(1, a.len() as int) + b);
        lemma_run_append(spec_step(s, a[0]), a.subrange(1, a.len() as int), b);
    }
}

/// Running a one-event trace is one step.
pub proof fn lemma_run_single(s: TimerState, ev: TimerEvent)
    ensures
        run(s, seq![ev]) == spec_step(s, ev),
{
    assert(seq![ev].subrange(1, 1) =~= Seq::<TimerEvent>::empty());
    assert(run(spec_step(s, ev), Seq::<TimerEvent>::empty()) == spec_step(s, ev));
}

/// A one-event trace holds one tick or none.
pub proof fn lemma_tick_count_single(ev: TimerEvent)
    ensures
        tick_count(seq![ev]) == (if ev == TimerEvent::Tick { 1 as nat } else { 0 as nat }),
{
    assert(seq![ev].subrange(1, 1) =~= Seq::<TimerEvent>::empty());
    assert(tick_count(Seq::<TimerEvent>::empty()) == 0);
}

/// Tick counting distributes over concatenation.
pub proof fn lemma_tick_count_append(a: Seq<TimerEvent>, b: Seq<TimerEvent>)
    ensures
        tick_count(a + b) == tick_count(a) + tick_count(b),
    decreases a.len(),
{
    if a.len() == 0 {
        assert(a + b =~= b);
    } else {
        assert((a + b)[0] == a[0]);
        assert((a + b).subrange(1, (a + b).len() as int)
            =~= a.subrange(1, a.len() as int) + b);
        lemma_tick_count_append(a.subrange(1, a.len() as int), b);
    }
}

/// A pure tick trace of length `n` holds exactly `n` ticks.
pub proof fn lemma_tick_count_of_tick_trace(n: nat)
    ensures
        tick_count(tick_trace(n)) == n,
    decreases n,
{
    if n > 0 {
        assert(tick_trace(n).subrange(1, n as int) =~= tick_trace((n - 1) as nat));
        lemma_tick_count_of_tick_trace((n - 1) as nat);
    }
}

/// From a running state, `i` ticks (at most the remaining time) lower the
/// remaining time by exactly `i`, touch nothing else, and complete the phase
/// precisely when the remaining time reaches zero.
pub proof fn lemma_ticks_count_down(s: TimerState, i: nat)
    requires
        s.wf(),
        s.mode == TimerMode::Running,
        i <= s.remaining_seconds,
    ensures
        ({
            let r = run(s, tick_trace(i));
            &&& r.remaining_seconds == s.remaining_seconds - i
            &&& r.total_seconds == s.total_seconds
            &&& r.phase == s.phase
            &&& r.wf()
            &&& r.mode == (if i < s.remaining_seconds {
                TimerMode::Running
            } else {
                TimerMode::Completed
            })
        }),
    decreases i,
{
    if i > 0 {
        assert(tick_trace(i)[0] == TimerEvent::Tick);
        assert(tick_trace(i).subrange(1, i as int) =~= tick_trace((i - 1) as nat));
        let s1 = spec_step(s, TimerEvent::Tick);
        if s.remaining_seconds == 1 {
            assert(i == 1);
            assert(run(s1, tick_trace(0)) == s1);
        } else {
            lemma_ticks_count_down(s1, (i - 1) as nat);
        }
    }
}

/// A paused timer absorbs any number of ticks unchanged: paused time is
/// never charged against the remaining seconds.
pub proof fn lemma_paused_ignores_ticks(s: TimerState, n: nat)
    ensures
        s.mode == TimerMode::Paused ==> run(s, tick_trace(n)) == s,
    decreases n,
{
    if n > 0 {
        assert(tick_trace(n)[0] == TimerEvent::Tick);
        assert(tick_trace(n).subrange(1, n as int) =~= tick_trace((n - 1) as nat));
        lemma_paused_ignores_ticks(s, (n - 1) as nat);
    }
}

/// A fresh timer of any positive duration that sees only ticks counts down
/// one second per tick and completes after exactly `total_seconds` ticks,
/// ending at zero. Instantiating `i` below the duration gives the state
/// after each intermediate tick; `i == total_seconds` gives completion.
pub proof fn lemma_uninterrupted_run(total_seconds: u64, phase: Phase, i: nat)
    requires
        total_seconds >= 1,
        i <= total_seconds,
    ensures
        ({
            let r = run(spec_new(total_seconds, phase), tick_trace(i));
            &&& r.remaining_seconds == total_seconds - i
            &&& r.mode == (if i < total_seconds {
                TimerMode::Running
            } else {
                TimerMode::Completed
            })
        }),
{
    lemma_ticks_count_down(spec_new(total_seconds, phase), i);
}

/// The trace of a run that is paused once: `before` ticks, a pause, `paused`
/// ticks that fall while paused, a resume, then `rest` more ticks.
pub open spec fn pause_trace(before: nat, paused: nat, rest: nat) -> Seq<TimerEvent> {
    tick_trace(before) + seq![TimerEvent::Press(Key::Pause)] + tick_trace(paused)
        + seq![TimerEvent::Press(Key::Resume)] + tick_trace(rest)
}

/// Pausing for `paused` ticks and resuming completes the phase after
/// `total_seconds + paused` ticks in all, and the remaining time stands
/// still for the whole paused stretch (instantiate `j` with any point of it).
pub proof fn lemma_pause_then_resume(total_seconds: u64, phase: Phase, before: nat, paused: nat, j: nat)
    requires
        total_seconds >= 1,
        before < total_seconds,
        j <= paused,
    ensures
        ({
            let s0 = spec_new(total_seconds, phase);
            let evs = pause_trace(before, paused, (total_seconds - before) as nat);
            &&& tick_count(evs) == total_seconds + paused
            &&& run(s0, evs).mode == TimerMode::Completed
            &&& run(s0, evs).remaining_seconds == 0
            &&& run(s0, tick_trace(before) + seq![TimerEvent::Press(Key::Pause)] + tick_trace(j))
                .remaining_seconds == total_seconds - before
            &&& run(s0, tick_trace(before) + seq![TimerEvent::Press(Key::Pause)] + tick_trace(j))
                .mode == TimerMode::Paused
        }),
{
    let s0 = spec_new(total_seconds, phase);
    let pause_ev = seq![TimerEvent::Press(Key::Pause)];
    let resume_ev = seq![TimerEvent::Press(Key::Resume)];
    let rest = (total_seconds - before) as nat;
    let evs = pause_trace(before, paused, rest);

    // The state after the first `before` ticks.
    lemma_ticks_count_down(s0, before);
    let s_before = run(s0, tick_trace(before));

    // Pressing pause moves it to Paused.
    lemma_run_append(s0, tick_trace(before), pause_ev);
    lemma_run_single(s_before, TimerEvent::Press(Key::Pause));
    let s_paused = run(s0, tick_trace(before) + pause_ev);
    assert(s_paused == spec_step(s_before, TimerEvent::Press(Key::Pause)));

    // Ticks while paused change nothing.
    lemma_paused_ignores_ticks(s_paused, j);
    lemma_run_append(s0, tick_trace(before) + pause_ev, tick_trace(j));
    lemma_paused_ignores_ticks(s_paused, paused);
    lemma_run_append(s0, tick_trace(before) + pause_ev, tick_trace(paused));

    // Resuming returns it to Running with the remaining time intact.
    lemma_run_append(s0, tick_trace(before) + pause_ev + tick_trace(paused), resume_ev);
    lemma_run_single(s_paused, TimerEvent::Press(Key::Resume));
    let s_resumed = run(s0, tick_trace(before) + pause_ev + tick_trace(paused) + resume_ev);
    assert(s_resumed == spec_step(s_paused, TimerEvent::Press(Key::Resume)));
    assert(s_resumed.mode == TimerMode::Running);
    assert(s_resumed.remaining_seconds == total_seconds - before);

    // The remaining ticks finish the countdown.
    lemma_run_append(s0, tick_trace(before) + pause_ev + tick_trace(paused) + resume_ev,
        tick_trace(rest));
    lemma_ticks_count_down(s_resumed, rest);
    assert(evs =~= tick_trace(before) + pause_ev + tick_trace(paused) + resume_ev
        + tick_trace(rest));

    // Count the ticks of the whole trace.
    lemma_tick_count_append(tick_trace(before), pause_ev);
    lemma_tick_count_append(tick_trace(before) + pause_ev, tick_trace(paused));
    lemma_tick_count_append(tick_trace(before) + pause_ev + tick_trace(paused), resume_ev);
    lemma_tick_count_append(tick_trace(before) + pause_ev + tick_trace(paused) + resume_ev,
        tick_trace(rest));
    lemma_tick_count_of_tick_trace(before);
    lemma_tick_count_of_tick_trace(paused);
    lemma_tick_count_of_tick_trace(rest);
    lemma_tick_count_single(TimerEvent::Press(Key::Pause));
    lemma_tick_count_single(TimerEvent::Press(Key::Resume));
}

} // verus!
