//! The phase sequencer.
//!
//! A [`Sequencer`] owns the configured work and break durations and the phase
//! that runs next. After each phase it is told how the countdown ended and
//! answers with the one action the caller must perform: record a completed
//! work session and notify, only notify, or exit without either.

use vstd::prelude::*;
use crate::timer::Phase;
use crate::timer::TimerMode;
use crate::timer::TimerState;
use crate::timer::spec_new;

verus! {

/// How a phase's countdown ended.
#[derive(PartialEq, Eq, Structural, Clone, Copy, Debug)]
pub enum PhaseOutcome {
    Completed,
    Quit,
}

/// What the caller must do after a phase ends. A completed work phase is
/// recorded and notified; a completed break phase is only notified; a quit
/// ends the whole session with neither.
#[derive(PartialEq, Eq, Structural, Clone, Copy, Debug)]
pub enum SequencerAction {
    RecordAndNotify,
    NotifyOnly,
    Exit,
}

/// The alternating work/break schedule and the phase up next.
#[derive(PartialEq, Eq, Structural, Clone, Copy, Debug)]
pub struct Sequencer {
    pub work_seconds: u64,
    pub break_seconds: u64,
    pub phase: Phase,
}

/// What ending a phase does to the schedule: a quit changes nothing and
/// exits; a completed phase flips to the other phase, recording only when
/// the completed phase was work.
pub open spec fn spec_advance(s: Sequencer, outcome: PhaseOutcome) -> (Sequencer, SequencerAction) {
    match outcome {
        PhaseOutcome::Quit => (s, SequencerAction::Exit),
        PhaseOutcome::Completed => match s.phase {
            Phase::Work => (Sequencer { phase: Phase::Break, ..s }, SequencerAction::RecordAndNotify),
            Phase::Break => (Sequencer { phase: Phase::Work, ..s }, SequencerAction::NotifyOnly),
        },
    }
}

impl Sequencer {
    /// Both configured phases last at least one second.
    pub open spec fn wf(self) -> bool {
        &&& self.work_seconds >= 1
        &&& self.break_seconds >= 1
    }

    /// The duration of the phase that runs next.
    pub open spec fn spec_current_duration(self) -> u64 {
        match self.phase {
            Phase::Work => self.work_seconds,
            Phase::Break => self.break_seconds,
        }
    }

    /// Builds a schedule from durations in minutes; the first phase is work.
    /// Durations must be positive and small enough that the second count
    /// fits a `u64`.
    pub fn new(work_minutes: u64, break_minutes: u64) -> (s: Sequencer)
        requires
            1 <= work_minutes <= u64::MAX / 60,
            1 <= break_minutes <= u64::MAX / 60,
        ensures
            s.work_seconds == work_minutes * 60,
            s.break_seconds == break_minutes * 60,
            s.phase == Phase::Work,
            s.wf(),
    {
        Sequencer {
            work_seconds: work_minutes * 60,
            break_seconds: break_minutes * 60,
            phase: Phase::Work,
        }
    }

    /// The duration of the phase that runs next.
    pub fn current_duration(&self) -> (d: u64)
        ensures
            d == self.spec_current_duration(),
    {
        match self.phase {
            Phase::Work => self.work_seconds,
            Phase::Break => self.break_seconds,
        }
    }

    /// Starts the countdown for the phase that is up next.
    pub fn start_phase(&self) -> (t: TimerState)
        requires
            self.wf(),
        ensures
            t == spec_new(self.spec_current_duration(), self.phase),
            t.wf(),
            t.remaining_seconds == self.spec_current_duration(),
            t.mode == TimerMode::Running,
            t.phase == self.phase,
    {
        TimerState::new(self.current_duration(), self.phase)
    }

    /// Consumes the outcome of the phase that just ended and says what to do;
    /// see [`spec_advance`].
    pub fn advance(&mut self, outcome: PhaseOutcome) -> (a: SequencerAction)
        requires
            old(self).wf(),
        ensures
            (*final(self), a) == spec_advance(*old(self), outcome),
            final(self).wf(),
            final(self).work_seconds == old(self).work_seconds,
            final(self).break_seconds == old(self).break_seconds,
            outcome == PhaseOutcome::Quit ==> a == SequencerAction::Exit
                && *final(self) == *old(self),
            outcome == PhaseOutcome::Completed && old(self).phase == Phase::Work
                ==> a == SequencerAction::RecordAndNotify && final(self).phase == Phase::Break,
            outcome == PhaseOutcome::Completed && old(self).phase == Phase::Break
                ==> a == SequencerAction::NotifyOnly && final(self).phase == Phase::Work,
    {
        match outcome {
            PhaseOutcome::Quit => SequencerAction::Exit,
            PhaseOutcome::Completed => match self.phase {
                Phase::Work => {
                    self.phase = Phase::Break;
                    SequencerAction::RecordAndNotify
                },
                Phase::Break => {
                    self.phase = Phase::Work;
                    SequencerAction::NotifyOnly
                },
            },
        }
    }
}

/// The outcome a terminal timer state hands the sequencer; `None` while the
/// timer is still active.
pub fn outcome_of(t: &TimerState) -> (o: Option<PhaseOutcome>)
    ensures
        t.mode == TimerMode::Completed ==> o == Some(PhaseOutcome::Completed),
        t.mode == TimerMode::Quit ==> o == Some(PhaseOutcome::Quit),
        t.is_active() ==> o is None,
{
    match t.mode {
        TimerMode::Completed => Some(PhaseOutcome::Completed),
        TimerMode::Quit => Some(PhaseOutcome::Quit),
        TimerMode::Running => None,
        TimerMode::Paused => None,
    }
}

/// A quit is silent everywhere: a quit key pressed in any active timer state,
/// at any remaining time, ends that timer in `Quit`, and the sequencer maps a
/// quit outcome to `Exit` with the schedule untouched — so neither a log
/// record nor a notification follows the interrupted phase.
pub proof fn lemma_quit_is_silent(t: TimerState, s: Sequencer)
    requires
        t.is_active(),
    ensures
        crate::timer::spec_handle_key(t, crate::timer::Key::Quit).mode == TimerMode::Quit,
        crate::timer::spec_handle_key(t, crate::timer::Key::Quit).remaining_seconds
            == t.remaining_seconds,
        spec_advance(s, PhaseOutcome::Quit) == (s, SequencerAction::Exit),
{
}

} // verus!
