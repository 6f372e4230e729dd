use pomodoro::clock::date_from_ymd;
use pomodoro::clock::today;
use pomodoro::log::read_all;
use pomodoro::log::record_completion;
use pomodoro::sequencer::PhaseOutcome;
use pomodoro::sequencer::Sequencer;
use pomodoro::sequencer::SequencerAction;
use pomodoro::sequencer::outcome_of;
use pomodoro::timer::Key;
use pomodoro::timer::Phase;
use pomodoro::timer::TimerMode;

#[test]
fn quit_exits_without_recording_or_notifying() {
    let mut s = Sequencer::new(25, 5);
    let mut t = s.start_phase();
    t.tick();
    t.handle_key(Key::Quit);
    let outcome = outcome_of(&t).unwrap();
    assert_eq!(outcome, PhaseOutcome::Quit);
    let action = s.advance(outcome);
    assert_eq!(action, SequencerAction::Exit);
    // The schedule is untouched: nothing was recorded or flipped.
    assert_eq!(s.phase, Phase::Work);
}

#[test]
fn completed_work_is_recorded_completed_break_is_not() {
    let mut s = Sequencer::new(25, 5);
    assert_eq!(s.current_duration(), 25 * 60);
    assert_eq!(s.advance(PhaseOutcome::Completed), SequencerAction::RecordAndNotify);
    assert_eq!(s.phase, Phase::Break);
    assert_eq!(s.current_duration(), 5 * 60);
    assert_eq!(s.advance(PhaseOutcome::Completed), SequencerAction::NotifyOnly);
    assert_eq!(s.phase, Phase::Work);
}

#[test]
fn end_to_end_one_minute_work_and_break() {
    let mut store: Option<Vec<u8>> = None;
    let d = date_from_ymd(2024, 3, 15).unwrap();
    let mut s = Sequencer::new(1, 1);

    // Work phase: sixty simulated ticks, no key events.
    let mut work = s.start_phase();
    assert_eq!(work.phase, Phase::Work);
    assert_eq!(work.remaining_seconds, 60);
    for _ in 0..60 {
        work.tick();
    }
    assert_eq!(work.mode, TimerMode::Completed);
    let action = s.advance(outcome_of(&work).unwrap());
    assert_eq!(action, SequencerAction::RecordAndNotify);
    if action == SequencerAction::RecordAndNotify {
        store = Some(record_completion(store.as_ref(), d).unwrap());
    }
    let after_work = read_all(store.as_ref()).unwrap();
    assert_eq!(after_work.len(), 1);
    assert_eq!(after_work[0].date, d);
    assert_eq!(after_work[0].work_sessions, 1);

    // Break phase starts with its own full sixty seconds.
    let mut brk = s.start_phase();
    assert_eq!(brk.phase, Phase::Break);
    assert_eq!(brk.remaining_seconds, 60);
    for _ in 0..60 {
        brk.tick();
    }
    assert_eq!(brk.mode, TimerMode::Completed);
    let action = s.advance(outcome_of(&brk).unwrap());
    assert_eq!(action, SequencerAction::NotifyOnly);

    // The break did not touch the log, and the next work phase is fresh.
    let after_break = read_all(store.as_ref()).unwrap();
    assert_eq!(after_break, after_work);
    let next_work = s.start_phase();
    assert_eq!(next_work.phase, Phase::Work);
    assert_eq!(next_work.remaining_seconds, 60);
}

#[test]
fn active_timer_has_no_outcome_yet() {
    let s = Sequencer::new(2, 1);
    let t = s.start_phase();
    assert_eq!(outcome_of(&t), None);
}

#[test]
fn clock_dates_are_validated_for_the_store() {
    assert!(date_from_ymd(2024, 2, 29).is_some());
    assert_eq!(date_from_ymd(-5, 1, 1), None);
    assert_eq!(date_from_ymd(10000, 1, 1), None);
    assert_eq!(date_from_ymd(2024, 0, 1), None);
    assert_eq!(date_from_ymd(2024, 13, 1), None);
    assert_eq!(date_from_ymd(2024, 1, 0), None);
    assert_eq!(date_from_ymd(2024, 1, 32), None);
    // The real clock reports a day the store can always carry.
    let now = today().unwrap();
    assert!(now.valid());
    assert!(now.year >= 2024);
}
