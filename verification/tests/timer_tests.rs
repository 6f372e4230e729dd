use pomodoro::timer::Key;
use pomodoro::timer::Phase;
use pomodoro::timer::TimerMode;
use pomodoro::timer::TimerState;
use pomodoro::timer::key_of_char;
use pomodoro::timer::time_parts;

/// Drives one timer the way the interactive loop does: each wall tick is
/// charged only while the timer runs; key presses arrive between ticks at
/// the scripted wall-tick numbers. Returns the wall ticks spent and the
/// remaining seconds observed right after each key press.
fn drive(timer: &mut TimerState, keys: &[(u64, Key)]) -> (u64, Vec<u64>) {
    let mut wall_ticks: u64 = 0;
    let mut seen: Vec<u64> = Vec::new();
    while matches!(timer.mode, TimerMode::Running | TimerMode::Paused) {
        for (at, key) in keys {
            if *at == wall_ticks {
                timer.handle_key(*key);
                seen.push(timer.remaining_seconds);
            }
        }
        if matches!(timer.mode, TimerMode::Completed | TimerMode::Quit) {
            break;
        }
        if matches!(timer.mode, TimerMode::Running) {
            timer.tick();
        }
        wall_ticks += 1;
    }
    (wall_ticks, seen)
}

#[test]
fn counts_down_one_per_tick_and_completes() {
    let mut t = TimerState::new(3, Phase::Work);
    assert_eq!(t.remaining_seconds, 3);
    assert_eq!(t.total_seconds, 3);
    assert_eq!(t.mode, TimerMode::Running);
    t.tick();
    assert_eq!(t.remaining_seconds, 2);
    assert_eq!(t.mode, TimerMode::Running);
    t.tick();
    assert_eq!(t.remaining_seconds, 1);
    assert_eq!(t.mode, TimerMode::Running);
    t.tick();
    assert_eq!(t.remaining_seconds, 0);
    assert_eq!(t.mode, TimerMode::Completed);
}

#[test]
fn one_second_phase_completes_on_first_tick() {
    let mut t = TimerState::new(1, Phase::Break);
    t.tick();
    assert_eq!(t.mode, TimerMode::Completed);
    assert_eq!(t.remaining_seconds, 0);
}

#[test]
fn uninterrupted_run_takes_exactly_total_ticks() {
    let mut t = TimerState::new(90, Phase::Work);
    let (wall_ticks, _) = drive(&mut t, &[]);
    assert_eq!(t.mode, TimerMode::Completed);
    assert_eq!(t.remaining_seconds, 0);
    assert_eq!(wall_ticks, 90);
}

#[test]
fn pausing_n_ticks_adds_n_to_completion_time() {
    // Pause at wall tick 4, resume 7 wall ticks later.
    let mut t = TimerState::new(10, Phase::Work);
    let (wall_ticks, seen) = drive(&mut t, &[(4, Key::Pause), (11, Key::Resume)]);
    assert_eq!(t.mode, TimerMode::Completed);
    assert_eq!(wall_ticks, 10 + 7);
    // Remaining time right after the pause and right after the resume:
    // untouched across the paused stretch.
    assert_eq!(seen, vec![6, 6]);
}

#[test]
fn remaining_is_frozen_while_paused() {
    let mut t = TimerState::new(10, Phase::Work);
    t.tick();
    t.tick();
    assert_eq!(t.remaining_seconds, 8);
    t.handle_key(Key::Pause);
    assert_eq!(t.mode, TimerMode::Paused);
    // Paused: other keys are ignored and nothing is charged.
    t.handle_key(Key::Pause);
    t.handle_key(Key::Other);
    assert_eq!(t.mode, TimerMode::Paused);
    assert_eq!(t.remaining_seconds, 8);
    t.handle_key(Key::Resume);
    assert_eq!(t.mode, TimerMode::Running);
    assert_eq!(t.remaining_seconds, 8);
}

#[test]
fn quit_terminates_at_any_remaining_value() {
    for ticks_before_quit in [0u64, 1, 5, 9] {
        let mut t = TimerState::new(10, Phase::Work);
        for _ in 0..ticks_before_quit {
            t.tick();
        }
        t.handle_key(Key::Quit);
        assert_eq!(t.mode, TimerMode::Quit);
        assert_eq!(t.remaining_seconds, 10 - ticks_before_quit);
    }
    // Quit also bites while paused.
    let mut t = TimerState::new(10, Phase::Break);
    t.tick();
    t.handle_key(Key::Pause);
    t.handle_key(Key::Quit);
    assert_eq!(t.mode, TimerMode::Quit);
}

#[test]
fn resume_and_unknown_keys_are_noops_while_running() {
    let mut t = TimerState::new(5, Phase::Work);
    t.handle_key(Key::Resume);
    assert_eq!(t.mode, TimerMode::Running);
    t.handle_key(Key::Other);
    assert_eq!(t.mode, TimerMode::Running);
    assert_eq!(t.remaining_seconds, 5);
}

#[test]
fn keyboard_characters_map_to_commands() {
    assert_eq!(key_of_char('q'), Key::Quit);
    assert_eq!(key_of_char('p'), Key::Pause);
    assert_eq!(key_of_char('r'), Key::Resume);
    assert_eq!(key_of_char('x'), Key::Other);
    assert_eq!(key_of_char(' '), Key::Other);
}

#[test]
fn clock_face_split() {
    assert_eq!(time_parts(0), (0, 0));
    assert_eq!(time_parts(59), (0, 59));
    assert_eq!(time_parts(60), (1, 0));
    assert_eq!(time_parts(1500), (25, 0));
    assert_eq!(time_parts(3725), (62, 5));
}

#[test]
fn labels_and_progress() {
    let mut t = TimerState::new(10, Phase::Work);
    assert_eq!(t.phase.label(), "Work");
    assert_eq!(t.elapsed_seconds(), 0);
    t.tick();
    t.tick();
    t.tick();
    assert_eq!(t.elapsed_seconds(), 3);
    let b = TimerState::new(10, Phase::Break);
    assert_eq!(b.phase.label(), "Break");
    assert!(b.active());
}
