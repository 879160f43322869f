use orbits::{drain_events, next_state, InputEvent, LoopState};

#[test]
fn quit_stops_the_loop() {
    assert_eq!(next_state(LoopState::Running, InputEvent::Quit), LoopState::Stopped);
}

#[test]
fn escape_stops_the_loop() {
    let e = InputEvent::KeyDown { escape: true };
    assert_eq!(next_state(LoopState::Running, e), LoopState::Stopped);
}

#[test]
fn other_keys_and_events_are_ignored() {
    let e = InputEvent::KeyDown { escape: false };
    assert_eq!(next_state(LoopState::Running, e), LoopState::Running);
    assert_eq!(next_state(LoopState::Running, InputEvent::Other), LoopState::Running);
}

#[test]
fn stopped_is_final() {
    assert_eq!(next_state(LoopState::Stopped, InputEvent::Other), LoopState::Stopped);
}

#[test]
fn draining_finds_a_late_quit() {
    let events = vec![
        InputEvent::Other,
        InputEvent::KeyDown { escape: false },
        InputEvent::Quit,
        InputEvent::Other,
    ];
    assert_eq!(drain_events(LoopState::Running, &events), LoopState::Stopped);
}

#[test]
fn draining_harmless_events_keeps_running() {
    let events = vec![InputEvent::Other, InputEvent::KeyDown { escape: false }];
    assert_eq!(drain_events(LoopState::Running, &events), LoopState::Running);
    assert_eq!(drain_events(LoopState::Running, &Vec::new()), LoopState::Running);
}
