use keylayout::InputState;

#[test]
fn press_twice_is_idempotent() {
    let mut state = InputState::new();
    state.on_key_transition(42, true);
    state.on_key_transition(42, true);
    assert!(state.contains(42));
    state.on_key_transition(42, false);
    // One release suffices: the set held the key once.
    assert!(!state.contains(42));
}

#[test]
fn release_of_unpressed_key_is_noop() {
    let mut state = InputState::new();
    state.on_key_transition(1, true);
    state.on_key_transition(2, true);
    state.on_key_transition(99, false);
    assert!(state.contains(1));
    assert!(state.contains(2));
    assert!(!state.contains(99));
}

#[test]
fn transitions_apply_in_order() {
    let mut state = InputState::new();
    state.on_key_transition(7, true);
    state.on_key_transition(8, true);
    state.on_key_transition(7, false);
    assert!(!state.contains(7));
    assert!(state.contains(8));
}

#[test]
fn shift_tracks_either_shift_code() {
    let left = 100u64;
    let right = 101u64;
    let mut state = InputState::new();
    assert!(!state.shift_active(left, right));
    state.on_key_transition(right, true);
    assert!(state.shift_active(left, right));
    state.on_key_transition(right, false);
    state.on_key_transition(left, true);
    assert!(state.shift_active(left, right));
    state.on_key_transition(left, false);
    assert!(!state.shift_active(left, right));
}
