use slint_layer_support::back_key_state::{BackKey, BackKeyState, KeyPhase};

#[test]
fn observed_back_down_up_does_not_synthesize_a_press() {
    let mut state = BackKeyState::default();

    assert!(!state.observe(Some(BackKey::Back), KeyPhase::Pressed));
    assert!(!state.observe(Some(BackKey::Back), KeyPhase::Released));
}

#[test]
fn orphan_back_like_releases_synthesize_exactly_one_press() {
    for key in [BackKey::Back, BackKey::ButtonB] {
        let mut state = BackKeyState::default();

        assert!(state.observe(Some(key), KeyPhase::Released));
        assert!(state.observe(Some(key), KeyPhase::Released));
    }
}

#[test]
fn orphan_other_key_release_is_unchanged() {
    let mut state = BackKeyState::default();

    assert!(!state.observe(None, KeyPhase::Released));
}

#[test]
fn reset_forgets_observed_back_like_down_edges() {
    let mut state = BackKeyState::default();
    state.observe(Some(BackKey::Back), KeyPhase::Pressed);
    state.observe(Some(BackKey::ButtonB), KeyPhase::Pressed);

    state.reset();

    assert!(state.observe(Some(BackKey::Back), KeyPhase::Released));
    assert!(state.observe(Some(BackKey::ButtonB), KeyPhase::Released));
}

#[test]
fn presses_never_synthesize() {
    let mut state = BackKeyState::new();
    assert!(!state.observe(Some(BackKey::ButtonB), KeyPhase::Pressed));
    assert!(!state.observe(Some(BackKey::ButtonB), KeyPhase::Pressed));
    assert!(!state.observe(None, KeyPhase::Pressed));
}

#[test]
fn back_keys_are_tracked_independently() {
    let mut state = BackKeyState::default();
    assert!(!state.observe(Some(BackKey::Back), KeyPhase::Pressed));
    // The ButtonB release is an orphan even though Back is down.
    assert!(state.observe(Some(BackKey::ButtonB), KeyPhase::Released));
    // Back's press is still remembered.
    assert!(!state.observe(Some(BackKey::Back), KeyPhase::Released));
}

#[test]
fn other_keys_leave_the_state_alone() {
    let mut state = BackKeyState::default();
    state.observe(Some(BackKey::Back), KeyPhase::Pressed);
    let before = state;
    assert!(!state.observe(None, KeyPhase::Released));
    assert_eq!(state, before);
    assert!(!state.observe(Some(BackKey::Back), KeyPhase::Released));
}

#[test]
fn repeated_presses_count_once() {
    let mut state = BackKeyState::default();
    let answers: Vec<bool> = [KeyPhase::Pressed, KeyPhase::Pressed, KeyPhase::Released, KeyPhase::Released]
        .into_iter()
        .map(|phase| state.observe(Some(BackKey::Back), phase))
        .collect();
    assert_eq!(answers, vec![false, false, false, true]);
}
