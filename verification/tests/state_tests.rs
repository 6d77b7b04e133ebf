use blueprint2mod::state::AppState;

#[test]
fn valid_transitions() {
    assert!(AppState::Welcome.can_transition_to(&AppState::Cropping));
    assert!(AppState::Cropping.can_transition_to(&AppState::ImageLoaded));
    assert!(AppState::ImageLoaded.can_transition_to(&AppState::Scaled));
    assert!(AppState::Scaled.can_transition_to(&AppState::Analyzing));
    assert!(AppState::Analyzed.can_transition_to(&AppState::Clarifying));
    assert!(AppState::Analyzed.can_transition_to(&AppState::ModelReady));
    assert!(AppState::ModelReady.can_transition_to(&AppState::Exported));
}

#[test]
fn invalid_transitions() {
    assert!(!AppState::Welcome.can_transition_to(&AppState::Exported));
    assert!(!AppState::Exported.can_transition_to(&AppState::Welcome));
    assert!(!AppState::ImageLoaded.can_transition_to(&AppState::Analyzed));
    assert!(!AppState::Welcome.can_transition_to(&AppState::ImageLoaded));
}

#[test]
fn save_permitted_from_scaled_onward() {
    assert!(!AppState::Welcome.can_save());
    assert!(!AppState::ImageLoaded.can_save());
    assert!(AppState::Scaled.can_save());
    assert!(AppState::Analyzed.can_save());
    assert!(AppState::Exported.can_save());
}

const ALL_STATES: [AppState; 9] = [
    AppState::Welcome,
    AppState::Cropping,
    AppState::ImageLoaded,
    AppState::Scaled,
    AppState::Analyzing,
    AppState::Analyzed,
    AppState::Clarifying,
    AppState::ModelReady,
    AppState::Exported,
];

#[test]
fn transition_table_has_exactly_twelve_edges() {
    let mut count = 0;
    for a in ALL_STATES.iter() {
        for b in ALL_STATES.iter() {
            if a.can_transition_to(b) {
                count += 1;
            }
        }
    }
    assert_eq!(count, 12);
}

#[test]
fn rerun_and_reexport_edges_exist() {
    assert!(AppState::Analyzing.can_transition_to(&AppState::Analyzed));
    assert!(AppState::Clarifying.can_transition_to(&AppState::Clarifying));
    assert!(AppState::Clarifying.can_transition_to(&AppState::ModelReady));
    assert!(AppState::ModelReady.can_transition_to(&AppState::Analyzing));
    assert!(AppState::Exported.can_transition_to(&AppState::Analyzing));
    assert!(!AppState::Analyzing.can_transition_to(&AppState::Scaled));
}

#[test]
fn saving_stays_available_along_every_transition() {
    for a in ALL_STATES.iter() {
        for b in ALL_STATES.iter() {
            if a.can_save() && a.can_transition_to(b) {
                assert!(b.can_save(), "{:?} -> {:?}", a, b);
            }
        }
    }
}

#[test]
fn welcome_is_never_reentered() {
    for a in ALL_STATES.iter() {
        assert!(!a.can_transition_to(&AppState::Welcome));
    }
}

#[test]
fn cropping_and_image_loaded_cannot_save() {
    assert!(!AppState::Cropping.can_save());
    assert!(AppState::Analyzing.can_save());
    assert!(AppState::Clarifying.can_save());
    assert!(AppState::ModelReady.can_save());
}
