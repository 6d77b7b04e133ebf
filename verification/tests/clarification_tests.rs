use blueprint2mod::blueprint::ElementType;
use blueprint2mod::clarification::{
    apply_correction, resolve_pending, skip_clarification, state_after_clarification, ElementTag,
};
use blueprint2mod::state::AppState;

fn tag(id: u128, element_type: ElementType) -> ElementTag {
    ElementTag { id, element_type }
}

#[test]
fn correction_updates_type_and_clears_pending() {
    let mut elements = vec![tag(1, ElementType::Wall), tag(2, ElementType::Unclassified), tag(2, ElementType::Door)];
    let mut pending = vec![2u128, 5, 2, 7];
    let previous = apply_correction(&mut elements, &mut pending, 2, ElementType::Window);
    assert_eq!(previous, Some(ElementType::Unclassified));
    assert_eq!(
        elements,
        vec![tag(1, ElementType::Wall), tag(2, ElementType::Window), tag(2, ElementType::Door)]
    );
    assert_eq!(pending, vec![5, 7]);
    assert_eq!(state_after_clarification(AppState::Clarifying, Some(&pending)), AppState::Clarifying);
}

#[test]
fn correction_for_unknown_element_changes_nothing() {
    let mut elements = vec![tag(1, ElementType::Wall)];
    let mut pending = vec![9u128];
    assert_eq!(apply_correction(&mut elements, &mut pending, 9, ElementType::Door), None);
    assert_eq!(elements, vec![tag(1, ElementType::Wall)]);
    assert_eq!(pending, vec![9]);
}

#[test]
fn skipping_resolves_and_finishing_moves_on() {
    let mut pending = vec![4u128, 4];
    resolve_pending(&mut pending, 4);
    assert!(pending.is_empty());
    assert_eq!(state_after_clarification(AppState::Clarifying, Some(&pending)), AppState::ModelReady);
    assert_eq!(state_after_clarification(AppState::Clarifying, None), AppState::ModelReady);
}

#[test]
fn skipping_marks_the_element_unclassified() {
    let mut elements = vec![tag(1, ElementType::Wall), tag(3, ElementType::Door), tag(3, ElementType::Window)];
    let mut pending = vec![3u128, 1, 3];
    skip_clarification(&mut elements, &mut pending, 3);
    assert_eq!(
        elements,
        vec![tag(1, ElementType::Wall), tag(3, ElementType::Unclassified), tag(3, ElementType::Window)]
    );
    assert_eq!(pending, vec![1]);
    let mut none = vec![tag(1, ElementType::Wall)];
    let mut pending = vec![8u128];
    skip_clarification(&mut none, &mut pending, 8);
    assert_eq!(none, vec![tag(1, ElementType::Wall)]);
    assert!(pending.is_empty());
}
