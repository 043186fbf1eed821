use ori_core::reconcile::{rebuild_either, rebuild_option, update_hot, OptionRebuild};
use ori_core::view_state::ViewState;

#[test]
fn appearing_child_is_built_and_requests_layout() {
    let r = rebuild_option(true, false, false);
    assert_eq!(r, OptionRebuild { build: true, diff: false, discard: true, relayout: true });
}

#[test]
fn reappearing_child_with_leftover_state_is_built_afresh() {
    let r = rebuild_option(true, false, true);
    assert_eq!(r, OptionRebuild { build: true, diff: false, discard: true, relayout: true });
}

#[test]
fn kept_child_is_diffed_without_layout() {
    let r = rebuild_option(true, true, true);
    assert_eq!(r, OptionRebuild { build: false, diff: true, discard: false, relayout: false });
}

#[test]
fn kept_child_without_state_is_built() {
    let r = rebuild_option(true, true, false);
    assert_eq!(r, OptionRebuild { build: true, diff: false, discard: false, relayout: false });
}

#[test]
fn vanishing_child_requests_layout() {
    let r = rebuild_option(false, true, true);
    assert_eq!(r, OptionRebuild { build: false, diff: false, discard: true, relayout: true });
}

#[test]
fn changed_kind_rebuilds_from_scratch() {
    assert!(!rebuild_either(true, false, false));
    assert!(!rebuild_either(true, true, false));
}

#[test]
fn same_kind_is_diffed() {
    assert!(rebuild_either(false, false, false));
    assert!(rebuild_either(true, true, true));
}

#[test]
fn hover_follows_pointer_motion() {
    let mut state = ViewState::new();
    assert!(update_hot(&mut state, true, false, false, true));
    assert!(state.is_hot());
    assert!(!update_hot(&mut state, true, false, false, true));
    // a press does not change hover
    assert!(!update_hot(&mut state, false, false, false, false));
    assert!(state.is_hot());
    // a view above handled the motion: the pointer is no longer over this one
    assert!(update_hot(&mut state, true, false, true, true));
    assert!(!state.is_hot());
    assert!(update_hot(&mut state, true, false, false, true));
    assert!(update_hot(&mut state, true, true, false, true));
    assert!(!state.is_hot());
}
