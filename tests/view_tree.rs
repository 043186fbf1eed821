use ori_core::pod::{begin_pass, end_pass, overlay, Pass, Pod, Reaction, ViewTree};
use ori_core::sink::{Discard, EventSink};
use ori_core::view_state::{Update, ViewState};

fn chain(depth: usize) -> ViewTree {
    let mut parents = vec![0];
    for i in 1..depth {
        parents.push(i - 1);
    }
    ViewTree { states: vec![ViewState::new(); depth], parents }
}

#[test]
fn press_and_release_reach_the_root() {
    // root -> container -> leaf
    let mut tree = chain(3);
    tree.run_pass(Pass::Event, &vec![Reaction::Idle, Reaction::Idle, Reaction::SetActive(true)]);
    assert!(tree.states[0].has_active());
    assert!(tree.states[1].has_active());
    assert!(tree.states[2].is_active());
    tree.run_pass(Pass::Event, &vec![Reaction::Idle, Reaction::Idle, Reaction::SetActive(false)]);
    assert!(!tree.states[0].has_active());
    assert!(!tree.states[1].has_active());
}

#[test]
fn leaf_draw_request_reaches_root_and_clears() {
    let depth = 5;
    let mut tree = chain(depth);
    let mut reactions = vec![Reaction::Idle; depth];
    reactions[depth - 1] = Reaction::RequestDraw;
    tree.run_pass(Pass::Draw, &reactions);
    assert!(tree.states[0].needs_draw());
    tree.states[0].drawn();
    assert!(!tree.states[0].needs_draw());
    tree.run_pass(Pass::Draw, &vec![Reaction::Idle; depth]);
    assert!(!tree.states[0].needs_draw());
}

#[test]
fn layout_pass_clears_layout_but_keeps_draw() {
    let mut tree = chain(2);
    tree.run_pass(Pass::Layout, &vec![Reaction::Idle; 2]);
    assert!(!tree.states[0].needs_layout());
    assert!(tree.states[0].needs_draw());
    tree.run_pass(Pass::Draw, &vec![Reaction::Idle; 2]);
    assert_eq!(tree.states[0].update(), Update::empty());
}

#[test]
fn draw_requested_during_layout_carries_to_next_frame() {
    let mut tree = chain(3);
    tree.run_pass(Pass::Draw, &vec![Reaction::Idle; 3]);
    tree.run_pass(Pass::Layout, &vec![Reaction::Idle, Reaction::RequestDraw, Reaction::Idle]);
    assert!(!tree.states[0].needs_layout());
    assert!(tree.states[0].needs_draw());
    assert!(!tree.states[2].needs_draw());
}

#[test]
fn layout_request_reaches_root_in_rebuild() {
    let mut tree = chain(3);
    tree.run_pass(Pass::Layout, &vec![Reaction::Idle; 3]);
    tree.run_pass(Pass::Draw, &vec![Reaction::Idle; 3]);
    tree.run_pass(Pass::Rebuild, &vec![Reaction::Idle, Reaction::Idle, Reaction::RequestLayout]);
    assert!(tree.states[0].needs_layout() && tree.states[0].needs_draw());
    assert!(!tree.states[0].is_hot());
    tree.run_pass(Pass::Event, &vec![Reaction::SetHot(true), Reaction::SetFocused(true), Reaction::Idle]);
    assert!(tree.states[0].is_hot());
    assert!(tree.states[1].is_focused());
}

#[test]
fn sibling_activity_stays_in_its_branch() {
    // root with two children, the second with a child of its own
    let mut tree = ViewTree { states: vec![ViewState::new(); 4], parents: vec![0, 0, 0, 2] };
    tree.run_pass(
        Pass::Event,
        &vec![Reaction::Idle, Reaction::Idle, Reaction::Idle, Reaction::SetActive(true)],
    );
    assert!(tree.states[0].has_active());
    assert!(!tree.states[1].has_active());
    assert!(tree.states[2].has_active());
}

#[test]
fn fresh_view_state_needs_layout_and_draw() {
    let state = ViewState::default();
    assert!(state.needs_layout() && state.needs_draw());
    assert_eq!(state.update().bits(), 3);
    assert!(!state.is_hot() && !state.is_focused() && !state.is_active() && !state.has_active());
}

#[test]
fn request_layout_implies_draw() {
    let mut state = ViewState::new();
    state.layed_out();
    state.drawn();
    assert_eq!(state.update().bits(), 0);
    state.request_draw();
    assert_eq!(state.update().bits(), 2);
    state.drawn();
    state.request_layout();
    assert!(state.needs_layout() && state.needs_draw());
}

#[test]
fn setters_report_changes() {
    let mut state = ViewState::new();
    assert!(state.set_hot(true));
    assert!(!state.set_hot(true));
    assert!(state.set_focused(true));
    assert!(state.set_active(true));
    assert!(state.has_active());
    assert!(!state.set_active(true));
    assert!(state.set_active(false));
    assert!(!state.has_active());
}

#[test]
fn propagate_merges_child_flags() {
    let mut parent = ViewState::new();
    parent.layed_out();
    parent.drawn();
    let mut child = ViewState::new();
    child.layed_out();
    child.set_active(true);
    end_pass(&mut parent, &child);
    assert!(parent.has_active());
    assert!(!parent.needs_layout());
    assert!(parent.needs_draw());
    begin_pass(&mut parent, Pass::Draw);
    assert!(!parent.has_active());
    assert!(!parent.needs_draw());
}

#[test]
fn update_flags_combine() {
    let mut u = Update::of_layout();
    assert!(u.contains(Update::of_layout()));
    assert!(!u.contains(Update::of_draw()));
    u.insert(Update::of_draw());
    assert_eq!(u, Update::all());
    u.remove(Update::of_layout());
    assert_eq!(u, Update::of_draw());
    assert_eq!(Update::of_layout().union(Update::of_draw()).bits(), 3);
}

#[test]
fn overlay_keeps_order_and_dispatches_topmost_first() {
    let o = overlay(vec![10, 20, 30]);
    assert_eq!(o.content.len(), 3);
    assert_eq!(o.content[0].content, 10);
    assert_eq!(o.content[2].content, 30);
    assert_eq!(o.event_order(), vec![2, 1, 0]);
    assert_eq!(Pod::<u8>::new(4).content, 4);
}

#[test]
fn dummy_sink_accepts_events() {
    let mut sink = EventSink::dummy();
    sink.emit(5u32);
    sink.emit(6u32);
    let mut other = EventSink::new(Discard::new());
    other.emit("text");
}
