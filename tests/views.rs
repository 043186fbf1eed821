use ori_core::pod::{Pass, Pod};
use ori_core::view::{PodState, View};
use ori_core::view_state::ViewState;

/// A leaf that becomes active while pressed and asks for a draw when drawn.
struct Leaf {
    pressed: bool,
}

impl View<u32> for Leaf {
    type State = u32;

    fn fits(&self, _state: &u32) -> bool {
        true
    }

    fn reacts(&self, _pass: Pass, _before: ViewState, _after: ViewState) -> bool {
        true
    }

    fn build(&mut self, _view_state: &mut ViewState, data: &mut u32) -> u32 {
        *data += 1;
        *data
    }

    fn rebuild(&mut self, _state: &mut u32, view_state: &mut ViewState, _data: &mut u32, old: &Self) {
        if self.pressed != old.pressed {
            view_state.request_draw();
        }
    }

    fn event(&mut self, _state: &mut u32, view_state: &mut ViewState, _data: &mut u32) {
        view_state.set_active(self.pressed);
    }

    fn layout(&mut self, _state: &mut u32, _view_state: &mut ViewState, _data: &mut u32) {}

    fn draw(&mut self, _state: &mut u32, view_state: &mut ViewState, _data: &mut u32) {
        if self.pressed {
            view_state.request_draw();
        }
    }
}

fn settled() -> ViewState {
    let mut state = ViewState::new();
    state.layed_out();
    state.drawn();
    state
}

#[test]
fn pod_carries_child_activity_to_parent() {
    let mut data = 0;
    let mut root = settled();
    let mut pod = Pod::new(Leaf { pressed: true });
    let mut state: PodState<u32> = pod.build(&mut root, &mut data);
    assert!(root.needs_layout());
    let mut root = settled();
    pod.event(&mut state, &mut root, &mut data);
    assert!(root.has_active());
    pod.content.pressed = false;
    let mut root = settled();
    pod.event(&mut state, &mut root, &mut data);
    assert!(!root.has_active());
}

#[test]
fn pod_draw_clears_child_flag_before_content_runs() {
    let mut data = 0;
    let mut root = settled();
    let mut pod = Pod::new(Leaf { pressed: false });
    let mut state = pod.build(&mut root, &mut data);
    let mut root = settled();
    pod.layout(&mut state, &mut root, &mut data);
    assert!(!root.needs_layout());
    assert!(root.needs_draw());
    let mut root = settled();
    pod.draw(&mut state, &mut root, &mut data);
    assert!(!root.needs_draw());
    pod.content.pressed = true;
    let mut root = settled();
    pod.draw(&mut state, &mut root, &mut data);
    assert!(root.needs_draw());
}

#[test]
fn pod_rebuild_forwards_requests() {
    let mut data = 0;
    let mut root = settled();
    let mut pod = Pod::new(Leaf { pressed: false });
    let mut state = pod.build(&mut root, &mut data);
    let old = Pod::new(Leaf { pressed: false });
    pod.content.pressed = true;
    let mut root = settled();
    pod.rebuild(&mut state, &mut root, &mut data, &old);
    assert!(root.needs_draw());
}

#[test]
fn optional_child_is_built_afresh_when_it_reappears() {
    let mut data = 0;
    let mut vs = settled();
    let mut view = Some(Leaf { pressed: false });
    let mut state = view.build(&mut vs, &mut data);
    assert_eq!(state, Some(1));
    let old = Some(Leaf { pressed: false });
    let mut gone: Option<Leaf> = None;
    gone.rebuild(&mut state, &mut vs, &mut data, &old);
    assert_eq!(state, None);
    assert!(vs.needs_layout());
    let mut back = Some(Leaf { pressed: false });
    let mut vs = settled();
    back.rebuild(&mut state, &mut vs, &mut data, &gone);
    assert_eq!(state, Some(2));
    assert!(vs.needs_layout());
}

/// A leaf whose build asks for nothing more: a forced layout must survive it.
struct Quiet;

impl View<u32> for Quiet {
    type State = ();

    fn fits(&self, _state: &()) -> bool {
        true
    }

    fn reacts(&self, _pass: Pass, _before: ViewState, _after: ViewState) -> bool {
        true
    }

    fn build(&mut self, view_state: &mut ViewState, _data: &mut u32) {
        view_state.layed_out();
        view_state.drawn();
    }

    fn rebuild(&mut self, _state: &mut (), _view_state: &mut ViewState, _data: &mut u32, _old: &Self) {}

    fn event(&mut self, _state: &mut (), _view_state: &mut ViewState, _data: &mut u32) {}

    fn layout(&mut self, _state: &mut (), _view_state: &mut ViewState, _data: &mut u32) {}

    fn draw(&mut self, _state: &mut (), _view_state: &mut ViewState, _data: &mut u32) {}
}

#[test]
fn layout_is_requested_after_the_build() {
    let mut data = 0;
    let mut vs = settled();
    let mut state: Option<()> = None;
    let mut view = Some(Quiet);
    view.rebuild(&mut state, &mut vs, &mut data, &None);
    assert_eq!(state, Some(()));
    assert!(vs.needs_layout() && vs.needs_draw());
    let mut none: Option<Quiet> = None;
    let mut vs = settled();
    none.rebuild(&mut state, &mut vs, &mut data, &None);
    assert_eq!(state, None);
    assert!(!vs.needs_layout());
}

#[test]
fn nested_pods_carry_leaf_request_to_root() {
    let mut data = 0;
    let mut root = settled();
    let mut leaf = Pod::new(Leaf { pressed: false });
    let mut leaf_state = leaf.build(&mut root, &mut data);
    let mut middle = settled();
    leaf.content.pressed = true;
    leaf.draw(&mut leaf_state, &mut middle, &mut data);
    let mut top = settled();
    ori_core::pod::end_pass(&mut top, &middle);
    assert!(top.needs_draw());
    leaf.content.pressed = false;
    let mut middle = settled();
    leaf.draw(&mut leaf_state, &mut middle, &mut data);
    let mut top = settled();
    ori_core::pod::end_pass(&mut top, &middle);
    assert!(!top.needs_draw());
}

#[test]
fn either_child_of_other_kind_is_built_afresh() {
    let mut data = 0;
    let mut vs = settled();
    let mut view: Result<Leaf, Leaf> = Ok(Leaf { pressed: false });
    let mut state = view.build(&mut vs, &mut data);
    assert_eq!(state, Ok(1));
    let old: Result<Leaf, Leaf> = Ok(Leaf { pressed: false });
    let mut other: Result<Leaf, Leaf> = Err(Leaf { pressed: false });
    let mut vs = settled();
    vs.set_hot(true);
    other.rebuild(&mut state, &mut vs, &mut data, &old);
    assert_eq!(state, Err(2));
    assert!(!vs.is_hot());
    assert!(vs.needs_layout());
    let mut same: Result<Leaf, Leaf> = Err(Leaf { pressed: true });
    let mut vs = settled();
    same.rebuild(&mut state, &mut vs, &mut data, &other);
    assert_eq!(state, Err(2));
    assert!(vs.needs_draw() && !vs.needs_layout());
}
