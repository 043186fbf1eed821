//! Views and the lifecycle calls that a pod mediates between a parent and
//! its child.
use vstd::prelude::*;

use crate::pod::{begin_pass, end_pass, prepared, Pass, Pod};
use crate::reconcile::{rebuild_either, rebuild_option};
use crate::view_state::{fresh, relayout, Update, ViewState};

verus! {

/// A description of part of the interface. Its persistent state lives as
/// long as its node, across rebuilds of the description.
pub trait View<T> {
    type State;

    /// `state` is a persistent state this description can run on.
    spec fn fits(&self, state: &Self::State) -> bool;

    /// What the view may make of its view state in `pass`, from `before` to
    /// `after`. A rebuild, and the build that starts a node, count as
    /// [`Pass::Rebuild`].
    spec fn reacts(&self, pass: Pass, before: ViewState, after: ViewState) -> bool;

    /// Creates the persistent state when the node enters the tree.
    fn build(&mut self, view_state: &mut ViewState, data: &mut T) -> (r: Self::State)
        ensures
            final(self).fits(&r),
            old(self).reacts(Pass::Rebuild, *old(view_state), *final(view_state)),
    ;

    /// Compares the description with the one it replaces, and leaves a state
    /// that fits it.
    fn rebuild(&mut self, state: &mut Self::State, view_state: &mut ViewState, data: &mut T, previous: &Self)
        ensures
            final(self).fits(&*final(state)),
            old(self).reacts(Pass::Rebuild, *old(view_state), *final(view_state)),
    ;

    /// Handles an event.
    fn event(&mut self, state: &mut Self::State, view_state: &mut ViewState, data: &mut T)
        requires
            old(self).fits(&*old(state)),
        ensures
            final(self).fits(&*final(state)),
            old(self).reacts(Pass::Event, *old(view_state), *final(view_state)),
    ;

    /// Lays the view out.
    fn layout(&mut self, state: &mut Self::State, view_state: &mut ViewState, data: &mut T)
        requires
            old(self).fits(&*old(state)),
        ensures
            final(self).fits(&*final(state)),
            old(self).reacts(Pass::Layout, *old(view_state), *final(view_state)),
    ;

    /// Draws the view.
    fn draw(&mut self, state: &mut Self::State, view_state: &mut ViewState, data: &mut T)
        requires
            old(self).fits(&*old(state)),
        ensures
            final(self).fits(&*final(state)),
            old(self).reacts(Pass::Draw, *old(view_state), *final(view_state)),
    ;
}

/// The state a pod keeps for its child: the child's own state and its view
/// state.
pub struct PodState<S> {
    pub content: S,
    pub view_state: ViewState,
}

/// `parent` once it took in the state `child` of a child.
pub open spec fn joined(parent: ViewState, child: ViewState) -> ViewState {
    ViewState {
        has_active: parent.has_active || child.has_active,
        update: Update {
            layout: parent.update.layout || child.update.layout,
            draw: parent.update.draw || child.update.draw,
        },
        ..parent
    }
}

impl<V> Pod<V> {
    /// Builds the child: its content starts from a fresh view state, which
    /// needs a layout and a draw, and the parent takes in where it ends.
    pub fn build<T>(&mut self, parent: &mut ViewState, data: &mut T) -> (r: PodState<V::State>) where
        V: View<T>,
        ensures
            final(self).content.fits(&r.content),
            old(self).content.reacts(Pass::Rebuild, fresh(), r.view_state),
            *final(parent) == joined(*old(parent), r.view_state),
    {
        let mut view_state = ViewState::new();
        let content = self.content.build(&mut view_state, data);
        end_pass(parent, &view_state);
        PodState { content, view_state }
    }

    /// Rebuilds the child against its old description: the pass begins on
    /// the child's view state, the content rebuilds, and the parent takes in
    /// the child's view state.
    pub fn rebuild<T>(&mut self, state: &mut PodState<V::State>, parent: &mut ViewState, data: &mut T, previous: &Self) where
        V: View<T>,
        ensures
            final(self).content.fits(&final(state).content),
            old(self).content.reacts(
                Pass::Rebuild,
                prepared(old(state).view_state, Pass::Rebuild),
                final(state).view_state,
            ),
            *final(parent) == joined(*old(parent), final(state).view_state),
    {
        begin_pass(&mut state.view_state, Pass::Rebuild);
        self.content.rebuild(&mut state.content, &mut state.view_state, data, &previous.content);
        end_pass(parent, &state.view_state);
    }

    /// Dispatches an event to the child: what its subtree has active is
    /// gathered anew, the content handles the event, and the parent takes in
    /// the child's view state.
    pub fn event<T>(&mut self, state: &mut PodState<V::State>, parent: &mut ViewState, data: &mut T) where
        V: View<T>,
        requires
            old(self).content.fits(&old(state).content),
        ensures
            final(self).content.fits(&final(state).content),
            old(self).content.reacts(
                Pass::Event,
                prepared(old(state).view_state, Pass::Event),
                final(state).view_state,
            ),
            *final(parent) == joined(*old(parent), final(state).view_state),
    {
        begin_pass(&mut state.view_state, Pass::Event);
        self.content.event(&mut state.content, &mut state.view_state, data);
        end_pass(parent, &state.view_state);
    }

    /// Lays the child out: its pending layout is taken as serviced before
    /// the content runs, and the parent takes in the child's view state.
    pub fn layout<T>(&mut self, state: &mut PodState<V::State>, parent: &mut ViewState, data: &mut T) where
        V: View<T>,
        requires
            old(self).content.fits(&old(state).content),
        ensures
            final(self).content.fits(&final(state).content),
            old(self).content.reacts(
                Pass::Layout,
                prepared(old(state).view_state, Pass::Layout),
                final(state).view_state,
            ),
            *final(parent) == joined(*old(parent), final(state).view_state),
    {
        begin_pass(&mut state.view_state, Pass::Layout);
        self.content.layout(&mut state.content, &mut state.view_state, data);
        end_pass(parent, &state.view_state);
    }

    /// Draws the child: its pending draw is taken as serviced before the
    /// content runs, and the parent takes in the child's view state.
    pub fn draw<T>(&mut self, state: &mut PodState<V::State>, parent: &mut ViewState, data: &mut T) where
        V: View<T>,
        requires
            old(self).content.fits(&old(state).content),
        ensures
            final(self).content.fits(&final(state).content),
            old(self).content.reacts(
                Pass::Draw,
                prepared(old(state).view_state, Pass::Draw),
                final(state).view_state,
            ),
            *final(parent) == joined(*old(parent), final(state).view_state),
    {
        begin_pass(&mut state.view_state, Pass::Draw);
        self.content.draw(&mut state.content, &mut state.view_state, data);
        end_pass(parent, &state.view_state);
    }
}

/// An optional child: its state is there exactly when the child is, it is
/// built afresh when the child appears, and a layout is requested, after the
/// build, when the child appears or disappears.
impl<T, V: View<T>> View<T> for Option<V> {
    type State = Option<V::State>;

    open spec fn fits(&self, state: &Self::State) -> bool {
        match (self, state) {
            (Some(v), Some(s)) => v.fits(s),
            (None, None) => true,
            _ => false,
        }
    }

    open spec fn reacts(&self, pass: Pass, before: ViewState, after: ViewState) -> bool {
        match self {
            Some(v) => if pass == Pass::Rebuild {
                exists|mid: ViewState| #[trigger]
                    v.reacts(pass, before, mid) && (after == mid || after == relayout(mid))
            } else {
                v.reacts(pass, before, after)
            },
            None => after == before || (pass == Pass::Rebuild && after == relayout(before)),
        }
    }

    fn build(&mut self, view_state: &mut ViewState, data: &mut T) -> (r: Self::State) {
        match self {
            Some(view) => Some(view.build(view_state, data)),
            None => None,
        }
    }

    fn rebuild(&mut self, state: &mut Self::State, view_state: &mut ViewState, data: &mut T, previous: &Self)
        ensures
            old(self).is_some() != previous.is_some() ==> final(view_state).update.layout
                && final(view_state).update.draw,
    {
        let plan = rebuild_option(self.is_some(), previous.is_some(), state.is_some());
        let ghost before = *view_state;
        if plan.discard || self.is_none() {
            *state = None;
        }
        match self {
            Some(view) => {
                if plan.build {
                    *state = Some(view.build(view_state, data));
                } else {
                    match (state, previous) {
                        (Some(s), Some(p)) => view.rebuild(s, view_state, data, p),
                        _ => {},
                    }
                }
            },
            None => {},
        }
        let ghost mid = *view_state;
        if plan.relayout {
            view_state.request_layout();
        }
        proof {
            if old(self).is_some() {
                assert(old(self)->Some_0.reacts(Pass::Rebuild, before, mid));
            }
        }
    }

    fn event(&mut self, state: &mut Self::State, view_state: &mut ViewState, data: &mut T) {
        match (self, state) {
            (Some(view), Some(s)) => view.event(s, view_state, data),
            _ => {},
        }
    }

    fn layout(&mut self, state: &mut Self::State, view_state: &mut ViewState, data: &mut T) {
        match (self, state) {
            (Some(view), Some(s)) => view.layout(s, view_state, data),
            _ => {},
        }
    }

    fn draw(&mut self, state: &mut Self::State, view_state: &mut ViewState, data: &mut T) {
        match (self, state) {
            (Some(view), Some(s)) => view.draw(s, view_state, data),
            _ => {},
        }
    }
}

/// A child of one of two kinds: when the kind changes, its state is built
/// afresh and then its view state starts over with a layout requested; there
/// is no comparison across kinds.
impl<T, V: View<T>, E: View<T>> View<T> for Result<V, E> {
    type State = Result<V::State, E::State>;

    open spec fn fits(&self, state: &Self::State) -> bool {
        match (self, state) {
            (Ok(v), Ok(s)) => v.fits(s),
            (Err(v), Err(s)) => v.fits(s),
            _ => false,
        }
    }

    open spec fn reacts(&self, pass: Pass, before: ViewState, after: ViewState) -> bool {
        match self {
            Ok(v) => v.reacts(pass, before, after) || (pass == Pass::Rebuild && after == fresh()),
            Err(v) => v.reacts(pass, before, after) || (pass == Pass::Rebuild && after == fresh()),
        }
    }

    fn build(&mut self, view_state: &mut ViewState, data: &mut T) -> (r: Self::State) {
        match self {
            Ok(view) => Ok(view.build(view_state, data)),
            Err(view) => Err(view.build(view_state, data)),
        }
    }

    fn rebuild(&mut self, state: &mut Self::State, view_state: &mut ViewState, data: &mut T, previous: &Self)
        ensures
            old(self).is_ok() != previous.is_ok() || old(self).is_ok() != old(state).is_ok()
                ==> *final(view_state) == fresh(),
    {
        if rebuild_either(self.is_ok(), previous.is_ok(), state.is_ok()) {
            match (self, state, previous) {
                (Ok(view), Ok(s), Ok(p)) => view.rebuild(s, view_state, data, p),
                (Err(view), Err(s), Err(p)) => view.rebuild(s, view_state, data, p),
                _ => {},
            }
        } else {
            *state = self.build(view_state, data);
            *view_state = ViewState::new();
            view_state.request_layout();
        }
    }

    fn event(&mut self, state: &mut Self::State, view_state: &mut ViewState, data: &mut T) {
        match (self, state) {
            (Ok(view), Ok(s)) => view.event(s, view_state, data),
            (Err(view), Err(s)) => view.event(s, view_state, data),
            _ => {},
        }
    }

    fn layout(&mut self, state: &mut Self::State, view_state: &mut ViewState, data: &mut T) {
        match (self, state) {
            (Ok(view), Ok(s)) => view.layout(s, view_state, data),
            (Err(view), Err(s)) => view.layout(s, view_state, data),
            _ => {},
        }
    }

    fn draw(&mut self, state: &mut Self::State, view_state: &mut ViewState, data: &mut T) {
        match (self, state) {
            (Ok(view), Ok(s)) => view.draw(s, view_state, data),
            (Err(view), Err(s)) => view.draw(s, view_state, data),
            _ => {},
        }
    }
}

/// Along a path of pods from a node down to a leaf, where each node ends as
/// its own work (`own`) joined with the end state of its child on the path,
/// as [`Pod`]'s lifecycle calls ensure, and the leaf ends as its own work:
/// the top node needs a draw, needs a layout, or has an active descendant
/// exactly when the own work of some node on the path left that flag. So a
/// leaf's draw request reaches the top, a pass in which no view requests a
/// draw leaves none there, and what is active is gathered anew each pass.
pub proof fn lemma_pod_path(own: Seq<ViewState>, ends: Seq<ViewState>)
    requires
        own.len() == ends.len(),
        own.len() > 0,
        forall|i: int| 0 <= i < ends.len() - 1 ==> #[trigger] ends[i] == joined(own[i], ends[i + 1]),
        ends.last() == own.last(),
    ensures
        ends[0].update.draw == exists|i: int| 0 <= i < own.len() && (#[trigger] own[i]).update.draw,
        ends[0].update.layout == exists|i: int| 0 <= i < own.len() && (#[trigger] own[i]).update.layout,
        ends[0].has_active == exists|i: int| 0 <= i < own.len() && (#[trigger] own[i]).has_active,
    decreases own.len(),
{
    if own.len() == 1 {
        assert(ends[0] == own[0]);
    } else {
        let o = own.drop_first();
        let e = ends.drop_first();
        assert forall|i: int| 0 <= i < e.len() - 1 implies #[trigger] e[i] == joined(o[i], e[i + 1]) by {
            assert(ends[i + 1] == joined(own[i + 1], ends[i + 2]));
        }
        lemma_pod_path(o, e);
        assert(ends[0] == joined(own[0], ends[1]));
        if exists|i: int| 0 <= i < own.len() && (#[trigger] own[i]).update.draw {
            let i = choose|i: int| 0 <= i < own.len() && (#[trigger] own[i]).update.draw;
            if i > 0 {
                assert(o[i - 1].update.draw);
            }
        }
        if exists|i: int| 0 <= i < o.len() && (#[trigger] o[i]).update.draw {
            let i = choose|i: int| 0 <= i < o.len() && (#[trigger] o[i]).update.draw;
            assert(own[i + 1].update.draw);
        }
        if exists|i: int| 0 <= i < own.len() && (#[trigger] own[i]).update.layout {
            let i = choose|i: int| 0 <= i < own.len() && (#[trigger] own[i]).update.layout;
            if i > 0 {
                assert(o[i - 1].update.layout);
            }
        }
        if exists|i: int| 0 <= i < o.len() && (#[trigger] o[i]).update.layout {
            let i = choose|i: int| 0 <= i < o.len() && (#[trigger] o[i]).update.layout;
            assert(own[i + 1].update.layout);
        }
        if exists|i: int| 0 <= i < own.len() && (#[trigger] own[i]).has_active {
            let i = choose|i: int| 0 <= i < own.len() && (#[trigger] own[i]).has_active;
            if i > 0 {
                assert(o[i - 1].has_active);
            }
        }
        if exists|i: int| 0 <= i < o.len() && (#[trigger] o[i]).has_active {
            let i = choose|i: int| 0 <= i < o.len() && (#[trigger] o[i]).has_active;
            assert(own[i + 1].has_active);
        }
    }
}

/// A pass begins on each node of a path before the node's own work: a draw
/// pass clears every pending draw and a layout pass every pending layout,
/// and what a node has active is gathered anew from its own flag. So the
/// own work of a node leaves a draw after it began a draw pass only when
/// the view requested one.
pub proof fn lemma_prepared_clears(s: ViewState, pass: Pass)
    ensures
        pass == Pass::Draw ==> !prepared(s, pass).update.draw,
        pass == Pass::Layout ==> !prepared(s, pass).update.layout,
        prepared(s, pass).has_active == s.active,
{
}

} // verus!
