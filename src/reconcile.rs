//! What a rebuild does with children whose shape may change: an optional
//! child, a child of one of two kinds, and the hover bookkeeping of a pointer
//! event.
use vstd::prelude::*;

use crate::view_state::ViewState;

verus! {

/// What the rebuild of an optional child has to do with it.
#[derive(Clone, Copy, Debug, PartialEq, Eq, Hash, Structural)]
pub struct OptionRebuild {
    /// Build the child's state afresh.
    pub build: bool,
    /// Compare the child with its old description.
    pub diff: bool,
    /// Drop the state kept for the child: it was present before and is
    /// absent now, or the other way round.
    pub discard: bool,
    /// Request a layout once the child is dealt with.
    pub relayout: bool,
}

/// Plans the rebuild of an optional child. A child that appears or
/// disappears has its kept state dropped and requests a layout; a present
/// child is built afresh when it just appeared or has no state, and is
/// compared with its old description when it was present before too.
pub fn rebuild_option(present: bool, old_present: bool, has_state: bool) -> (r: OptionRebuild)
    ensures
        r.build == (present && (!has_state || !old_present)),
        r.diff == (present && old_present && has_state),
        r.discard == (present != old_present),
        r.relayout == (present != old_present),
{
    OptionRebuild {
        build: present && (!has_state || !old_present),
        diff: present && old_present && has_state,
        discard: present != old_present,
        relayout: present != old_present,
    }
}

/// Plans the rebuild of a child of one of two kinds: it is compared with its
/// old description (`true`) when the kind of the new description, of the old
/// one and of the kept state agree; otherwise its state is built afresh, its
/// view state starts over, and a layout is requested (`false`).
pub fn rebuild_either(is_first: bool, old_is_first: bool, state_is_first: bool) -> (r: bool)
    ensures
        r == (is_first == old_is_first && is_first == state_is_first),
{
    is_first == old_is_first && is_first == state_is_first
}

/// Updates whether a node is hot after a pointer event: the pointer is over
/// the node when it is inside it, has not left the window, and no view
/// handled the event first. Only a motion changes it. Says whether it
/// changed, so that the caller can request a draw.
pub fn update_hot(
    view_state: &mut ViewState,
    inside: bool,
    left: bool,
    handled: bool,
    motion: bool,
) -> (r: bool)
    ensures
        r == (motion && old(view_state).hot != (inside && !left && !handled)),
        r ==> *final(view_state) == (ViewState { hot: inside && !left && !handled, ..*old(view_state) }),
        !r ==> *final(view_state) == *old(view_state),
{
    let over = inside && !left && !handled;
    if over != view_state.hot && motion {
        view_state.set_hot(over)
    } else {
        false
    }
}

} // verus!
