//! Per-node view state: interaction flags and the pending-work flags that
//! travel from children to parents.
use vstd::prelude::*;

verus! {

/// The work a view still needs: a layout, a draw, or both.
#[derive(Clone, Copy, Debug, PartialEq, Eq, Hash, Structural)]
pub struct Update {
    pub layout: bool,
    pub draw: bool,
}

impl Update {
    /// The layout flag alone.
    pub fn of_layout() -> (r: Self)
        ensures
            r.layout && !r.draw,
    {
        Update { layout: true, draw: false }
    }

    /// The draw flag alone.
    pub fn of_draw() -> (r: Self)
        ensures
            !r.layout && r.draw,
    {
        Update { layout: false, draw: true }
    }

    /// No pending work.
    pub fn empty() -> (r: Self)
        ensures
            !r.layout && !r.draw,
    {
        Update { layout: false, draw: false }
    }

    /// Both a layout and a draw.
    pub fn all() -> (r: Self)
        ensures
            r.layout && r.draw,
    {
        Update { layout: true, draw: true }
    }

    /// The flags as bits: one for a layout, two for a draw.
    pub fn bits(&self) -> (r: u8)
        ensures
            r == (if self.layout { 1u8 } else { 0u8 }) + (if self.draw { 2u8 } else { 0u8 }),
    {
        (if self.layout { 1u8 } else { 0u8 }) + (if self.draw { 2u8 } else { 0u8 })
    }

    /// Whether every flag of `other` is set here.
    pub fn contains(&self, other: Update) -> (r: bool)
        ensures
            r == ((other.layout ==> self.layout) && (other.draw ==> self.draw)),
    {
        (!other.layout || self.layout) && (!other.draw || self.draw)
    }

    /// The flags set here or in `other`.
    pub fn union(&self, other: Update) -> (r: Update)
        ensures
            r.layout == (self.layout || other.layout),
            r.draw == (self.draw || other.draw),
    {
        Update { layout: self.layout || other.layout, draw: self.draw || other.draw }
    }

    /// Sets the flags of `other`.
    pub fn insert(&mut self, other: Update)
        ensures
            final(self).layout == (old(self).layout || other.layout),
            final(self).draw == (old(self).draw || other.draw),
    {
        *self = self.union(other);
    }

    /// Clears the flags of `other`.
    pub fn remove(&mut self, other: Update)
        ensures
            final(self).layout == (old(self).layout && !other.layout),
            final(self).draw == (old(self).draw && !other.draw),
    {
        *self = Update { layout: self.layout && !other.layout, draw: self.draw && !other.draw };
    }
}

/// The state that a node of the view tree keeps across rebuilds.
#[derive(Clone, Copy, Debug, PartialEq, Eq, Hash, Structural)]
pub struct ViewState {
    pub hot: bool,
    pub focused: bool,
    pub active: bool,
    /// The node or one of its descendants is active.
    pub has_active: bool,
    pub update: Update,
}

/// The view state of a node that just entered the tree.
pub open spec fn fresh() -> ViewState {
    ViewState {
        hot: false,
        focused: false,
        active: false,
        has_active: false,
        update: Update { layout: true, draw: true },
    }
}

/// `s` with a layout (and so a draw) requested.
pub open spec fn relayout(s: ViewState) -> ViewState {
    ViewState { update: Update { layout: true, draw: true }, ..s }
}

impl ViewState {
    /// A fresh node: nothing hot, focused or active, and both a layout and
    /// a draw pending.
    pub fn new() -> (r: Self)
        ensures
            r == fresh(),
    {
        ViewState { hot: false, focused: false, active: false, has_active: false, update: Update::all() }
    }

    /// Starts a pass over the node: what its subtree has active is gathered
    /// anew, from the node itself.
    pub fn prepare(&mut self)
        ensures
            *final(self) == (ViewState { has_active: old(self).active, ..*old(self) }),
    {
        self.has_active = self.active;
    }

    /// Starts a layout pass over the node: the pending layout is taken as
    /// serviced.
    pub fn prepare_layout(&mut self)
        ensures
            *final(self) == (ViewState {
                has_active: old(self).active,
                update: Update { layout: false, ..old(self).update },
                ..*old(self)
            }),
    {
        self.prepare();
        self.layed_out();
    }

    /// Starts a draw pass over the node: the pending draw is taken as
    /// serviced.
    pub fn prepare_draw(&mut self)
        ensures
            *final(self) == (ViewState {
                has_active: old(self).active,
                update: Update { draw: false, ..old(self).update },
                ..*old(self)
            }),
    {
        self.prepare();
        self.drawn();
    }

    /// Takes in what a child has active and the work it still needs.
    pub fn propagate(&mut self, child: &ViewState)
        ensures
            *final(self) == (ViewState {
                has_active: old(self).has_active || child.has_active,
                update: Update {
                    layout: old(self).update.layout || child.update.layout,
                    draw: old(self).update.draw || child.update.draw,
                },
                ..*old(self)
            }),
    {
        self.has_active = self.has_active || child.has_active;
        self.update.insert(child.update);
    }

    pub fn is_hot(&self) -> (r: bool)
        ensures
            r == self.hot,
    {
        self.hot
    }

    /// Sets whether the node is hot, and says whether that changed it. No
    /// draw is requested: that is the caller's choice.
    pub fn set_hot(&mut self, hot: bool) -> (r: bool)
        ensures
            r == (old(self).hot != hot),
            *final(self) == (ViewState { hot, ..*old(self) }),
    {
        let changed = self.hot != hot;
        self.hot = hot;
        changed
    }

    pub fn is_focused(&self) -> (r: bool)
        ensures
            r == self.focused,
    {
        self.focused
    }

    /// Sets whether the node is focused, and says whether that changed it.
    pub fn set_focused(&mut self, focused: bool) -> (r: bool)
        ensures
            r == (old(self).focused != focused),
            *final(self) == (ViewState { focused, ..*old(self) }),
    {
        let changed = self.focused != focused;
        self.focused = focused;
        changed
    }

    pub fn is_active(&self) -> (r: bool)
        ensures
            r == self.active,
    {
        self.active
    }

    /// Sets whether the node is active, and with it what its subtree has
    /// active until the next pass; says whether that changed it.
    pub fn set_active(&mut self, active: bool) -> (r: bool)
        ensures
            r == (old(self).active != active),
            *final(self) == (ViewState { active, has_active: active, ..*old(self) }),
    {
        let changed = self.active != active;
        self.active = active;
        self.has_active = active;
        changed
    }

    /// Whether the node or one of its descendants is active.
    pub fn has_active(&self) -> (r: bool)
        ensures
            r == self.has_active,
    {
        self.has_active
    }

    /// Requests a layout, which brings a draw with it.
    pub fn request_layout(&mut self)
        ensures
            *final(self) == (ViewState { update: Update { layout: true, draw: true }, ..*old(self) }),
    {
        self.update.insert(Update::all());
    }

    /// Requests a draw.
    pub fn request_draw(&mut self)
        ensures
            *final(self) == (ViewState {
                update: Update { draw: true, ..old(self).update },
                ..*old(self)
            }),
    {
        self.update.insert(Update::of_draw());
    }

    pub fn needs_layout(&self) -> (r: bool)
        ensures
            r == self.update.layout,
    {
        self.update.contains(Update::of_layout())
    }

    pub fn needs_draw(&self) -> (r: bool)
        ensures
            r == self.update.draw,
    {
        self.update.contains(Update::of_draw())
    }

    /// Marks the node laid out: the layout flag is cleared.
    pub fn layed_out(&mut self)
        ensures
            *final(self) == (ViewState {
                update: Update { layout: false, ..old(self).update },
                ..*old(self)
            }),
    {
        self.update.remove(Update::of_layout());
    }

    /// Marks the node drawn: the draw flag is cleared.
    pub fn drawn(&mut self)
        ensures
            *final(self) == (ViewState {
                update: Update { draw: false, ..old(self).update },
                ..*old(self)
            }),
    {
        self.update.remove(Update::of_draw());
    }

    pub fn update(&self) -> (r: Update)
        ensures
            r == self.update,
    {
        self.update
    }
}

impl Default for ViewState {
    fn default() -> (r: Self)
        ensures
            r == fresh(),
    {
        ViewState::new()
    }
}

} // verus!
