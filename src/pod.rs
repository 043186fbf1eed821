//! The pod: a view paired with its persistent state, and the lifecycle passes
//! that carry each child's state into its parent's.
use vstd::prelude::*;

use crate::view_state::{Update, ViewState};

verus! {

/// The four lifecycle passes over a view tree.
#[derive(Clone, Copy, Debug, PartialEq, Eq, Hash, Structural)]
pub enum Pass {
    Rebuild,
    Event,
    Layout,
    Draw,
}

/// What a node's own view does to its state while a pass visits it.
#[derive(Clone, Copy, Debug, PartialEq, Eq, Hash, Structural)]
pub enum Reaction {
    Idle,
    RequestLayout,
    RequestDraw,
    SetActive(bool),
    SetHot(bool),
    SetFocused(bool),
}

/// A view wrapped with the lifecycle bookkeeping of its node.
pub struct Pod<V> {
    pub content: V,
}

impl<V> Pod<V> {
    /// Wraps `content`.
    pub fn new(content: V) -> (r: Self)
        ensures
            r.content == content,
    {
        Pod { content }
    }
}

/// A node's state once a pass has begun on it: what its subtree has active is
/// gathered anew, and the flag of the pass is taken as serviced.
pub open spec fn prepared(s: ViewState, pass: Pass) -> ViewState {
    ViewState {
        has_active: s.active,
        update: Update {
            layout: s.update.layout && pass != Pass::Layout,
            draw: s.update.draw && pass != Pass::Draw,
        },
        ..s
    }
}

/// A node's state after its own view reacted.
pub open spec fn reacted(s: ViewState, r: Reaction) -> ViewState {
    match r {
        Reaction::Idle => s,
        Reaction::RequestLayout => ViewState { update: Update { layout: true, draw: true }, ..s },
        Reaction::RequestDraw => ViewState { update: Update { draw: true, ..s.update }, ..s },
        Reaction::SetActive(a) => ViewState { active: a, has_active: a, ..s },
        Reaction::SetHot(h) => ViewState { hot: h, ..s },
        Reaction::SetFocused(f) => ViewState { focused: f, ..s },
    }
}

/// A node's state after a pass visited it, before its children's states were
/// taken in.
pub open spec fn own_work(s: ViewState, pass: Pass, r: Reaction) -> ViewState {
    reacted(prepared(s, pass), r)
}

/// Begins a pass on the node whose state is `state`, before its content
/// runs.
pub fn begin_pass(state: &mut ViewState, pass: Pass)
    ensures
        *final(state) == prepared(*old(state), pass),
{
    state.prepare();
    match pass {
        Pass::Layout => state.layed_out(),
        Pass::Draw => state.drawn(),
        _ => {},
    }
}

/// Ends a pass on a child: the parent takes in what the child has active and
/// the work it still needs.
pub fn end_pass(parent: &mut ViewState, child: &ViewState)
    ensures
        *final(parent) == (ViewState {
            has_active: old(parent).has_active || child.has_active,
            update: Update {
                layout: old(parent).update.layout || child.update.layout,
                draw: old(parent).update.draw || child.update.draw,
            },
            ..*old(parent)
        }),
{
    parent.propagate(child);
}

/// Applies a reaction of a node's own view to its state.
pub fn react(state: &mut ViewState, r: Reaction)
    ensures
        *final(state) == reacted(*old(state), r),
{
    match r {
        Reaction::Idle => {},
        Reaction::RequestLayout => state.request_layout(),
        Reaction::RequestDraw => state.request_draw(),
        Reaction::SetActive(a) => {
            let _ = state.set_active(a);
        },
        Reaction::SetHot(h) => {
            let _ = state.set_hot(h);
        },
        Reaction::SetFocused(f) => {
            let _ = state.set_focused(f);
        },
    }
}

/// `d` lies in the subtree of `j`, reached from `j` through a child of `j`
/// numbered `k` or higher (or `d` is `j`).
pub open spec fn reaches_through(parents: Seq<usize>, j: int, d: int, k: int) -> bool
    decreases d,
{
    if d == j {
        true
    } else if 0 < d < parents.len() && parents[d] < d {
        if parents[d] == j {
            d >= k
        } else {
            reaches_through(parents, j, parents[d] as int, k)
        }
    } else {
        false
    }
}

/// `d` is `j` or a descendant of `j`.
pub open spec fn in_subtree(parents: Seq<usize>, j: int, d: int) -> bool {
    reaches_through(parents, j, d, 0)
}

/// The nodes of a view tree, each with its state; node 0 is the root, and
/// every other node comes after its parent.
pub struct ViewTree {
    pub states: Vec<ViewState>,
    pub parents: Vec<usize>,
}

impl ViewTree {
    pub open spec fn wf(&self) -> bool {
        &&& self.states@.len() == self.parents@.len()
        &&& self.states@.len() > 0
        &&& forall|i: int| 0 < i < self.parents@.len() ==> #[trigger] self.parents@[i] < i
    }
}

/// What each node's own work makes of its state in a pass.
pub open spec fn work(before: Seq<ViewState>, pass: Pass, reactions: Seq<Reaction>) -> Seq<ViewState> {
    Seq::new(before.len(), |i: int| own_work(before[i], pass, reactions[i]))
}

/// Node `j` once it took in the states of its children numbered `k` or
/// higher, each of those having taken in its whole subtree: a flag is set
/// where the own work `w` of a node it reaches that way set it.
pub open spec fn gathered(parents: Seq<usize>, w: Seq<ViewState>, j: int, k: int) -> ViewState {
    ViewState {
        has_active: exists|d: int|
            #![trigger reaches_through(parents, j, d, k)]
            0 <= d < w.len() && reaches_through(parents, j, d, k) && w[d].has_active,
        update: Update {
            layout: exists|d: int|
                #![trigger reaches_through(parents, j, d, k)]
                0 <= d < w.len() && reaches_through(parents, j, d, k) && w[d].update.layout,
            draw: exists|d: int|
                #![trigger reaches_through(parents, j, d, k)]
                0 <= d < w.len() && reaches_through(parents, j, d, k) && w[d].update.draw,
        },
        ..w[j]
    }
}

/// Node `j` after a whole pass: its own work, with every flag that the own
/// work of a node of its subtree set.
pub open spec fn after_pass(parents: Seq<usize>, w: Seq<ViewState>, j: int) -> ViewState {
    gathered(parents, w, j, 0)
}

proof fn lemma_reaches_from_above(parents: Seq<usize>, j: int, d: int, k: int)
    requires
        reaches_through(parents, j, d, k),
    ensures
        d >= j,
    decreases d,
{
    if d != j {
        lemma_reaches_from_above(parents, j, parents[d] as int, k);
    }
}

proof fn lemma_reaches_none_yet(parents: Seq<usize>, j: int, d: int)
    ensures
        reaches_through(parents, j, d, parents.len() as int) <==> d == j,
    decreases d,
{
    if d != j && 0 < d < parents.len() && parents[d] < d && parents[d] != j {
        lemma_reaches_none_yet(parents, j, parents[d] as int);
    }
}

proof fn lemma_reaches_other(parents: Seq<usize>, j: int, d: int, k: int)
    requires
        1 <= k - 1 < parents.len(),
        parents[k - 1] != j,
    ensures
        reaches_through(parents, j, d, k - 1) == reaches_through(parents, j, d, k),
    decreases d,
{
    if d != j && 0 < d < parents.len() && parents[d] < d && parents[d] != j {
        lemma_reaches_other(parents, j, parents[d] as int, k);
    }
}

proof fn lemma_reaches_parent(parents: Seq<usize>, d: int, k: int)
    requires
        1 <= k - 1 < parents.len(),
        parents[k - 1] < k - 1,
    ensures
        reaches_through(parents, parents[k - 1] as int, d, k - 1) == (reaches_through(
            parents,
            parents[k - 1] as int,
            d,
            k,
        ) || reaches_through(parents, k - 1, d, k)),
    decreases d,
{
    let i = k - 1;
    let p = parents[i] as int;
    if d != p && d != i && 0 < d < parents.len() && parents[d] < d {
        if parents[d] == p {
            if reaches_through(parents, i, p, k) {
                lemma_reaches_from_above(parents, i, p, k);
            }
        } else {
            lemma_reaches_parent(parents, parents[d] as int, k);
        }
    }
}

proof fn lemma_reaches_all(parents: Seq<usize>, j: int, d: int)
    ensures
        reaches_through(parents, j, d, 1) == reaches_through(parents, j, d, 0),
    decreases d,
{
    if d != j && 0 < d < parents.len() && parents[d] < d && parents[d] != j {
        lemma_reaches_all(parents, j, parents[d] as int);
    }
}

/// In a well-formed tree every node lies in the subtree of the root.
pub proof fn lemma_root_reaches_all(parents: Seq<usize>, d: int)
    requires
        0 <= d < parents.len(),
        forall|i: int| 0 < i < parents.len() ==> #[trigger] parents[i] < i,
    ensures
        in_subtree(parents, 0, d),
    decreases d,
{
    if d > 0 {
        lemma_root_reaches_all(parents, parents[d] as int);
    }
}

proof fn lemma_gathered_same(parents: Seq<usize>, w: Seq<ViewState>, j: int, k1: int, k2: int)
    requires
        forall|d: int|
            #![trigger reaches_through(parents, j, d, k1)]
            #![trigger reaches_through(parents, j, d, k2)]
            reaches_through(parents, j, d, k1) == reaches_through(parents, j, d, k2),
    ensures
        gathered(parents, w, j, k1) == gathered(parents, w, j, k2),
{
    let a = gathered(parents, w, j, k1);
    let b = gathered(parents, w, j, k2);
    if a.has_active {
        let d = choose|d: int| 0 <= d < w.len() && reaches_through(parents, j, d, k1) && w[d].has_active;
        assert(reaches_through(parents, j, d, k2));
    }
    if b.has_active {
        let d = choose|d: int| 0 <= d < w.len() && reaches_through(parents, j, d, k2) && w[d].has_active;
        assert(reaches_through(parents, j, d, k1));
    }
    if a.update.layout {
        let d = choose|d: int|
            0 <= d < w.len() && reaches_through(parents, j, d, k1) && w[d].update.layout;
        assert(reaches_through(parents, j, d, k2));
    }
    if b.update.layout {
        let d = choose|d: int|
            0 <= d < w.len() && reaches_through(parents, j, d, k2) && w[d].update.layout;
        assert(reaches_through(parents, j, d, k1));
    }
    if a.update.draw {
        let d = choose|d: int| 0 <= d < w.len() && reaches_through(parents, j, d, k1) && w[d].update.draw;
        assert(reaches_through(parents, j, d, k2));
    }
    if b.update.draw {
        let d = choose|d: int| 0 <= d < w.len() && reaches_through(parents, j, d, k2) && w[d].update.draw;
        assert(reaches_through(parents, j, d, k1));
    }
}

proof fn lemma_gathered_join(parents: Seq<usize>, w: Seq<ViewState>, p: int, i: int, k: int)
    requires
        forall|d: int|
            #![trigger reaches_through(parents, p, d, k - 1)]
            reaches_through(parents, p, d, k - 1) == (reaches_through(parents, p, d, k)
                || reaches_through(parents, i, d, k)),
    ensures
        gathered(parents, w, p, k - 1).has_active == (gathered(parents, w, p, k).has_active
            || gathered(parents, w, i, k).has_active),
        gathered(parents, w, p, k - 1).update.layout == (gathered(parents, w, p, k).update.layout
            || gathered(parents, w, i, k).update.layout),
        gathered(parents, w, p, k - 1).update.draw == (gathered(parents, w, p, k).update.draw
            || gathered(parents, w, i, k).update.draw),
{
    let a = gathered(parents, w, p, k - 1);
    let b = gathered(parents, w, p, k);
    let c = gathered(parents, w, i, k);
    if a.has_active {
        let d = choose|d: int|
            0 <= d < w.len() && reaches_through(parents, p, d, k - 1) && w[d].has_active;
        assert(reaches_through(parents, p, d, k) || reaches_through(parents, i, d, k));
    }
    if b.has_active {
        let d = choose|d: int| 0 <= d < w.len() && reaches_through(parents, p, d, k) && w[d].has_active;
        assert(reaches_through(parents, p, d, k - 1));
    }
    if c.has_active {
        let d = choose|d: int| 0 <= d < w.len() && reaches_through(parents, i, d, k) && w[d].has_active;
        assert(reaches_through(parents, p, d, k - 1));
    }
    if a.update.layout {
        let d = choose|d: int|
            0 <= d < w.len() && reaches_through(parents, p, d, k - 1) && w[d].update.layout;
        assert(reaches_through(parents, p, d, k) || reaches_through(parents, i, d, k));
    }
    if b.update.layout {
        let d = choose|d: int|
            0 <= d < w.len() && reaches_through(parents, p, d, k) && w[d].update.layout;
        assert(reaches_through(parents, p, d, k - 1));
    }
    if c.update.layout {
        let d = choose|d: int|
            0 <= d < w.len() && reaches_through(parents, i, d, k) && w[d].update.layout;
        assert(reaches_through(parents, p, d, k - 1));
    }
    if a.update.draw {
        let d = choose|d: int|
            0 <= d < w.len() && reaches_through(parents, p, d, k - 1) && w[d].update.draw;
        assert(reaches_through(parents, p, d, k) || reaches_through(parents, i, d, k));
    }
    if b.update.draw {
        let d = choose|d: int| 0 <= d < w.len() && reaches_through(parents, p, d, k) && w[d].update.draw;
        assert(reaches_through(parents, p, d, k - 1));
    }
    if c.update.draw {
        let d = choose|d: int| 0 <= d < w.len() && reaches_through(parents, i, d, k) && w[d].update.draw;
        assert(reaches_through(parents, p, d, k - 1));
    }
}

proof fn lemma_gather_step(parents: Seq<usize>, w: Seq<ViewState>, k: int)
    requires
        1 <= k - 1 < parents.len(),
        parents[k - 1] < k - 1,
        w.len() == parents.len(),
    ensures
        forall|j: int|
            j != parents[k - 1] ==> #[trigger] gathered(parents, w, j, k - 1) == gathered(
                parents,
                w,
                j,
                k,
            ),
        gathered(parents, w, parents[k - 1] as int, k - 1) == (ViewState {
            has_active: gathered(parents, w, parents[k - 1] as int, k).has_active || gathered(
                parents,
                w,
                k - 1,
                k,
            ).has_active,
            update: Update {
                layout: gathered(parents, w, parents[k - 1] as int, k).update.layout || gathered(
                    parents,
                    w,
                    k - 1,
                    k,
                ).update.layout,
                draw: gathered(parents, w, parents[k - 1] as int, k).update.draw || gathered(
                    parents,
                    w,
                    k - 1,
                    k,
                ).update.draw,
            },
            ..gathered(parents, w, parents[k - 1] as int, k)
        }),
{
    let i = k - 1;
    let p = parents[i] as int;
    assert forall|j: int|
        j != parents[k - 1] implies #[trigger] gathered(parents, w, j, k - 1) == gathered(
        parents,
        w,
        j,
        k,
    ) by {
        assert forall|d: int|
            #![trigger reaches_through(parents, j, d, k - 1)]
            #![trigger reaches_through(parents, j, d, k)]
            reaches_through(parents, j, d, k - 1) == reaches_through(parents, j, d, k) by {
            lemma_reaches_other(parents, j, d, k);
        }
        lemma_gathered_same(parents, w, j, k - 1, k);
    }
    assert forall|d: int|
        #![trigger reaches_through(parents, p, d, k - 1)]
        reaches_through(parents, p, d, k - 1) == (reaches_through(parents, p, d, k)
            || reaches_through(parents, i, d, k)) by {
        lemma_reaches_parent(parents, d, k);
    }
    lemma_gathered_join(parents, w, p, i, k);
}

impl ViewTree {
    /// Runs one pass over the whole tree. Each node begins the pass before
    /// its own view reacts (`reactions[i]` for node `i`), and each child's
    /// state is taken in by its parent once the child's subtree is done, so
    /// that a flag the pass itself serviced does not reach the parent again.
    pub fn run_pass(&mut self, pass: Pass, reactions: &Vec<Reaction>)
        requires
            old(self).wf(),
            reactions@.len() == old(self).states@.len(),
        ensures
            final(self).wf(),
            final(self).parents@ == old(self).parents@,
            final(self).states@.len() == old(self).states@.len(),
            forall|j: int|
                0 <= j < final(self).states@.len() ==> #[trigger] final(self).states@[j]
                    == after_pass(old(self).parents@, work(old(self).states@, pass, reactions@), j),
    {
        let n = self.states.len();
        let ghost w = work(old(self).states@, pass, reactions@);
        let mut i: usize = 0;
        while i < n
            invariant
                n == self.states@.len(),
                n == reactions@.len(),
                self.parents@ == old(self).parents@,
                old(self).states@.len() == n,
                w == work(old(self).states@, pass, reactions@),
                0 <= i <= n,
                forall|m: int| 0 <= m < i ==> #[trigger] self.states@[m] == w[m],
                forall|m: int| i <= m < n ==> #[trigger] self.states@[m] == old(self).states@[m],
            decreases n - i,
        {
            let mut s = self.states[i];
            begin_pass(&mut s, pass);
            react(&mut s, reactions[i]);
            self.states.set(i, s);
            i = i + 1;
        }
        proof {
            assert forall|j: int| 0 <= j < n implies #[trigger] self.states@[j] == gathered(
                self.parents@,
                w,
                j,
                n as int,
            ) by {
                assert forall|d: int|
                    #[trigger] reaches_through(self.parents@, j, d, n as int) <==> d == j by {
                    lemma_reaches_none_yet(self.parents@, j, d);
                }
                assert(reaches_through(self.parents@, j, j, n as int));
            }
        }
        let mut k: usize = n;
        while k > 1
            invariant
                n == self.states@.len(),
                n == self.parents@.len(),
                self.parents@ == old(self).parents@,
                old(self).wf(),
                w.len() == n,
                1 <= k <= n,
                forall|j: int| 0 <= j < n ==> #[trigger] self.states@[j] == gathered(
                    self.parents@,
                    w,
                    j,
                    k as int,
                ),
            decreases k,
        {
            let c = k - 1;
            let p = self.parents[c];
            proof {
                assert(self.parents@[c as int] < c);
                lemma_gather_step(self.parents@, w, k as int);
            }
            let child = self.states[c];
            let mut parent = self.states[p];
            end_pass(&mut parent, &child);
            self.states.set(p, parent);
            k = c;
        }
        proof {
            assert forall|j: int| 0 <= j < n implies #[trigger] self.states@[j] == after_pass(
                self.parents@,
                w,
                j,
            ) by {
                assert forall|d: int|
                    #![trigger reaches_through(self.parents@, j, d, 1)]
                    #![trigger reaches_through(self.parents@, j, d, 0)]
                    reaches_through(self.parents@, j, d, 1) == reaches_through(
                        self.parents@,
                        j,
                        d,
                        0,
                    ) by {
                    lemma_reaches_all(self.parents@, j, d);
                }
                lemma_gathered_same(self.parents@, w, j, 1, 0);
            }
        }
    }
}

/// A request for a draw (or a layout) made by any node's view during a draw
/// pass reaches the root: once the pass is done, the root needs a draw.
pub proof fn lemma_draw_request_reaches_root(
    parents: Seq<usize>,
    before: Seq<ViewState>,
    reactions: Seq<Reaction>,
    node: int,
)
    requires
        forall|i: int| 0 < i < parents.len() ==> #[trigger] parents[i] < i,
        before.len() == parents.len(),
        reactions.len() == parents.len(),
        0 <= node < parents.len(),
        reactions[node] == Reaction::RequestDraw || reactions[node] == Reaction::RequestLayout,
    ensures
        after_pass(parents, work(before, Pass::Draw, reactions), 0).update.draw,
{
    lemma_root_reaches_all(parents, node);
    let w = work(before, Pass::Draw, reactions);
    assert(w[node].update.draw);
}

/// A draw pass in which no view requests a draw or a layout leaves no draw
/// pending anywhere in the tree, the root included.
pub proof fn lemma_idle_draw_pass_clears(
    parents: Seq<usize>,
    before: Seq<ViewState>,
    reactions: Seq<Reaction>,
    j: int,
)
    requires
        before.len() == parents.len(),
        reactions.len() == parents.len(),
        0 <= j < parents.len(),
        forall|i: int|
            0 <= i < reactions.len() ==> #[trigger] reactions[i] != Reaction::RequestDraw
                && reactions[i] != Reaction::RequestLayout,
    ensures
        !after_pass(parents, work(before, Pass::Draw, reactions), j).update.draw,
{
    let w = work(before, Pass::Draw, reactions);
    if after_pass(parents, w, j).update.draw {
        let d = choose|d: int| 0 <= d < w.len() && reaches_through(parents, j, d, 0) && w[d].update.draw;
        assert(reactions[d] != Reaction::RequestDraw);
    }
}

/// After any pass, a node whose subtree holds a node left active by its own
/// view has an active descendant: has_active holds there, at every ancestor
/// of the active node.
pub proof fn lemma_active_reaches_ancestors(
    parents: Seq<usize>,
    before: Seq<ViewState>,
    pass: Pass,
    reactions: Seq<Reaction>,
    a: int,
    d: int,
)
    requires
        before.len() == parents.len(),
        reactions.len() == parents.len(),
        0 <= d < parents.len(),
        in_subtree(parents, a, d),
        work(before, pass, reactions)[d].active,
    ensures
        after_pass(parents, work(before, pass, reactions), a).has_active,
{
    let w = work(before, pass, reactions);
    assert(w[d].has_active);
}

/// After any pass, a node none of whose subtree is left active has no active
/// descendant: has_active is false there.
pub proof fn lemma_inactive_subtree_clears(
    parents: Seq<usize>,
    before: Seq<ViewState>,
    pass: Pass,
    reactions: Seq<Reaction>,
    a: int,
)
    requires
        before.len() == parents.len(),
        reactions.len() == parents.len(),
        forall|d: int|
            0 <= d < parents.len() && #[trigger] in_subtree(parents, a, d) ==> !work(
                before,
                pass,
                reactions,
            )[d].active,
    ensures
        !after_pass(parents, work(before, pass, reactions), a).has_active,
{
    let w = work(before, pass, reactions);
    if after_pass(parents, w, a).has_active {
        let d = choose|d: int| 0 <= d < w.len() && reaches_through(parents, a, d, 0) && w[d].has_active;
        assert(in_subtree(parents, a, d));
    }
}

/// A container that stacks its children on top of each other, the last one
/// topmost.
pub struct Overlay<V> {
    pub content: Vec<Pod<V>>,
}

impl<V> Overlay<V> {
    /// Stacks `content`, each child wrapped in a pod, in the given order.
    pub fn new(content: Vec<V>) -> (r: Self)
        ensures
            r.content@.len() == content@.len(),
            forall|i: int| 0 <= i < content@.len() ==> #[trigger] r.content@[i].content == content@[i],
    {
        let mut rest = content;
        let ghost all = rest@;
        let mut backwards: Vec<Pod<V>> = Vec::new();
        while rest.len() > 0
            invariant
                rest@ == all.subrange(0, rest@.len() as int),
                backwards@.len() + rest@.len() == all.len(),
                forall|i: int|
                    0 <= i < backwards@.len() ==> #[trigger] backwards@[i].content == all[all.len() - 1
                        - i],
            decreases rest@.len(),
        {
            let v = rest.pop().unwrap();
            backwards.push(Pod::new(v));
        }
        let mut out: Vec<Pod<V>> = Vec::new();
        while backwards.len() > 0
            invariant
                out@.len() + backwards@.len() == all.len(),
                forall|i: int|
                    0 <= i < backwards@.len() ==> #[trigger] backwards@[i].content == all[all.len() - 1
                        - i],
                forall|i: int| 0 <= i < out@.len() ==> #[trigger] out@[i].content == all[i],
            decreases backwards@.len(),
        {
            let p = backwards.pop().unwrap();
            out.push(p);
        }
        Overlay { content: out }
    }

    /// The order in which events reach the children: topmost, that is last
    /// drawn, first.
    pub fn event_order(&self) -> (r: Vec<usize>)
        ensures
            r@.len() == self.content@.len(),
            forall|i: int| 0 <= i < r@.len() ==> #[trigger] r@[i] == self.content@.len() - 1 - i,
    {
        let n = self.content.len();
        let mut out: Vec<usize> = Vec::new();
        let mut i: usize = n;
        while i > 0
            invariant
                0 <= i <= n,
                out@.len() == n - i,
                forall|m: int| 0 <= m < out@.len() ==> #[trigger] out@[m] == n - 1 - m,
            decreases i,
        {
            i = i - 1;
            out.push(i);
        }
        out
    }
}

/// Stacks `content` in an [`Overlay`].
pub fn overlay<V>(content: Vec<V>) -> (r: Overlay<V>)
    ensures
        r.content@.len() == content@.len(),
        forall|i: int| 0 <= i < content@.len() ==> #[trigger] r.content@[i].content == content@[i],
{
    Overlay::new(content)
}

} // verus!
