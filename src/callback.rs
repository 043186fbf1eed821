//! Callbacks held by strong owners, weak references to them, and emitters
//! that deliver to the callbacks subscribed to them.
use std::collections::BTreeMap;

use vstd::prelude::*;
use vstd::std_specs::cmp::OrdSpec;

use crate::resource::{ResourceId, Slots};

verus! {

broadcast use vstd::std_specs::btree::group_btree_axioms, vstd::laws_cmp::group_laws_cmp;

/// A strong handle to a callback registered in a [`Callbacks`] registry.
///
/// The callback stays alive while its registry counts at least one owner.
#[derive(Clone, Copy, Debug, PartialEq, Eq, Hash, Structural)]
pub struct Callback {
    pub index: usize,
}

/// A reference to a callback that does not keep it alive.
#[derive(Clone, Copy, Debug, PartialEq, Eq, Hash, Structural)]
pub struct WeakCallback {
    pub index: usize,
}

/// A handle to a set of weakly held subscribers, keyed by callback.
#[derive(Clone, Copy, Debug, PartialEq, Eq, Hash, Structural)]
pub struct CallbackEmitter {
    pub id: ResourceId,
}

/// A reference to a [`CallbackEmitter`] that may outlive it.
#[derive(Clone, Copy, Debug, PartialEq, Eq, Hash, Structural)]
pub struct WeakCallbackEmitter {
    pub id: ResourceId,
}

/// The entries of `s` are sorted by key, with no key twice.
pub open spec fn sorted_keys(s: Seq<WeakCallback>) -> bool {
    forall|i: int, j: int| 0 <= i < j < s.len() ==> (#[trigger] s[i]).index < (#[trigger] s[j]).index
}

/// Under the owner counts `strong`, the callback with this key is alive.
pub open spec fn alive_in(strong: Seq<u64>, key: usize) -> bool {
    key < strong.len() && strong[key as int] > 0
}

/// What an emission over the subscribers `s` delivers under the owner counts
/// `strong`: the callbacks of `s` that are alive, last key first.
pub open spec fn deliveries(strong: Seq<u64>, s: Seq<WeakCallback>) -> Seq<Callback>
    decreases s.len(),
{
    if s.len() == 0 {
        seq![]
    } else {
        let rest = deliveries(strong, s.drop_first());
        if alive_in(strong, s[0].index) {
            rest.push(Callback { index: s[0].index })
        } else {
            rest
        }
    }
}

/// `s` holds the entries of `m`, each once, in increasing key order.
pub open spec fn in_key_order(s: Seq<WeakCallback>, m: Map<usize, WeakCallback>) -> bool {
    &&& sorted_keys(s)
    &&& forall|w: WeakCallback| #[trigger] s.contains(w) <==> m.contains_key(w.index) && m[w.index] == w
}

/// The entries of `m` in increasing key order.
pub open spec fn entries(m: Map<usize, WeakCallback>) -> Seq<WeakCallback> {
    choose|s: Seq<WeakCallback>| in_key_order(s, m)
}

/// How many times `c` stands in `s`.
pub open spec fn occurrences(s: Seq<Callback>, c: Callback) -> nat
    decreases s.len(),
{
    if s.len() == 0 {
        0
    } else {
        occurrences(s.drop_last(), c) + if s.last() == c {
            1nat
        } else {
            0nat
        }
    }
}

/// The registry of callbacks: their owner counts, the emitters and their
/// subscribers, the stack of effect scopes, and the log of invocations that
/// the host has yet to run.
pub struct Callbacks {
    strong: Vec<u64>,
    emitters: Slots<BTreeMap<usize, WeakCallback>>,
    scopes: Vec<Callback>,
    invoked: Vec<Callback>,
}

proof fn lemma_wf_same_emitters(a: &Callbacks, b: &Callbacks)
    requires
        a.emitter_slots() == b.emitter_slots(),
    ensures
        a.wf() == b.wf(),
{
    assert forall|e: ResourceId| a.emitter_live(e) == #[trigger] b.emitter_live(e) && a.subscribers(e)
        == b.subscribers(e) by {}
    if a.wf() {
        assert forall|e: ResourceId, k: usize|
            #[trigger] b.emitter_live(e) && #[trigger] b.subscribers(e).contains_key(k) implies b.subscribers(
            e,
        )[k].index == k by {
            assert(a.emitter_live(e) && a.subscribers(e).contains_key(k));
        }
    }
    if b.wf() {
        assert forall|e: ResourceId, k: usize|
            #[trigger] a.emitter_live(e) && #[trigger] a.subscribers(e).contains_key(k) implies a.subscribers(
            e,
        )[k].index == k by {
            assert(b.emitter_live(e) && b.subscribers(e).contains_key(k));
        }
    }
}

impl Callbacks {
    /// The owner count of each callback, by key.
    pub closed spec fn strong_counts(&self) -> Seq<u64> {
        self.strong@
    }

    pub closed spec fn emitter_slots(&self) -> Slots<BTreeMap<usize, WeakCallback>> {
        self.emitters
    }

    /// The effect scopes, innermost last.
    pub closed spec fn scope_stack(&self) -> Seq<Callback> {
        self.scopes@
    }

    /// The invocations made so far and not yet taken, in order.
    pub closed spec fn invocations(&self) -> Seq<Callback> {
        self.invoked@
    }

    pub open spec fn is_registered(&self, key: usize) -> bool {
        key < self.strong_counts().len()
    }

    /// The callback with this key has at least one owner.
    pub open spec fn is_alive(&self, key: usize) -> bool {
        alive_in(self.strong_counts(), key)
    }

    /// The emitter `e` is live and `key` is among its subscribers.
    pub open spec fn is_subscribed(&self, e: ResourceId, key: usize) -> bool {
        self.emitter_live(e) && self.subscribers(e).contains_key(key)
    }

    pub open spec fn emitter_live(&self, e: ResourceId) -> bool {
        self.emitter_slots().is_live(e)
    }

    /// The subscribers of a live emitter, by key.
    pub open spec fn subscribers(&self, e: ResourceId) -> Map<usize, WeakCallback> {
        self.emitter_slots().value_of(e)@
    }

    pub open spec fn wf(&self) -> bool {
        forall|e: ResourceId, k: usize|
            #[trigger] self.emitter_live(e) && #[trigger] self.subscribers(e).contains_key(k)
                ==> self.subscribers(e)[k].index == k
    }

    /// Everything but the emitters and the invocation log is as in `other`.
    pub open spec fn same_callbacks(&self, other: &Self) -> bool {
        &&& self.strong_counts() == other.strong_counts()
        &&& self.scope_stack() == other.scope_stack()
    }

    /// Creates an empty registry.
    pub fn new() -> (r: Self)
        ensures
            r.wf(),
            r.strong_counts().len() == 0,
            r.scope_stack().len() == 0,
            r.invocations().len() == 0,
            forall|e: ResourceId| !(#[trigger] r.emitter_slots().issued(e)),
            forall|e: ResourceId| !(#[trigger] r.emitter_live(e)),
    {
        Callbacks { strong: Vec::new(), emitters: Slots::new(), scopes: Vec::new(), invoked: Vec::new() }
    }

    /// Hands out the invocations logged so far and empties the log.
    pub fn take_invoked(&mut self) -> (r: Vec<Callback>)
        ensures
            final(self).wf() == old(self).wf(),
            r@ == old(self).invocations(),
            final(self).invocations().len() == 0,
            final(self).same_callbacks(&*old(self)),
            final(self).emitter_slots() == old(self).emitter_slots(),
    {
        let mut taken = Vec::new();
        std::mem::swap(&mut taken, &mut self.invoked);
        proof {
            lemma_wf_same_emitters(&*old(self), &*self);
        }
        taken
    }

    /// The number of callbacks registered so far, alive or not.
    pub fn registered(&self) -> (r: usize)
        ensures
            r == self.strong_counts().len(),
    {
        self.strong.len()
    }

    /// The number of owners of the callback with this key (zero once dropped
    /// or never registered).
    pub fn strong_count(&self, key: usize) -> (r: u64)
        ensures
            self.is_registered(key) ==> r == self.strong_counts()[key as int],
            !self.is_registered(key) ==> r == 0,
    {
        if key < self.strong.len() {
            self.strong[key]
        } else {
            0
        }
    }

    /// Counts one more owner of `callback`, as a clone of a strong handle does.
    pub fn retain(&mut self, callback: &Callback)
        requires
            old(self).is_alive(callback.index),
            old(self).strong_counts()[callback.index as int] < u64::MAX,
        ensures
            final(self).wf() == old(self).wf(),
            final(self).strong_counts() == old(self).strong_counts().update(
                callback.index as int,
                (old(self).strong_counts()[callback.index as int] + 1) as u64,
            ),
            final(self).scope_stack() == old(self).scope_stack(),
            final(self).invocations() == old(self).invocations(),
            final(self).emitter_slots() == old(self).emitter_slots(),
    {
        let n = self.strong[callback.index];
        self.strong.set(callback.index, n + 1);
        proof {
            lemma_wf_same_emitters(&*old(self), &*self);
        }
    }

    /// Drops one owner of `callback`; with the last one gone the callback is
    /// dead and weak references to it no longer reach it.
    pub fn release(&mut self, callback: Callback)
        ensures
            final(self).wf() == old(self).wf(),
            old(self).is_alive(callback.index) ==> final(self).strong_counts() == old(
                self,
            ).strong_counts().update(
                callback.index as int,
                (old(self).strong_counts()[callback.index as int] - 1) as u64,
            ),
            !old(self).is_alive(callback.index) ==> final(self).strong_counts() == old(
                self,
            ).strong_counts(),
            final(self).scope_stack() == old(self).scope_stack(),
            final(self).invocations() == old(self).invocations(),
            final(self).emitter_slots() == old(self).emitter_slots(),
    {
        if callback.index < self.strong.len() && self.strong[callback.index] > 0 {
            let n = self.strong[callback.index];
            self.strong.set(callback.index, n - 1);
        }
        proof {
            lemma_wf_same_emitters(&*old(self), &*self);
        }
    }
}

impl Callback {
    /// Registers a new callback with one owner, the handle returned.
    pub fn new(callbacks: &mut Callbacks) -> (r: Self)
        ensures
            final(callbacks).wf() == old(callbacks).wf(),
            r.index == old(callbacks).strong_counts().len(),
            final(callbacks).strong_counts() == old(callbacks).strong_counts().push(1),
            final(callbacks).is_alive(r.index),
            final(callbacks).scope_stack() == old(callbacks).scope_stack(),
            final(callbacks).invocations() == old(callbacks).invocations(),
            final(callbacks).emitter_slots() == old(callbacks).emitter_slots(),
    {
        let index = callbacks.strong.len();
        callbacks.strong.push(1);
        proof {
            lemma_wf_same_emitters(&*old(callbacks), &*callbacks);
        }
        Callback { index }
    }

    /// A weak reference to this callback, which does not keep it alive.
    pub fn downgrade(&self) -> (r: WeakCallback)
        ensures
            r.index == self.index,
    {
        WeakCallback { index: self.index }
    }

    /// Invokes the callback: the invocation is logged for the host to run.
    /// A callback whose owners are all gone is not invoked.
    pub fn emit(&self, callbacks: &mut Callbacks)
        ensures
            final(callbacks).wf() == old(callbacks).wf(),
            final(callbacks).invocations() == if old(callbacks).is_alive(self.index) {
                old(callbacks).invocations().push(*self)
            } else {
                old(callbacks).invocations()
            },
            final(callbacks).same_callbacks(&*old(callbacks)),
            final(callbacks).emitter_slots() == old(callbacks).emitter_slots(),
    {
        if callbacks.alive(self.index) {
            callbacks.invoked.push(*self);
        }
        proof {
            lemma_wf_same_emitters(&*old(callbacks), &*callbacks);
        }
    }
}

impl Callbacks {
    /// Whether the callback with this key has an owner left.
    pub fn alive(&self, key: usize) -> (r: bool)
        ensures
            r == self.is_alive(key),
    {
        key < self.strong.len() && self.strong[key] > 0
    }
}

impl WeakCallback {
    /// A weak reference to the callback with this key.
    pub fn new(key: usize) -> (r: Self)
        ensures
            r.index == key,
    {
        WeakCallback { index: key }
    }

    /// The callback, while at least one owner of it is left.
    pub fn upgrade(&self, callbacks: &Callbacks) -> (r: Option<Callback>)
        ensures
            r is Some <==> callbacks.is_alive(self.index),
            r is Some ==> r->Some_0.index == self.index,
    {
        if callbacks.alive(self.index) {
            Some(Callback { index: self.index })
        } else {
            None
        }
    }

    /// The key that identifies the callback in an emitter.
    pub fn as_ptr(&self) -> (r: usize)
        ensures
            r == self.index,
    {
        self.index
    }

    /// Invokes the callback if it is alive, and says whether it is still
    /// alive afterwards.
    pub fn emit(&self, callbacks: &mut Callbacks) -> (r: bool)
        ensures
            final(callbacks).wf() == old(callbacks).wf(),
            r == old(callbacks).is_alive(self.index),
            final(callbacks).invocations() == if old(callbacks).is_alive(self.index) {
                old(callbacks).invocations().push(Callback { index: self.index })
            } else {
                old(callbacks).invocations()
            },
            final(callbacks).same_callbacks(&*old(callbacks)),
            final(callbacks).emitter_slots() == old(callbacks).emitter_slots(),
    {
        match self.upgrade(callbacks) {
            Some(callback) => callback.emit(callbacks),
            None => {},
        }
        proof {
            lemma_wf_same_emitters(&*old(callbacks), &*callbacks);
        }
        callbacks.alive(self.index)
    }
}

proof fn lemma_entries_unique(s: Seq<WeakCallback>, t: Seq<WeakCallback>, m: Map<usize, WeakCallback>)
    requires
        in_key_order(s, m),
        in_key_order(t, m),
    ensures
        s == t,
    decreases s.len(),
{
    if s.len() == 0 {
        if t.len() > 0 {
            assert(t.contains(t[0]));
            assert(s.contains(t[0]));
        }
        assert(s =~= t);
    } else {
        if t.len() == 0 {
            assert(s.contains(s[0]));
            assert(t.contains(s[0]));
        } else {
            // the first entries are the least keys of `m`
            assert(s.contains(s[0]));
            assert(t.contains(s[0]));
            assert(t.contains(t[0]));
            assert(s.contains(t[0]));
            let i = choose|i: int| 0 <= i < t.len() && t[i] == s[0];
            let j = choose|j: int| 0 <= j < s.len() && s[j] == t[0];
            if i > 0 {
                assert(t[0].index < t[i].index);
                if j > 0 {
                    assert(s[0].index < s[j].index);
                }
            }
            if j > 0 {
                assert(s[0].index < s[j].index);
            }
            assert(s[0] == t[0]);
            let m2 = m.remove(s[0].index);
            let s2 = s.drop_first();
            let t2 = t.drop_first();
            assert forall|w: WeakCallback| #[trigger] s2.contains(w) <==> m2.contains_key(w.index)
                && m2[w.index] == w by {
                if s2.contains(w) {
                    let k = choose|k: int| 0 <= k < s2.len() && s2[k] == w;
                    assert(s[k + 1] == w);
                    assert(s.contains(w));
                    assert(s[0].index < s[k + 1].index);
                }
                if m2.contains_key(w.index) && m2[w.index] == w {
                    assert(s.contains(w));
                    let k = choose|k: int| 0 <= k < s.len() && s[k] == w;
                    assert(k != 0);
                    assert(s2[k - 1] == w);
                }
            }
            assert forall|w: WeakCallback| #[trigger] t2.contains(w) <==> m2.contains_key(w.index)
                && m2[w.index] == w by {
                if t2.contains(w) {
                    let k = choose|k: int| 0 <= k < t2.len() && t2[k] == w;
                    assert(t[k + 1] == w);
                    assert(t.contains(w));
                    assert(t[0].index < t[k + 1].index);
                }
                if m2.contains_key(w.index) && m2[w.index] == w {
                    assert(t.contains(w));
                    let k = choose|k: int| 0 <= k < t.len() && t[k] == w;
                    assert(k != 0);
                    assert(t2[k - 1] == w);
                }
            }
            assert forall|a: int, b: int| 0 <= a < b < s2.len() implies (#[trigger] s2[a]).index < (
            #[trigger] s2[b]).index by {
                assert(s[a + 1] == s2[a] && s[b + 1] == s2[b]);
            }
            assert forall|a: int, b: int| 0 <= a < b < t2.len() implies (#[trigger] t2[a]).index < (
            #[trigger] t2[b]).index by {
                assert(t[a + 1] == t2[a] && t[b + 1] == t2[b]);
            }
            lemma_entries_unique(s2, t2, m2);
            assert(s =~= seq![s[0]] + s2);
            assert(t =~= seq![t[0]] + t2);
            assert(s =~= t);
        }
    }
}

/// The subscriptions of `m` in increasing key order.
fn collect_in_key_order(m: &BTreeMap<usize, WeakCallback>) -> (r: Vec<WeakCallback>)
    requires
        forall|k: usize| #[trigger] m@.contains_key(k) ==> m@[k].index == k,
    ensures
        in_key_order(r@, m@),
{
    let mut out: Vec<WeakCallback> = Vec::new();
    let vals = m.values();
    let ghost rem = vstd::std_specs::iter::IteratorSpec::remaining(&vals);
    let ghost key_seq = choose|key_seq: Seq<usize>|
        {
            &&& vstd::std_specs::btree::increasing_seq(key_seq)
            &&& key_seq.to_set() == m@.dom()
            &&& key_seq.no_duplicates()
            &&& rem == key_seq.map(|i: int, k| &m@[k])
        };
    for w in it: vals
        invariant
            out@.len() == it.index(),
            it.seq() == rem,
            forall|i: int| 0 <= i < out@.len() ==> out@[i] == *it.seq()[i],
    {
        out.push(*w);
    }
    proof {
        assert forall|i: int| 0 <= i < out@.len() implies #[trigger] out@[i] == m@[key_seq[i]]
            && key_seq[i] == out@[i].index by {
            assert(key_seq.to_set().contains(key_seq[i]));
        }
        assert forall|i: int, j: int| 0 <= i < j < out@.len() implies (#[trigger] out@[i]).index < (
        #[trigger] out@[j]).index by {
            assert(key_seq[i].cmp_spec(&key_seq[j]) is Less);
        }
        assert forall|w: WeakCallback| #[trigger] out@.contains(w) <==> m@.contains_key(w.index)
            && m@[w.index] == w by {
            if out@.contains(w) {
                let i = choose|i: int| 0 <= i < out@.len() && out@[i] == w;
                assert(key_seq.to_set().contains(key_seq[i]));
            }
            if m@.contains_key(w.index) && m@[w.index] == w {
                assert(key_seq.to_set().contains(w.index));
                let i = choose|i: int| 0 <= i < key_seq.len() && key_seq[i] == w.index;
                assert(out@[i] == w);
            }
        }
    }
    out
}

/// Everything of `b` but the emitter `e` and the invocation log is as in `a`.
pub open spec fn emitters_same_except(a: &Callbacks, b: &Callbacks, e: ResourceId) -> bool {
    &&& b.same_callbacks(a)
    &&& a.emitter_slots().same_except(&b.emitter_slots(), e)
    &&& forall|j: ResourceId| #[trigger] b.emitter_slots().issued(j) <==> a.emitter_slots().issued(j)
}

proof fn lemma_wf_frame(a: &Callbacks, b: &Callbacks, e: ResourceId)
    requires
        a.wf(),
        a.emitter_slots().same_except(&b.emitter_slots(), e),
        forall|k: usize|
            b.emitter_live(e) && #[trigger] b.subscribers(e).contains_key(k) ==> b.subscribers(e)[k].index
                == k,
    ensures
        b.wf(),
{
    assert forall|j: ResourceId, k: usize|
        #[trigger] b.emitter_live(j) && #[trigger] b.subscribers(j).contains_key(k) implies b.subscribers(
        j,
    )[k].index == k by {
        if j != e {
            assert(a.emitter_slots().is_live(j));
            assert(a.emitter_live(j));
            assert(a.subscribers(j).contains_key(k));
        } else {
            assert(b.subscribers(e).contains_key(k));
        }
    }
}

/// `b` is `a` after an emission on the emitter `e`: its subscribers are
/// taken, and the live ones among them are invoked, last key first.
pub open spec fn after_emit(a: &Callbacks, b: &Callbacks, e: ResourceId) -> bool {
    &&& b.wf()
    &&& a.emitter_live(e) ==> b.emitter_live(e) && b.subscribers(e) == Map::<usize, WeakCallback>::empty()
        && in_key_order(entries(a.subscribers(e)), a.subscribers(e))
        && b.invocations() == a.invocations() + deliveries(a.strong_counts(), entries(a.subscribers(e)))
    &&& !a.emitter_live(e) ==> *b == *a
    &&& emitters_same_except(a, b, e)
}

/// `b` is `a` after the callback with key `key` was subscribed to the emitter
/// `e`.
pub open spec fn after_subscribe(a: &Callbacks, b: &Callbacks, e: ResourceId, key: usize) -> bool {
    &&& b.wf()
    &&& a.emitter_live(e) ==> b.emitter_live(e) && forall|k: usize| #[trigger]
        b.is_subscribed(e, k) <==> (k == key || a.is_subscribed(e, k))
    &&& !a.emitter_live(e) ==> *b == *a
    &&& emitters_same_except(a, b, e)
    &&& b.invocations() == a.invocations()
}

/// `b` is `a` after a read that registers on the emitter `e`: the innermost effect
/// scope, if there is one, is subscribed to `e`.
pub open spec fn after_track(a: &Callbacks, b: &Callbacks, e: ResourceId) -> bool {
    &&& b.wf()
    &&& a.scope_stack().len() > 0 && a.emitter_live(e) ==> b.emitter_live(e) && forall|k: usize|
        #[trigger] b.is_subscribed(e, k) <==> (k == a.scope_stack().last().index || a.is_subscribed(
            e,
            k,
        ))
    &&& a.scope_stack().len() == 0 || !a.emitter_live(e) ==> *b == *a
    &&& emitters_same_except(a, b, e)
    &&& b.invocations() == a.invocations()
}

impl CallbackEmitter {
    /// Creates an emitter with no subscribers.
    pub fn new(callbacks: &mut Callbacks) -> (r: Self)
        requires
            old(callbacks).wf(),
        ensures
            final(callbacks).wf(),
            final(callbacks).emitter_live(r.id),
            final(callbacks).subscribers(r.id) == Map::<usize, WeakCallback>::empty(),
            final(callbacks).emitter_slots().refs_of(r.id) == 1,
            !old(callbacks).emitter_slots().issued(r.id),
            final(callbacks).emitter_slots().issued(r.id),
            final(callbacks).same_callbacks(&*old(callbacks)),
            old(callbacks).emitter_slots().same_except(&final(callbacks).emitter_slots(), r.id),
            final(callbacks).invocations() == old(callbacks).invocations(),
    {
        let id = callbacks.emitters.new_leaking(BTreeMap::new());
        proof {
            lemma_wf_frame(&*old(callbacks), &*callbacks, id);
        }
        CallbackEmitter { id }
    }

    /// The number of subscribers, alive or not; zero once the emitter is
    /// disposed.
    pub fn len(&self, callbacks: &Callbacks) -> (r: usize)
        ensures
            r == if callbacks.emitter_live(self.id) {
                callbacks.subscribers(self.id).len()
            } else {
                0
            },
    {
        match callbacks.emitters.get_ref(self.id) {
            Some(list) => list.len(),
            None => 0,
        }
    }

    /// Whether the emitter has no subscribers.
    pub fn is_empty(&self, callbacks: &Callbacks) -> (r: bool)
        ensures
            r == (!callbacks.emitter_live(self.id) || callbacks.subscribers(self.id).len() == 0),
    {
        self.len(callbacks) == 0
    }

    /// A reference to this emitter that may outlive it.
    pub fn downgrade(&self) -> (r: WeakCallbackEmitter)
        ensures
            r.id == self.id,
    {
        WeakCallbackEmitter { id: self.id }
    }

    /// Subscribes `callback` by a weak reference: the emitter does not keep
    /// it alive.
    pub fn subscribe(&self, callbacks: &mut Callbacks, callback: &Callback)
        requires
            old(callbacks).wf(),
        ensures
            after_subscribe(&*old(callbacks), &*final(callbacks), self.id, callback.index),
    {
        self.subscribe_weak(callbacks, callback.downgrade());
    }

    /// Subscribes a weak callback under its key; a subscription of the same
    /// key is replaced.
    pub fn subscribe_weak(&self, callbacks: &mut Callbacks, callback: WeakCallback)
        requires
            old(callbacks).wf(),
        ensures
            after_subscribe(&*old(callbacks), &*final(callbacks), self.id, callback.index),
    {
        match callbacks.emitters.replace(self.id, BTreeMap::new()) {
            Ok(mut map) => {
                let ghost mid = callbacks.emitters;
                map.insert(callback.index, callback);
                let _ = callbacks.emitters.set(self.id, map);
                proof {
                    crate::resource::lemma_same_except_trans(
                        &old(callbacks).emitters,
                        &mid,
                        &callbacks.emitters,
                        self.id,
                    );
                }
            },
            Err(_) => {},
        }
        proof {
            assert forall|k: usize|
                callbacks.emitter_live(self.id) && #[trigger] callbacks.subscribers(self.id).contains_key(
                    k,
                ) implies callbacks.subscribers(self.id)[k].index == k by {
                if k != callback.index && callbacks.emitter_live(self.id) {
                    assert(old(callbacks).emitter_live(self.id));
                    assert(old(callbacks).subscribers(self.id).contains_key(k));
                }
            }
            lemma_wf_frame(&*old(callbacks), &*callbacks, self.id);
        }
    }

    /// Removes the subscription of key `key`, if there is one.
    pub fn unsubscribe(&self, callbacks: &mut Callbacks, key: usize)
        requires
            old(callbacks).wf(),
        ensures
            final(callbacks).wf(),
            old(callbacks).emitter_live(self.id) ==> final(callbacks).emitter_live(self.id)
                && forall|k: usize| #[trigger]
                    final(callbacks).is_subscribed(self.id, k) <==> (k != key && old(
                        callbacks,
                    ).is_subscribed(self.id, k)),
            !old(callbacks).emitter_live(self.id) ==> *final(callbacks) == *old(callbacks),
            emitters_same_except(&*old(callbacks), &*final(callbacks), self.id),
            final(callbacks).invocations() == old(callbacks).invocations(),
    {
        match callbacks.emitters.replace(self.id, BTreeMap::new()) {
            Ok(mut map) => {
                let ghost mid = callbacks.emitters;
                map.remove(&key);
                let _ = callbacks.emitters.set(self.id, map);
                proof {
                    crate::resource::lemma_same_except_trans(
                        &old(callbacks).emitters,
                        &mid,
                        &callbacks.emitters,
                        self.id,
                    );
                }
            },
            Err(_) => {},
        }
        proof {
            assert forall|k: usize|
                callbacks.emitter_live(self.id) && #[trigger] callbacks.subscribers(self.id).contains_key(
                    k,
                ) implies callbacks.subscribers(self.id)[k].index == k by {
                if callbacks.emitter_live(self.id) {
                    assert(old(callbacks).emitter_live(self.id));
                    assert(old(callbacks).subscribers(self.id).contains_key(k));
                }
            }
            lemma_wf_frame(&*old(callbacks), &*callbacks, self.id);
        }
    }

    /// Takes every subscription out of the emitter, then invokes the
    /// callbacks among them that are alive, last key first.
    ///
    /// A subscription made after the subscriptions were taken waits for the
    /// next emission.
    pub fn emit(&self, callbacks: &mut Callbacks)
        requires
            old(callbacks).wf(),
        ensures
            after_emit(&*old(callbacks), &*final(callbacks), self.id),
    {
        match callbacks.emitters.replace(self.id, BTreeMap::new()) {
            Ok(map) => {
                assert(old(callbacks).emitter_live(self.id));
                assert forall|k: usize| #[trigger] map@.contains_key(k) implies map@[k].index == k by {
                    assert(old(callbacks).subscribers(self.id).contains_key(k));
                }
                let list = collect_in_key_order(&map);
                proof {
                    assert(in_key_order(entries(map@), map@));
                    lemma_entries_unique(list@, entries(map@), map@);
                }
                callbacks.deliver(&list);
            },
            Err(_) => {},
        }
        proof {
            lemma_wf_frame(&*old(callbacks), &*callbacks, self.id);
        }
    }

    /// Subscribes the innermost effect scope, if there is one, to this
    /// emitter.
    pub fn track(&self, callbacks: &mut Callbacks)
        requires
            old(callbacks).wf(),
        ensures
            after_track(&*old(callbacks), &*final(callbacks), self.id),
    {
        self.downgrade().track(callbacks);
    }

    /// Disposes the emitter: its subscriptions are dropped, and every handle
    /// to it finds it gone.
    pub fn dispose(&self, callbacks: &mut Callbacks)
        requires
            old(callbacks).wf(),
        ensures
            final(callbacks).wf(),
            !final(callbacks).emitter_live(self.id),
            emitters_same_except(&*old(callbacks), &*final(callbacks), self.id),
            final(callbacks).invocations() == old(callbacks).invocations(),
    {
        callbacks.emitters.dispose(self.id);
        proof {
            lemma_wf_frame(&*old(callbacks), &*callbacks, self.id);
        }
    }
}

impl WeakCallbackEmitter {
    /// The emitter, while it is not disposed.
    pub fn upgrade(&self, callbacks: &Callbacks) -> (r: Option<CallbackEmitter>)
        ensures
            r is Some <==> callbacks.emitter_live(self.id),
            r is Some ==> r->Some_0.id == self.id,
    {
        match callbacks.emitters.get_ref(self.id) {
            Some(_) => Some(CallbackEmitter { id: self.id }),
            None => None,
        }
    }

    /// Subscribes the innermost effect scope, if there is one, to this
    /// emitter.
    pub fn track(&self, callbacks: &mut Callbacks)
        requires
            old(callbacks).wf(),
        ensures
            after_track(&*old(callbacks), &*final(callbacks), self.id),
    {
        crate::effect::track_callback(callbacks, *self);
    }
}

impl Callbacks {
    /// Logs an invocation of each callback of `list` that is alive, last
    /// entry first.
    fn deliver(&mut self, list: &Vec<WeakCallback>)
        ensures
            final(self).invocations() == old(self).invocations() + deliveries(
                old(self).strong_counts(),
                list@,
            ),
            final(self).same_callbacks(&*old(self)),
            final(self).emitter_slots() == old(self).emitter_slots(),
    {
        let n = list.len();
        let mut i: usize = n;
        proof {
            assert(list@.subrange(n as int, n as int) =~= Seq::<WeakCallback>::empty());
            assert(old(self).invocations() + Seq::<Callback>::empty() =~= old(self).invocations());
        }
        while i > 0
            invariant
                0 <= i <= n,
                n == list@.len(),
                self.strong@ == old(self).strong@,
                self.scopes@ == old(self).scopes@,
                self.emitters == old(self).emitters,
                self.invoked@ == old(self).invoked@ + deliveries(
                    old(self).strong@,
                    list@.subrange(i as int, n as int),
                ),
            decreases i,
        {
            i = i - 1;
            let w = list[i];
            proof {
                assert(list@.subrange(i as int, n as int).drop_first() =~= list@.subrange(
                    i + 1,
                    n as int,
                ));
            }
            if self.alive(w.index) {
                self.invoked.push(Callback { index: w.index });
                proof {
                    let d = deliveries(old(self).strong@, list@.subrange(i + 1, n as int));
                    assert(old(self).invoked@ + d.push(Callback { index: w.index }) =~= (old(
                        self,
                    ).invoked@ + d).push(Callback { index: w.index }));
                }
            }
        }
        proof {
            assert(list@.subrange(0, n as int) =~= list@);
        }
    }

    /// Makes `callback` the innermost effect scope: reads registered from now on
    /// subscribe it.
    pub fn enter_scope(&mut self, callback: Callback)
        ensures
            final(self).wf() == old(self).wf(),
            final(self).scope_stack() == old(self).scope_stack().push(callback),
            final(self).strong_counts() == old(self).strong_counts(),
            final(self).emitter_slots() == old(self).emitter_slots(),
            final(self).invocations() == old(self).invocations(),
    {
        self.scopes.push(callback);
        proof {
            lemma_wf_same_emitters(&*old(self), &*self);
        }
    }

    /// Leaves the innermost effect scope and returns its callback.
    pub fn exit_scope(&mut self) -> (r: Option<Callback>)
        ensures
            final(self).wf() == old(self).wf(),
            old(self).scope_stack().len() == 0 ==> r is None && final(self).scope_stack() == old(
                self,
            ).scope_stack(),
            old(self).scope_stack().len() > 0 ==> r == Some(old(self).scope_stack().last())
                && final(self).scope_stack() == old(self).scope_stack().drop_last(),
            final(self).strong_counts() == old(self).strong_counts(),
            final(self).emitter_slots() == old(self).emitter_slots(),
            final(self).invocations() == old(self).invocations(),
    {
        let r = self.scopes.pop();
        proof {
            lemma_wf_same_emitters(&*old(self), &*self);
        }
        r
    }

    /// The innermost effect scope, if any.
    pub fn current_scope(&self) -> (r: Option<Callback>)
        ensures
            self.scope_stack().len() == 0 ==> r is None,
            self.scope_stack().len() > 0 ==> r == Some(self.scope_stack().last()),
    {
        if self.scopes.len() > 0 {
            Some(self.scopes[self.scopes.len() - 1])
        } else {
            None
        }
    }
}

impl CallbackEmitter {
    /// Counts one more owner of the emitter (saturating).
    pub fn reference(&self, callbacks: &mut Callbacks)
        requires
            old(callbacks).wf(),
        ensures
            final(callbacks).wf(),
            old(callbacks).emitter_live(self.id) ==> final(callbacks).emitter_live(self.id)
                && final(callbacks).subscribers(self.id) == old(callbacks).subscribers(self.id)
                && final(callbacks).emitter_slots().refs_of(self.id) == (if old(
                callbacks).emitter_slots().refs_of(self.id) < u64::MAX {
                (old(callbacks).emitter_slots().refs_of(self.id) + 1) as u64
            } else {
                u64::MAX
            }),
            !old(callbacks).emitter_live(self.id) ==> *final(callbacks) == *old(callbacks),
            emitters_same_except(&*old(callbacks), &*final(callbacks), self.id),
            final(callbacks).invocations() == old(callbacks).invocations(),
    {
        callbacks.emitters.reference(self.id);
        proof {
            if callbacks.emitter_live(self.id) {
                assert(old(callbacks).emitter_live(self.id));
            }
            assert forall|k: usize|
                callbacks.emitter_live(self.id) && #[trigger] callbacks.subscribers(self.id).contains_key(
                    k,
                ) implies callbacks.subscribers(self.id)[k].index == k by {
                assert(old(callbacks).subscribers(self.id).contains_key(k));
            }
            lemma_wf_frame(&*old(callbacks), &*callbacks, self.id);
        }
    }

    /// Drops one owner of the emitter, and disposes it when that was the
    /// last one.
    pub fn release(&self, callbacks: &mut Callbacks)
        requires
            old(callbacks).wf(),
        ensures
            final(callbacks).wf(),
            old(callbacks).emitter_live(self.id) && old(callbacks).emitter_slots().refs_of(self.id)
                > 1 ==> final(callbacks).emitter_live(self.id) && final(callbacks).subscribers(
                self.id,
            ) == old(callbacks).subscribers(self.id) && final(callbacks).emitter_slots().refs_of(
                self.id,
            ) == old(callbacks).emitter_slots().refs_of(self.id) - 1,
            old(callbacks).emitter_live(self.id) && old(callbacks).emitter_slots().refs_of(self.id)
                <= 1 ==> !final(callbacks).emitter_live(self.id),
            !old(callbacks).emitter_live(self.id) ==> *final(callbacks) == *old(callbacks),
            emitters_same_except(&*old(callbacks), &*final(callbacks), self.id),
            final(callbacks).invocations() == old(callbacks).invocations(),
    {
        callbacks.emitters.release(self.id);
        proof {
            if callbacks.emitter_live(self.id) {
                assert(old(callbacks).emitter_live(self.id));
            }
            assert forall|k: usize|
                callbacks.emitter_live(self.id) && #[trigger] callbacks.subscribers(self.id).contains_key(
                    k,
                ) implies callbacks.subscribers(self.id)[k].index == k by {
                assert(old(callbacks).subscribers(self.id).contains_key(k));
            }
            lemma_wf_frame(&*old(callbacks), &*callbacks, self.id);
        }
    }
}

/// Over subscribers sorted by key, an emission delivers each callback that is
/// alive and subscribed exactly once, and no other callback.
pub proof fn lemma_deliveries_once(strong: Seq<u64>, s: Seq<WeakCallback>, c: Callback)
    requires
        sorted_keys(s),
    ensures
        occurrences(deliveries(strong, s), c) == if alive_in(strong, c.index) && s.contains(
            WeakCallback { index: c.index },
        ) {
            1nat
        } else {
            0nat
        },
    decreases s.len(),
{
    let w = WeakCallback { index: c.index };
    if s.len() > 0 {
        let t = s.drop_first();
        assert forall|i: int, j: int| 0 <= i < j < t.len() implies (#[trigger] t[i]).index < (
        #[trigger] t[j]).index by {
            assert(t[i] == s[i + 1] && t[j] == s[j + 1]);
        }
        lemma_deliveries_once(strong, t, c);
        let rest = deliveries(strong, t);
        let x = Callback { index: s[0].index };
        assert(rest.push(x).drop_last() =~= rest);
        assert(s =~= seq![s[0]] + t);
        if s.contains(w) {
            let k = choose|k: int| 0 <= k < s.len() && s[k] == w;
            if k > 0 {
                assert(t[k - 1] == w);
            }
        }
        if t.contains(w) {
            let k = choose|k: int| 0 <= k < t.len() && t[k] == w;
            assert(s[k + 1] == w);
            if s[0] == w {
                assert(s[0].index < s[k + 1].index);
            }
        }
        if s[0] == w {
            assert(s.contains(w));
        }
    }
}

/// One emission invokes each callback that was alive and subscribed when it
/// began exactly once, and invokes no other callback.
pub proof fn lemma_emit_delivers_live_once(a: &Callbacks, b: &Callbacks, e: ResourceId, c: Callback)
    requires
        a.wf(),
        a.emitter_live(e),
        after_emit(a, b, e),
    ensures
        occurrences(
            b.invocations().subrange(a.invocations().len() as int, b.invocations().len() as int),
            c,
        ) == if a.is_alive(c.index) && a.is_subscribed(e, c.index) {
            1nat
        } else {
            0nat
        },
{
    assert(b.invocations().subrange(a.invocations().len() as int, b.invocations().len() as int)
        =~= deliveries(a.strong_counts(), entries(a.subscribers(e))));
    let w = WeakCallback { index: c.index };
    if a.subscribers(e).contains_key(c.index) {
        assert(a.subscribers(e)[c.index].index == c.index);
        assert(a.subscribers(e)[c.index] == w);
    }
    assert(entries(a.subscribers(e)).contains(w) <==> a.is_subscribed(e, c.index));
    lemma_deliveries_once(a.strong_counts(), entries(a.subscribers(e)), c);
}

/// What an emission delivers is fixed when it begins: a callback that
/// subscribes again once the emission has taken the subscribers (as one it
/// invokes may) is not invoked a second time by that emission, and is
/// invoked once by the next.
pub proof fn lemma_resubscribe_waits_for_next_emit(
    a: &Callbacks,
    b: &Callbacks,
    c: &Callbacks,
    d: &Callbacks,
    e: ResourceId,
    key: usize,
)
    requires
        a.wf(),
        a.emitter_live(e),
        after_emit(a, b, e),
        after_subscribe(b, c, e, key),
        after_emit(c, d, e),
        a.is_alive(key),
    ensures
        occurrences(
            b.invocations().subrange(a.invocations().len() as int, b.invocations().len() as int),
            Callback { index: key },
        ) == if a.is_subscribed(e, key) {
            1nat
        } else {
            0nat
        },
        occurrences(
            d.invocations().subrange(c.invocations().len() as int, d.invocations().len() as int),
            Callback { index: key },
        ) == 1,
{
    lemma_emit_delivers_live_once(a, b, e, Callback { index: key });
    assert(c.is_subscribed(e, key));
    lemma_emit_delivers_live_once(c, d, e, Callback { index: key });
}

} // verus!
