//! Signals: values whose reads subscribe the active effect scope and whose
//! writes notify every subscriber.
use vstd::prelude::*;

use crate::callback::{
    after_emit, after_subscribe, after_track, lemma_emit_delivers_live_once, occurrences, Callback,
    CallbackEmitter, Callbacks,
};
use crate::resource::{ResourceId, Slots};

verus! {

/// A callback registry together with the values of the signals of one type.
/// Signals of several types share one registry, each type with a store of
/// its own, so that an effect can depend on signals of any type.
pub struct Runtime<T> {
    pub callbacks: Callbacks,
    pub values: Slots<T>,
}

impl<T> Runtime<T> {
    pub open spec fn wf(&self) -> bool {
        self.callbacks.wf()
    }

    /// Creates a runtime with no callbacks, emitters or values.
    pub fn new() -> (r: Self)
        ensures
            r.wf(),
            r.callbacks.strong_counts().len() == 0,
            r.callbacks.scope_stack().len() == 0,
            r.callbacks.invocations().len() == 0,
            forall|e: ResourceId| !(#[trigger] r.callbacks.emitter_live(e)),
            forall|e: ResourceId| !(#[trigger] r.values.is_live(e)),
    {
        Runtime { callbacks: Callbacks::new(), values: Slots::new() }
    }
}

/// A read handle to a signal: its value and its emitter.
#[derive(Clone, Copy, Debug, PartialEq, Eq, Hash, Structural)]
pub struct ReadSignal {
    pub resource: ResourceId,
    pub emitter: CallbackEmitter,
}

/// A signal with write access.
#[derive(Clone, Copy, Debug, PartialEq, Eq, Hash, Structural)]
pub struct Signal {
    pub signal: ReadSignal,
}

/// `b` is `a` after `value` was stored as the value of `s`, nothing emitted.
pub open spec fn value_written<T>(a: &Slots<T>, b: &Slots<T>, s: ReadSignal, value: T) -> bool {
    &&& b.is_live(s.resource)
    &&& b.value_of(s.resource) == value
    &&& b.refs_of(s.resource) == a.refs_of(s.resource)
    &&& a.same_except(b, s.resource)
    &&& forall|j: ResourceId| #[trigger] b.issued(j) <==> a.issued(j)
}

impl ReadSignal {
    /// Creates a signal holding `value`, with an emitter of its own. Nothing
    /// disposes it unless told to.
    pub fn new_leaking<T>(callbacks: &mut Callbacks, values: &mut Slots<T>, value: T) -> (r: Self)
        requires
            old(callbacks).wf(),
        ensures
            final(callbacks).wf(),
            final(values).is_live(r.resource),
            final(values).value_of(r.resource) == value,
            !old(values).issued(r.resource),
            old(values).same_except(&*final(values), r.resource),
            final(callbacks).emitter_live(r.emitter.id),
            final(callbacks).subscribers(r.emitter.id) == Map::<
                usize,
                crate::callback::WeakCallback,
            >::empty(),
            !old(callbacks).emitter_slots().issued(r.emitter.id),
            old(callbacks).emitter_slots().same_except(
                &final(callbacks).emitter_slots(),
                r.emitter.id,
            ),
            final(callbacks).same_callbacks(&*old(callbacks)),
            final(callbacks).invocations() == old(callbacks).invocations(),
    {
        let resource = values.new_leaking(value);
        let emitter = CallbackEmitter::new(callbacks);
        ReadSignal { resource, emitter }
    }

    /// Counts one more owner of the value and of the emitter.
    pub fn reference<T>(self, callbacks: &mut Callbacks, values: &mut Slots<T>)
        requires
            old(callbacks).wf(),
        ensures
            owner_added(&*old(values), &*final(values), &*old(callbacks), &*final(callbacks), self),
    {
        values.reference(self.resource);
        self.emitter.reference(callbacks);
    }

    /// The value, cloned, or `None` once the signal is disposed. The read is
    /// not registered with any effect scope.
    pub fn try_get<T: Clone>(self, values: &Slots<T>) -> (r: Option<T>)
        ensures
            r is Some <==> values.is_live(self.resource),
            r is Some ==> cloned(values.value_of(self.resource), r->Some_0),
    {
        values.get(self.resource)
    }

    /// The value, cloned, without registering the read.
    pub fn get_untracked<T: Clone>(self, values: &Slots<T>) -> (r: T)
        requires
            values.is_live(self.resource),
        ensures
            cloned(values.value_of(self.resource), r),
    {
        self.try_get(values).unwrap()
    }

    /// The value, cloned; the read subscribes the innermost effect scope to
    /// the signal's emitter.
    pub fn get<T: Clone>(self, callbacks: &mut Callbacks, values: &mut Slots<T>) -> (r: T)
        requires
            old(callbacks).wf(),
            old(values).is_live(self.resource),
        ensures
            cloned(old(values).value_of(self.resource), r),
            *final(values) == *old(values),
            after_track(&*old(callbacks), &*final(callbacks), self.emitter.id),
    {
        self.track(callbacks);
        self.get_untracked(values)
    }

    /// Subscribes the innermost effect scope, if there is one, to the
    /// signal's emitter; outside any scope this does nothing.
    pub fn track(self, callbacks: &mut Callbacks)
        requires
            old(callbacks).wf(),
        ensures
            final(callbacks).wf(),
            after_track(&*old(callbacks), &*final(callbacks), self.emitter.id),
    {
        self.emitter.track(callbacks);
    }

    /// The signal's emitter, while it is not disposed.
    pub fn emitter(self, callbacks: &Callbacks) -> (r: Option<CallbackEmitter>)
        ensures
            r is Some <==> callbacks.emitter_live(self.emitter.id),
            r is Some ==> r->Some_0 == self.emitter,
    {
        match self.emitter.downgrade().upgrade(callbacks) {
            Some(_) => Some(self.emitter),
            None => None,
        }
    }

    /// Subscribes `callback` to the signal's emitter.
    pub fn subscribe(self, callbacks: &mut Callbacks, callback: &Callback)
        requires
            old(callbacks).wf(),
        ensures
            after_subscribe(&*old(callbacks), &*final(callbacks), self.emitter.id, callback.index),
    {
        self.emitter.subscribe(callbacks, callback);
    }
}

impl Signal {
    /// Creates a signal holding `value`, with an emitter of its own.
    pub fn new_leaking<T>(callbacks: &mut Callbacks, values: &mut Slots<T>, value: T) -> (r: Self)
        requires
            old(callbacks).wf(),
        ensures
            final(callbacks).wf(),
            final(values).is_live(r.signal.resource),
            final(values).value_of(r.signal.resource) == value,
            !old(values).issued(r.signal.resource),
            old(values).same_except(&*final(values), r.signal.resource),
            final(callbacks).emitter_live(r.signal.emitter.id),
            final(callbacks).subscribers(r.signal.emitter.id) == Map::<
                usize,
                crate::callback::WeakCallback,
            >::empty(),
            !old(callbacks).emitter_slots().issued(r.signal.emitter.id),
            old(callbacks).emitter_slots().same_except(
                &final(callbacks).emitter_slots(),
                r.signal.emitter.id,
            ),
            final(callbacks).same_callbacks(&*old(callbacks)),
            final(callbacks).invocations() == old(callbacks).invocations(),
    {
        Signal { signal: ReadSignal::new_leaking(callbacks, values, value) }
    }

    /// The read handle of this signal.
    pub fn read(&self) -> (r: ReadSignal)
        ensures
            r == self.signal,
    {
        self.signal
    }

    /// Stores `value` and notifies the subscribers, synchronously and once.
    pub fn set<T>(self, callbacks: &mut Callbacks, values: &mut Slots<T>, value: T)
        requires
            old(callbacks).wf(),
            old(values).is_live(self.signal.resource),
        ensures
            value_written(&*old(values), &*final(values), self.signal, value),
            after_emit(&*old(callbacks), &*final(callbacks), self.signal.emitter.id),
    {
        let _ = self.try_set(callbacks, values, value);
    }

    /// Stores `value` and notifies the subscribers; once the signal is
    /// disposed, hands `value` back and changes nothing.
    pub fn try_set<T>(self, callbacks: &mut Callbacks, values: &mut Slots<T>, value: T) -> (r: Result<(), T>)
        requires
            old(callbacks).wf(),
        ensures
            r is Ok <==> old(values).is_live(self.signal.resource),
            r is Ok ==> value_written(&*old(values), &*final(values), self.signal, value) && after_emit(
                &*old(callbacks),
                &*final(callbacks),
                self.signal.emitter.id,
            ),
            r is Err ==> r->Err_0 == value && *final(values) == *old(values) && *final(callbacks) == *old(callbacks),
    {
        match self.try_set_untracked(values, value) {
            Ok(()) => {
                self.emit(callbacks);
                Ok(())
            },
            Err(v) => Err(v),
        }
    }

    /// Stores `value` without notifying anyone.
    pub fn set_untracked<T>(self, values: &mut Slots<T>, value: T)
        requires
            old(values).is_live(self.signal.resource),
        ensures
            value_written(&*old(values), &*final(values), self.signal, value),
    {
        let _ = self.try_set_untracked(values, value);
    }

    /// Stores `value` without notifying anyone; once the signal is disposed,
    /// hands `value` back and changes nothing.
    pub fn try_set_untracked<T>(self, values: &mut Slots<T>, value: T) -> (r: Result<(), T>)
        ensures
            r is Ok <==> old(values).is_live(self.signal.resource),
            r is Ok ==> value_written(&*old(values), &*final(values), self.signal, value),
            r is Err ==> r->Err_0 == value && *final(values) == *old(values),
    {
        values.set(self.signal.resource, value)
    }

    /// Notifies the subscribers without touching the value.
    pub fn emit(self, callbacks: &mut Callbacks)
        requires
            old(callbacks).wf(),
        ensures
            after_emit(&*old(callbacks), &*final(callbacks), self.signal.emitter.id),
    {
        match self.signal.emitter(callbacks) {
            Some(emitter) => emitter.emit(callbacks),
            None => {},
        }
    }

    /// Starts a read-modify-write of the value; see [`Modify`].
    pub fn modify<T: Clone>(self, callbacks: &mut Callbacks, values: &mut Slots<T>) -> (r: Modify<T>)
        requires
            old(callbacks).wf(),
            old(values).is_live(self.signal.resource),
        ensures
            r.signal == self,
            cloned(old(values).value_of(self.signal.resource), r.value),
            *final(values) == *old(values),
            after_track(&*old(callbacks), &*final(callbacks), self.signal.emitter.id),
    {
        Modify::new(self, callbacks, values)
    }
}

/// A read-modify-write of a signal: it holds a copy of the value, which the
/// caller changes in place, and [`Modify::finish`] stores it back and
/// notifies the subscribers once.
pub struct Modify<T> {
    pub signal: Signal,
    pub value: T,
}

impl<T: Clone> Modify<T> {
    /// Reads the value of `signal` (registering the read) to start a
    /// read-modify-write.
    pub fn new(signal: Signal, callbacks: &mut Callbacks, values: &mut Slots<T>) -> (r: Self)
        requires
            old(callbacks).wf(),
            old(values).is_live(signal.signal.resource),
        ensures
            r.signal == signal,
            cloned(old(values).value_of(signal.signal.resource), r.value),
            *final(values) == *old(values),
            after_track(&*old(callbacks), &*final(callbacks), signal.signal.emitter.id),
    {
        let value = signal.signal.get(callbacks, values);
        Modify { signal, value }
    }
}

impl<T> Modify<T> {
    /// The value being modified.
    pub fn get(&self) -> (r: &T)
        ensures
            *r == self.value,
    {
        &self.value
    }

    /// The value being modified, for changes in place.
    pub fn get_mut(&mut self) -> (r: &mut T)
        ensures
            *r == old(self).value,
            final(self).signal == old(self).signal,
            final(self).value == *final(r),
    {
        &mut self.value
    }

    /// Stores the modified value back and notifies the subscribers once.
    /// Once the signal is disposed, the value is dropped and nothing changes.
    pub fn finish(self, callbacks: &mut Callbacks, values: &mut Slots<T>)
        requires
            old(callbacks).wf(),
        ensures
            old(values).is_live(self.signal.signal.resource) ==> value_written(&*old(values), &*final(values),
                self.signal.signal,
                self.value,
            ) && after_emit(&*old(callbacks), &*final(callbacks), self.signal.signal.emitter.id),
            !old(values).is_live(self.signal.signal.resource) ==> *final(values) == *old(values) && *final(callbacks) == *old(callbacks),
    {
        let _ = self.signal.try_set(callbacks, values, self.value);
    }
}

/// A signal that disposes its value and emitter when its last owner is
/// disposed.
pub struct OwnedSignal {
    pub signal: Signal,
}

impl OwnedSignal {
    /// Creates an owned signal holding `value`.
    pub fn new<T>(callbacks: &mut Callbacks, values: &mut Slots<T>, value: T) -> (r: Self)
        requires
            old(callbacks).wf(),
        ensures
            final(callbacks).wf(),
            final(values).is_live(r.signal.signal.resource),
            final(values).value_of(r.signal.signal.resource) == value,
            final(values).refs_of(r.signal.signal.resource) == 1,
            !old(values).issued(r.signal.signal.resource),
            old(values).same_except(&*final(values), r.signal.signal.resource),
            final(callbacks).emitter_live(r.signal.signal.emitter.id),
            final(callbacks).emitter_slots().refs_of(r.signal.signal.emitter.id) == 1,
            final(callbacks).subscribers(r.signal.signal.emitter.id) == Map::<
                usize,
                crate::callback::WeakCallback,
            >::empty(),
            final(callbacks).same_callbacks(&*old(callbacks)),
            final(callbacks).invocations() == old(callbacks).invocations(),
    {
        let resource = values.new_leaking(value);
        let emitter = CallbackEmitter::new(callbacks);
        OwnedSignal { signal: Signal { signal: ReadSignal { resource, emitter } } }
    }

    /// Makes this owner own `signal` instead, counting it as one more owner
    /// of `signal`. The signal owned before is left as it is.
    pub fn bind<T>(&mut self, callbacks: &mut Callbacks, values: &mut Slots<T>, signal: Signal)
        requires
            old(callbacks).wf(),
        ensures
            final(self).signal == signal,
            owner_added(&*old(values), &*final(values), &*old(callbacks), &*final(callbacks), signal.signal),
    {
        self.signal = signal;
        signal.signal.reference(callbacks, values);
    }

    /// A second owner of the same signal.
    pub fn share<T>(&self, callbacks: &mut Callbacks, values: &mut Slots<T>) -> (r: Self)
        requires
            old(callbacks).wf(),
        ensures
            r.signal == self.signal,
            owner_added(&*old(values), &*final(values), &*old(callbacks), &*final(callbacks), self.signal.signal),
    {
        self.signal.signal.reference(callbacks, values);
        OwnedSignal { signal: self.signal }
    }

    /// Gives up this owner. With the last owner gone, the value and the
    /// emitter are disposed: every handle to the signal then finds it gone.
    pub fn dispose<T>(self, callbacks: &mut Callbacks, values: &mut Slots<T>)
        requires
            old(callbacks).wf(),
        ensures
            final(callbacks).wf(),
            owner_released(&*old(values), &*final(values), &*old(callbacks), &*final(callbacks), self.signal.signal),
    {
        values.release(self.signal.signal.resource);
        self.signal.signal.emitter.release(callbacks);
    }
}

/// `b` is `a` after one more owner of `s` was counted; nothing else changes.
pub open spec fn owner_added<T>(
    va: &Slots<T>,
    vb: &Slots<T>,
    ca: &Callbacks,
    cb: &Callbacks,
    s: ReadSignal,
) -> bool {
    let v = s.resource;
    let e = s.emitter.id;
    &&& cb.wf()
    &&& va.is_live(v) ==> vb.is_live(v) && vb.value_of(v) == va.value_of(v)
        && vb.refs_of(v) == (if va.refs_of(v) < u64::MAX {
        (va.refs_of(v) + 1) as u64
    } else {
        u64::MAX
    })
    &&& va.same_except(vb, v)
    &&& ca.emitter_live(e) ==> cb.emitter_live(e) && cb.subscribers(e)
        == ca.subscribers(e) && cb.emitter_slots().refs_of(e) == (
    if ca.emitter_slots().refs_of(e) < u64::MAX {
        (ca.emitter_slots().refs_of(e) + 1) as u64
    } else {
        u64::MAX
    })
    &&& crate::callback::emitters_same_except(ca, cb, e)
    &&& cb.invocations() == ca.invocations()
}

/// `b` is `a` after one owner of `s` was given up: the last owner takes the
/// value and the emitter with it.
pub open spec fn owner_released<T>(
    va: &Slots<T>,
    vb: &Slots<T>,
    ca: &Callbacks,
    cb: &Callbacks,
    s: ReadSignal,
) -> bool {
    let v = s.resource;
    let e = s.emitter.id;
    &&& va.is_live(v) && va.refs_of(v) <= 1 ==> !vb.is_live(v)
    &&& va.is_live(v) && va.refs_of(v) > 1 ==> vb.is_live(v)
        && vb.value_of(v) == va.value_of(v) && vb.refs_of(v) == va.refs_of(v)
        - 1
    &&& !va.is_live(v) ==> vb == va
    &&& va.same_except(vb, v)
    &&& ca.emitter_live(e) && ca.emitter_slots().refs_of(e) <= 1
        ==> !cb.emitter_live(e)
    &&& ca.emitter_live(e) && ca.emitter_slots().refs_of(e) > 1
        ==> cb.emitter_live(e) && cb.subscribers(e) == ca.subscribers(e)
        && cb.emitter_slots().refs_of(e) == ca.emitter_slots().refs_of(e) - 1
    &&& !ca.emitter_live(e) ==> cb == ca
    &&& crate::callback::emitters_same_except(ca, cb, e)
    &&& cb.invocations() == ca.invocations()
}

/// Once the last owner of a signal is disposed, every handle to it, copied
/// before or after, reads `None` and has its writes handed back: its value
/// is no longer live.
pub proof fn lemma_disposed_signal_is_gone<T>(
    va: &Slots<T>,
    ca: &Callbacks,
    vb: &Slots<T>,
    cb: &Callbacks,
    owner: OwnedSignal,
    handle: ReadSignal,
)
    requires
        ca.wf(),
        handle.resource == owner.signal.signal.resource,
        va.is_live(handle.resource),
        va.refs_of(handle.resource) <= 1,
        owner_released(va, vb, ca, cb, owner.signal.signal),
    ensures
        !vb.is_live(handle.resource),
{
}

/// A read of a signal made while an effect scope is active subscribes the
/// scope's callback, so that the next write of the signal invokes that
/// callback exactly once.
pub proof fn lemma_read_in_scope_then_write<T>(
    vr0: &Slots<T>,
    cr0: &Callbacks,
    vr1: &Slots<T>,
    cr1: &Callbacks,
    vr2: &Slots<T>,
    cr2: &Callbacks,
    s: Signal,
    value: T,
)
    requires
        cr0.wf(),
        vr0.is_live(s.signal.resource),
        cr0.emitter_live(s.signal.emitter.id),
        cr0.scope_stack().len() > 0,
        cr0.is_alive(cr0.scope_stack().last().index),
        after_track(cr0, cr1, s.signal.emitter.id),
        vr1 == vr0,
        value_written(vr1, vr2, s.signal, value),
        after_emit(cr1, cr2, s.signal.emitter.id),
    ensures
        occurrences(
            cr2.invocations().subrange(
                cr1.invocations().len() as int,
                cr2.invocations().len() as int,
            ),
            cr0.scope_stack().last(),
        ) == 1,
{
    let c = cr0.scope_stack().last();
    assert(cr1.is_subscribed(s.signal.emitter.id, c.index));
    lemma_emit_delivers_live_once(cr1, cr2, s.signal.emitter.id, c);
}

/// A read made with no effect scope active subscribes nothing: the registry
/// is exactly as before the read.
pub proof fn lemma_read_outside_scope_subscribes_nothing<T>(
    vr0: &Slots<T>,
    cr0: &Callbacks,
    vr1: &Slots<T>,
    cr1: &Callbacks,
    s: ReadSignal,
)
    requires
        cr0.wf(),
        cr0.scope_stack().len() == 0,
        after_track(cr0, cr1, s.emitter.id),
    ensures
        cr1 == cr0,
{
}

/// Finishing a modification stores the modified value, whatever was done to
/// it, and notifies in one emission: each callback alive and subscribed is
/// invoked exactly once, and no other.
pub proof fn lemma_modify_emits_once<T>(
    vr1: &Slots<T>,
    cr1: &Callbacks,
    vr2: &Slots<T>,
    cr2: &Callbacks,
    m: Modify<T>,
    c: Callback,
)
    requires
        cr1.wf(),
        vr1.is_live(m.signal.signal.resource),
        cr1.emitter_live(m.signal.signal.emitter.id),
        value_written(vr1, vr2, m.signal.signal, m.value),
        after_emit(cr1, cr2, m.signal.signal.emitter.id),
    ensures
        vr2.value_of(m.signal.signal.resource) == m.value,
        occurrences(
            cr2.invocations().subrange(
                cr1.invocations().len() as int,
                cr2.invocations().len() as int,
            ),
            c,
        ) == if cr1.is_alive(c.index) && cr1.is_subscribed(
            m.signal.signal.emitter.id,
            c.index,
        ) {
            1nat
        } else {
            0nat
        },
{
    lemma_emit_delivers_live_once(cr1, cr2, m.signal.signal.emitter.id, c);
}

/// A signal shared by two owners outlives the first owner's disposal, value
/// and emitter both, and is gone, value and emitter both, once the second
/// owner is disposed as well.
pub proof fn lemma_shared_signal_lives_until_last_owner<T>(
    va0: &Slots<T>,
    ca0: &Callbacks,
    va1: &Slots<T>,
    ca1: &Callbacks,
    va2: &Slots<T>,
    ca2: &Callbacks,
    va3: &Slots<T>,
    ca3: &Callbacks,
    s: ReadSignal,
)
    requires
        ca0.wf(),
        va0.is_live(s.resource),
        va0.refs_of(s.resource) == 1,
        ca0.emitter_live(s.emitter.id),
        ca0.emitter_slots().refs_of(s.emitter.id) == 1,
        owner_added(va0, va1, ca0, ca1, s),
        owner_released(va1, va2, ca1, ca2, s),
        owner_released(va2, va3, ca2, ca3, s),
    ensures
        va2.is_live(s.resource),
        va2.value_of(s.resource) == va0.value_of(s.resource),
        ca2.emitter_live(s.emitter.id),
        ca2.subscribers(s.emitter.id) == ca0.subscribers(s.emitter.id),
        !va3.is_live(s.resource),
        !ca3.emitter_live(s.emitter.id),
{
}

} // verus!
