//! The sink through which views send events to the application.
use vstd::prelude::*;

verus! {

/// Receives the events that views send; the application shell provides it.
pub trait EventEmitter<E> {
    /// The events received so far, in order.
    spec fn received(&self) -> Seq<E>;

    /// Receives one event.
    fn send_event(&mut self, event: E)
        ensures
            final(self).received() == old(self).received().push(event),
    ;
}

/// An emitter that drops every event; only the proof keeps a record of them.
pub struct Discard<E> {
    pub received: Ghost<Seq<E>>,
}

impl<E> Discard<E> {
    /// An emitter that has received nothing.
    pub fn new() -> (r: Self)
        ensures
            r.received@ == Seq::<E>::empty(),
    {
        Discard { received: Ghost(Seq::empty()) }
    }
}

impl<E> EventEmitter<E> for Discard<E> {
    open spec fn received(&self) -> Seq<E> {
        self.received@
    }

    fn send_event(&mut self, event: E) {
        proof {
            self.received = Ghost(self.received@.push(event));
        }
    }
}

/// Sends events to the application through its emitter.
pub struct EventSink<S> {
    pub emitter: S,
}

impl<E> EventSink<Discard<E>> {
    /// A sink that drops every event.
    pub fn dummy() -> (r: Self)
        ensures
            r.emitter.received() == Seq::<E>::empty(),
    {
        EventSink::new(Discard::new())
    }
}

impl<S> EventSink<S> {
    /// A sink that hands every event to `sender`.
    pub fn new(sender: S) -> (r: Self)
        ensures
            r.emitter == sender,
    {
        EventSink { emitter: sender }
    }

    /// Sends `event` to the application: the emitter receives it, once.
    pub fn emit<E>(&mut self, event: E) where S: EventEmitter<E>
        ensures
            final(self).emitter.received() == old(self).emitter.received().push(event),
    {
        self.emitter.send_event(event);
    }
}

} // verus!
