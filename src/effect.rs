//! Effect scopes: reads made while a scope is active subscribe it.
use vstd::prelude::*;

use crate::callback::{Callbacks, WeakCallbackEmitter, after_track};

verus! {

/// Subscribes the innermost effect scope, if there is one, to `emitter`.
/// With no scope active, or with the emitter gone, nothing changes.
pub fn track_callback(callbacks: &mut Callbacks, emitter: WeakCallbackEmitter)
    requires
        old(callbacks).wf(),
    ensures
        after_track(&*old(callbacks), &*final(callbacks), emitter.id),
{
    match callbacks.current_scope() {
        Some(scope) => match emitter.upgrade(callbacks) {
            Some(e) => e.subscribe(callbacks, &scope),
            None => {},
        },
        None => {},
    }
}

} // verus!
