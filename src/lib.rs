//! A reactive core for a retained-mode view tree: generation-checked resource
//! slots, weakly referenced callbacks and emitters, effect scopes, signals,
//! per-node view state with dirty flags, and the pod lifecycle that carries
//! those flags from children to parents.
use vstd::prelude::*;

pub mod callback;
pub mod effect;
pub mod pod;
pub mod reconcile;
pub mod resource;
pub mod signal;
pub mod sink;
pub mod view;
pub mod view_state;

verus! {

} // verus!
