//! Generation-checked storage slots.
use vstd::prelude::*;

verus! {

/// Names one slot of a [`Slots`] store at one generation.
///
/// A slot that is disposed and later reused gets a higher generation, so an
/// old id never reaches the value that reuses its slot.
#[derive(Clone, Copy, Debug, PartialEq, Eq, Hash, Structural)]
pub struct ResourceId {
    pub index: usize,
    pub generation: u64,
}

/// One slot of a [`Slots`] store.
pub struct Slot<T> {
    pub value: Option<T>,
    pub generation: u64,
    pub refs: u64,
}

/// A store of values reached through [`ResourceId`]s.
pub struct Slots<T> {
    slots: Vec<Slot<T>>,
}

impl<T> Slots<T> {
    pub closed spec fn view(&self) -> Seq<Slot<T>> {
        self.slots@
    }

    /// The slot that `id` names holds a value at the generation of `id`.
    pub open spec fn is_live(&self, id: ResourceId) -> bool {
        &&& id.index < self@.len()
        &&& self@[id.index as int].generation == id.generation
        &&& self@[id.index as int].value is Some
    }

    /// `id` may have been handed out by this store: no id with a later
    /// generation of its slot has been.
    pub open spec fn issued(&self, id: ResourceId) -> bool {
        id.index < self@.len() && id.generation <= self@[id.index as int].generation
    }

    pub open spec fn value_of(&self, id: ResourceId) -> T {
        self@[id.index as int].value->Some_0
    }

    pub open spec fn refs_of(&self, id: ResourceId) -> u64 {
        self@[id.index as int].refs
    }

    /// Other ids than `id` keep whether they are live, their values and their
    /// counts, and whether they were issued.
    pub open spec fn same_except(&self, other: &Self, id: ResourceId) -> bool {
        &&& forall|j: ResourceId| j != id ==> (#[trigger] other.is_live(j) <==> self.is_live(j))
        &&& forall|j: ResourceId|
            j != id && #[trigger] self.is_live(j) ==> other.value_of(j) == self.value_of(j)
                && other.refs_of(j) == self.refs_of(j)
        &&& forall|j: ResourceId| j != id ==> (#[trigger] other.issued(j) <==> self.issued(j))
    }

    /// Creates an empty store.
    pub fn new() -> (r: Self)
        ensures
            forall|id: ResourceId| !(#[trigger] r.issued(id)),
            forall|id: ResourceId| !(#[trigger] r.is_live(id)),
    {
        Slots { slots: Vec::new() }
    }

    /// Stores `value` in a fresh or reused slot and returns its id.
    ///
    /// The slot stays taken until it is disposed: nothing frees it on its own.
    pub fn new_leaking(&mut self, value: T) -> (r: ResourceId)
        ensures
            final(self).is_live(r),
            final(self).value_of(r) == value,
            final(self).refs_of(r) == 1,
            final(self).issued(r),
            !old(self).issued(r),
            old(self).same_except(&*final(self), r),
    {
        let n = self.slots.len();
        let mut i: usize = 0;
        while i < n
            invariant
                n == self.slots@.len(),
                self.slots@ == old(self).slots@,
                forall|k: int|
                    0 <= k < i ==> (#[trigger] self.slots@[k]).value is Some
                        || self.slots@[k].generation == u64::MAX,
            decreases n - i,
        {
            if self.slots[i].value.is_none() && self.slots[i].generation < u64::MAX {
                let generation = self.slots[i].generation + 1;
                let id = ResourceId { index: i, generation };
                self.slots.set(i, Slot { value: Some(value), generation, refs: 1 });
                return id;
            }
            i = i + 1;
        }
        let id = ResourceId { index: n, generation: 0 };
        self.slots.push(Slot { value: Some(value), generation: 0, refs: 1 });
        id
    }
}

impl<T: Clone> Slots<T> {
    /// A clone of the value that `id` names, or `None` once it is disposed.
    pub fn get(&self, id: ResourceId) -> (r: Option<T>)
        ensures
            r is Some <==> self.is_live(id),
            r is Some ==> cloned(self.value_of(id), r->Some_0),
    {
        if id.index < self.slots.len() && self.slots[id.index].generation == id.generation {
            match &self.slots[id.index].value {
                Some(v) => Some(v.clone()),
                None => None,
            }
        } else {
            None
        }
    }
}

impl<T> Slots<T> {
    /// Puts `value` in the slot that `id` names and hands back what it held;
    /// hands `value` back as an error once the slot is disposed.
    pub fn replace(&mut self, id: ResourceId, value: T) -> (r: Result<T, T>)
        ensures
            r is Ok <==> old(self).is_live(id),
            r is Ok ==> r->Ok_0 == old(self).value_of(id) && final(self).is_live(id)
                && final(self).value_of(id) == value && final(self).refs_of(id)
                == old(self).refs_of(id),
            r is Err ==> r->Err_0 == value && *final(self) == *old(self),
            old(self).same_except(&*final(self), id),
            forall|j: ResourceId| #[trigger] final(self).issued(j) <==> old(self).issued(j),
    {
        if id.index < self.slots.len() && self.slots[id.index].generation == id.generation
            && self.slots[id.index].value.is_some() {
            let refs = self.slots[id.index].refs;
            let mut slot = Slot { value: Some(value), generation: id.generation, refs };
            self.slots.set_and_swap(id.index, &mut slot);
            Ok(slot.value.unwrap())
        } else {
            Err(value)
        }
    }
}

impl<T> Slots<T> {
    /// Replaces the value that `id` names; hands `value` back once the slot is
    /// disposed.
    pub fn set(&mut self, id: ResourceId, value: T) -> (r: Result<(), T>)
        ensures
            r is Ok <==> old(self).is_live(id),
            r is Ok ==> final(self).is_live(id) && final(self).value_of(id) == value
                && final(self).refs_of(id) == old(self).refs_of(id),
            r is Err ==> r->Err_0 == value && *final(self) == *old(self),
            old(self).same_except(&*final(self), id),
            forall|j: ResourceId| #[trigger] final(self).issued(j) <==> old(self).issued(j),
    {
        match self.replace(id, value) {
            Ok(_) => Ok(()),
            Err(v) => Err(v),
        }
    }

    /// Marks the slot that `id` names dead: every id of it reads `None` from
    /// then on. A dead or stale id is left as it is.
    pub fn dispose(&mut self, id: ResourceId)
        ensures
            !final(self).is_live(id),
            !old(self).is_live(id) ==> *final(self) == *old(self),
            old(self).same_except(&*final(self), id),
            forall|j: ResourceId| #[trigger] final(self).issued(j) <==> old(self).issued(j),
    {
        if id.index < self.slots.len() && self.slots[id.index].generation == id.generation
            && self.slots[id.index].value.is_some() {
            let slot = Slot { value: None, generation: id.generation, refs: 0 };
            self.slots.set(id.index, slot);
        }
    }

    /// Counts one more owner of the slot that `id` names (saturating).
    pub fn reference(&mut self, id: ResourceId)
        ensures
            old(self).is_live(id) ==> final(self).is_live(id) && final(self).value_of(id)
                == old(self).value_of(id) && final(self).refs_of(id) == (if old(self).refs_of(
                id) < u64::MAX {
                (old(self).refs_of(id) + 1) as u64
            } else {
                u64::MAX
            }),
            !old(self).is_live(id) ==> *final(self) == *old(self),
            old(self).same_except(&*final(self), id),
            forall|j: ResourceId| #[trigger] final(self).issued(j) <==> old(self).issued(j),
    {
        if id.index < self.slots.len() && self.slots[id.index].generation == id.generation
            && self.slots[id.index].value.is_some() {
            let mut slot = Slot { value: None, generation: id.generation, refs: 0 };
            self.slots.set_and_swap(id.index, &mut slot);
            if slot.refs < u64::MAX {
                slot.refs = slot.refs + 1;
            }
            self.slots.set_and_swap(id.index, &mut slot);
        }
    }

    /// Drops one owner of the slot that `id` names, and disposes it when that
    /// was the last one.
    pub fn release(&mut self, id: ResourceId)
        ensures
            old(self).is_live(id) && old(self).refs_of(id) > 1 ==> final(self).is_live(id)
                && final(self).value_of(id) == old(self).value_of(id) && final(self).refs_of(id)
                == old(self).refs_of(id) - 1,
            old(self).is_live(id) && old(self).refs_of(id) <= 1 ==> !final(self).is_live(id),
            !old(self).is_live(id) ==> *final(self) == *old(self),
            old(self).same_except(&*final(self), id),
            forall|j: ResourceId| #[trigger] final(self).issued(j) <==> old(self).issued(j),
    {
        if id.index < self.slots.len() && self.slots[id.index].generation == id.generation
            && self.slots[id.index].value.is_some() {
            if self.slots[id.index].refs > 1 {
                let mut slot = Slot { value: None, generation: id.generation, refs: 0 };
                self.slots.set_and_swap(id.index, &mut slot);
                slot.refs = slot.refs - 1;
                self.slots.set_and_swap(id.index, &mut slot);
            } else {
                self.dispose(id);
            }
        }
    }
}

impl<T> Slots<T> {
    /// The value that `id` names, borrowed, or `None` once it is disposed.
    pub fn get_ref(&self, id: ResourceId) -> (r: Option<&T>)
        ensures
            r is Some <==> self.is_live(id),
            r is Some ==> *r->Some_0 == self.value_of(id),
    {
        if id.index < self.slots.len() && self.slots[id.index].generation == id.generation {
            self.slots[id.index].value.as_ref()
        } else {
            None
        }
    }
}

/// Two changes that each keep every other id as it was keep it together.
pub proof fn lemma_same_except_trans<T>(a: &Slots<T>, b: &Slots<T>, c: &Slots<T>, id: ResourceId)
    requires
        a.same_except(b, id),
        b.same_except(c, id),
    ensures
        a.same_except(c, id),
{
    assert forall|j: ResourceId| j != id && #[trigger] a.is_live(j) implies c.value_of(j) == a.value_of(j)
        && c.refs_of(j) == a.refs_of(j) by {
        assert(b.is_live(j));
    }
}

} // verus!
