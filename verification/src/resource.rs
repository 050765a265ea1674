//! Type-indexed resource container. Every resource type a program registers is
//! assigned one small numeric id at setup; the map holds exactly one instance
//! per registered id. Singleton resources and component tables alike live here.
//! Within one call stack, reader/writer exclusivity is the borrow checker's;
//! across concurrently executing tasks it is established ahead of time by the
//! scheduler's claim arbitration, so a fetch never observes a racing writer.

use vstd::prelude::*;

verus! {

/// Identity of a resource type. Each resource type used by a program is given
/// one fixed id at setup time.
pub type ResourceId = usize;

/// Container of at most one resource instance per resource id. Resources are
/// registered during setup and fetched by id afterwards; fetching an id that
/// was never registered is a setup-time programmer error and is excluded by
/// precondition, while `has_value` offers the recoverable test.
pub struct ResourceMap<R> {
    /// Slot per id; `None` where no resource with that id was registered.
    pub resources: Vec<Option<R>>,
}

impl<R> ResourceMap<R> {
    /// The resource registered under `id`, if any.
    pub open spec fn res_at(&self, id: int) -> Option<R> {
        if 0 <= id < self.resources@.len() {
            self.resources@[id]
        } else {
            None
        }
    }

    pub fn new() -> (r: Self)
        ensures
            forall|id: int| r.res_at(id) is None,
    {
        ResourceMap { resources: Vec::new() }
    }

    /// Registers `value` under `id`. Each id is registered exactly once;
    /// re-insertion is excluded by precondition.
    pub fn insert(&mut self, id: ResourceId, value: R)
        requires
            old(self).res_at(id as int) is None,
            id < usize::MAX,
        ensures
            final(self).res_at(id as int) == Some(value),
            forall|j: int| j != id as int ==> final(self).res_at(j) == old(self).res_at(j),
    {
        while self.resources.len() <= id
            invariant
                forall|j: int| self.res_at(j) == old(self).res_at(j),
                id < usize::MAX,
            decreases id + 1 - self.resources@.len(),
        {
            self.resources.push(None);
        }
        self.resources.set(id, Some(value));
    }

    /// Whether a resource is registered under `id`.
    pub fn has_value(&self, id: ResourceId) -> (r: bool)
        ensures
            r == (self.res_at(id as int) is Some),
    {
        if id < self.resources.len() {
            self.resources[id].is_some()
        } else {
            false
        }
    }

    /// Shared access to the resource registered under `id`.
    pub fn fetch(&self, id: ResourceId) -> (r: &R)
        requires
            self.res_at(id as int) is Some,
        ensures
            *r == self.res_at(id as int).unwrap(),
    {
        self.resources[id].as_ref().unwrap()
    }

    /// Exclusive access to the resource registered under `id`; no other slot
    /// of the map is touched through the returned reference.
    pub fn fetch_mut(&mut self, id: ResourceId) -> (r: &mut R)
        requires
            old(self).res_at(id as int) is Some,
        ensures
            *r == old(self).res_at(id as int).unwrap(),
            final(self).res_at(id as int) == Some(*final(r)),
            forall|j: int| j != id as int ==> final(self).res_at(j) == old(self).res_at(j),
            final(self).resources@.len() == old(self).resources@.len(),
    {
        let slot = &mut self.resources[id];
        slot.as_mut().unwrap()
    }

    /// Removes and returns the resource registered under `id`, for teardown of
    /// resources that must be dropped by hand.
    pub fn remove(&mut self, id: ResourceId) -> (r: Option<R>)
        ensures
            r == old(self).res_at(id as int),
            final(self).res_at(id as int) is None,
            forall|j: int| j != id as int ==> final(self).res_at(j) == old(self).res_at(j),
    {
        if id < self.resources.len() {
            let slot = &mut self.resources[id];
            slot.take()
        } else {
            None
        }
    }

    /// The ids of all registered resources, in increasing order.
    pub fn keys(&self) -> (r: Vec<ResourceId>)
        ensures
            forall|k: int|
                0 <= k < r@.len() ==> self.res_at(#[trigger] r@[k] as int) is Some,
            forall|k1: int, k2: int| 0 <= k1 < k2 < r@.len() ==> r@[k1] < r@[k2],
            forall|id: int|
                0 <= id && self.res_at(id) is Some ==> exists|k: int|
                    0 <= k < r@.len() && (#[trigger] r@[k] as int) == id,
    {
        let mut out: Vec<ResourceId> = Vec::new();
        let mut i: usize = 0;
        while i < self.resources.len()
            invariant
                i <= self.resources@.len(),
                forall|k: int|
                    0 <= k < out@.len() ==> self.res_at(#[trigger] out@[k] as int) is Some,
                forall|k: int| 0 <= k < out@.len() ==> (#[trigger] out@[k] as int) < i as int,
                forall|k1: int, k2: int| 0 <= k1 < k2 < out@.len() ==> out@[k1] < out@[k2],
                forall|id: int|
                    0 <= id < i as int && self.res_at(id) is Some ==> exists|k: int|
                        0 <= k < out@.len() && (#[trigger] out@[k] as int) == id,
            decreases self.resources@.len() - i,
        {
            let ghost prev_out = out@;
            if self.resources[i].is_some() {
                out.push(i);
                proof {
                    assert forall|id: int|
                        0 <= id < (i as int) + 1 && self.res_at(id) is Some implies exists|k: int|
                        0 <= k < out@.len() && (#[trigger] out@[k] as int) == id by {
                        if id == i as int {
                            assert((out@[out@.len() - 1] as int) == id);
                        } else {
                            let k = choose|k: int|
                                0 <= k < prev_out.len() && (#[trigger] prev_out[k] as int) == id;
                            assert((out@[k] as int) == id);
                        }
                    }
                }
            }
            i = i + 1;
        }
        out
    }
}

} // verus!
