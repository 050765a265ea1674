//! Per-component-type tables mapping an entity handle to an optional component
//! value, plus the free-callback interface the entity store drives when a
//! batch of entities dies.

use vstd::prelude::*;

use crate::entity::EntityHandle;
use crate::slab::RawSlab;
use crate::slab::RawSlabKey;

verus! {

/// Marker for a component type, naming the table type that stores it.
pub trait Component: Sized {
    type Storage;
}

/// Whether any handle in `handles` carries the entity index `i`.
pub open spec fn batch_contains_index(handles: Seq<EntityHandle>, i: int) -> bool {
    exists|k: int| 0 <= k < handles.len() && (#[trigger] handles[k]).index as int == i
}

/// Contract of a component table: a mapping from entity index to an optional
/// component value. A component exists for an entity iff the table's slot at
/// that entity's index is populated. Attaching over an existing value and
/// detaching a missing one are programmer errors, excluded by precondition;
/// `free_if_exists` is the safe variant for cleanup code.
pub trait ComponentStorage<T>: Sized {
    /// Internal coherence of the table.
    spec fn storage_wf(&self) -> bool;

    /// The component stored for the entity with index `entity_index`.
    spec fn component_at(&self, entity_index: int) -> Option<T>;

    /// Machine-limit headroom needed before one more value can be stored.
    spec fn can_allocate(&self) -> bool;

    fn new() -> (r: Self)
        ensures
            r.storage_wf(),
            r.can_allocate(),
            forall|i: int| r.component_at(i) is None;

    fn allocate(&mut self, entity: &EntityHandle, data: T)
        requires
            old(self).storage_wf(),
            old(self).can_allocate(),
            old(self).component_at(entity.index as int) is None,
            (entity.index as int) < u32::MAX as int,
        ensures
            final(self).storage_wf(),
            final(self).component_at(entity.index as int) == Some(data),
            forall|i: int|
                i != entity.index as int ==> final(self).component_at(i) == old(self).component_at(
                    i,
                );

    fn free(&mut self, entity: &EntityHandle)
        requires
            old(self).storage_wf(),
            old(self).component_at(entity.index as int) is Some,
        ensures
            final(self).storage_wf(),
            final(self).can_allocate(),
            final(self).component_at(entity.index as int) is None,
            forall|i: int|
                i != entity.index as int ==> final(self).component_at(i) == old(self).component_at(
                    i,
                );

    fn free_if_exists(&mut self, entity: &EntityHandle)
        requires
            old(self).storage_wf(),
        ensures
            final(self).storage_wf(),
            final(self).component_at(entity.index as int) is None,
            forall|i: int|
                i != entity.index as int ==> final(self).component_at(i) == old(self).component_at(
                    i,
                );

    fn has_component(&self, entity: &EntityHandle) -> (r: bool)
        requires
            self.storage_wf(),
        ensures
            r == (self.component_at(entity.index as int) is Some);

    fn get(&self, entity: &EntityHandle) -> (r: Option<&T>)
        requires
            self.storage_wf(),
        ensures
            r is Some <==> self.component_at(entity.index as int) is Some,
            r is Some ==> *r.unwrap() == self.component_at(entity.index as int).unwrap();

    fn get_mut(&mut self, entity: &EntityHandle) -> (r: Option<&mut T>)
        requires
            old(self).storage_wf(),
        ensures
            final(self).storage_wf(),
            final(self).can_allocate() == old(self).can_allocate(),
            r is Some <==> old(self).component_at(entity.index as int) is Some,
            r is Some ==> *r.unwrap() == old(self).component_at(entity.index as int).unwrap() && final(self).component_at(entity.index as int) == Some(*final(r.unwrap())),
            r is None ==> final(self).component_at(entity.index as int) is None,
            forall|i: int|
                i != entity.index as int ==> final(self).component_at(i) == old(self).component_at(
                    i,
                );
}

/// Free callback driven once per flush with the complete batch of entities
/// freed this tick; the implementor must drop whatever it holds for them.
pub trait ComponentFreeHandler {
    /// Whether the implementor still holds data for the entity index `i`.
    spec fn holds_for(&self, entity_index: int) -> bool;

    /// Internal coherence of the implementor.
    spec fn handler_wf(&self) -> bool;

    fn on_entities_free(&mut self, handles: &Vec<EntityHandle>)
        requires
            old(self).handler_wf(),
        ensures
            final(self).handler_wf(),
            forall|k: int|
                0 <= k < handles@.len() ==> !final(self).holds_for(
                    (#[trigger] handles@[k]).index as int,
                ),
            forall|i: int|
                !batch_contains_index(handles@, i) ==> final(self).holds_for(i) == old(self).holds_for(i);
}

/// Dense, vector-backed component table: indexed directly by entity index,
/// grows monotonically, O(1) access; space is wasted for sparse components.
pub struct VecComponentStorage<T> {
    /// The table; the slot at an entity's index holds its component, if any.
    pub components: Vec<Option<T>>,
}

impl<T> VecComponentStorage<T> {
    /// Detaches every component in the table.
    pub fn free_all(&mut self)
        ensures
            final(self).storage_wf() == old(self).storage_wf(),
            forall|i: int| final(self).component_at(i) is None,
    {
        let mut i: usize = 0;
        while i < self.components.len()
            invariant
                i <= self.components@.len(),
                self.components@.len() == old(self).components@.len(),
                forall|j: int| 0 <= j < i as int ==> self.components@[j] is None,
            decreases self.components@.len() - i,
        {
            self.components.set(i, None);
            i = i + 1;
        }
    }
}

impl<T> ComponentStorage<T> for VecComponentStorage<T> {
    open spec fn storage_wf(&self) -> bool {
        self.components@.len() <= u32::MAX as int
    }

    open spec fn component_at(&self, entity_index: int) -> Option<T> {
        if 0 <= entity_index < self.components@.len() {
            self.components@[entity_index]
        } else {
            None
        }
    }

    open spec fn can_allocate(&self) -> bool {
        true
    }

    fn new() -> (r: Self) {
        VecComponentStorage::<T> { components: Vec::new() }
    }

    fn allocate(&mut self, entity: &EntityHandle, data: T) {
        let index = entity.index() as usize;
        // Extend the table so the entity's index is in range.
        while self.components.len() <= index
            invariant
                index < u32::MAX as usize,
                self.components@.len() <= u32::MAX as int,
                forall|i: int| self.component_at(i) == old(self).component_at(i),
            decreases index + 1 - self.components@.len(),
        {
            self.components.push(None);
        }
        self.components.set(index, Some(data));
    }

    fn free(&mut self, entity: &EntityHandle) {
        self.components.set(entity.index() as usize, None);
    }

    fn free_if_exists(&mut self, entity: &EntityHandle) {
        let index = entity.index() as usize;
        if index < self.components.len() {
            if self.components[index].is_some() {
                self.components.set(index, None);
            }
        }
    }

    fn has_component(&self, entity: &EntityHandle) -> (r: bool) {
        let index = entity.index() as usize;
        if index < self.components.len() {
            self.components[index].is_some()
        } else {
            false
        }
    }

    fn get(&self, entity: &EntityHandle) -> (r: Option<&T>) {
        let index = entity.index() as usize;
        if index < self.components.len() {
            self.components[index].as_ref()
        } else {
            None
        }
    }

    fn get_mut(&mut self, entity: &EntityHandle) -> (r: Option<&mut T>) {
        let index = entity.index() as usize;
        if index < self.components.len() {
            let slot = &mut self.components[index];
            slot.as_mut()
        } else {
            None
        }
    }
}

impl<T> ComponentFreeHandler for VecComponentStorage<T> {
    open spec fn holds_for(&self, entity_index: int) -> bool {
        self.component_at(entity_index) is Some
    }

    open spec fn handler_wf(&self) -> bool {
        self.storage_wf()
    }

    fn on_entities_free(&mut self, handles: &Vec<EntityHandle>) {
        let mut k: usize = 0;
        while k < handles.len()
            invariant
                k <= handles@.len(),
                self.storage_wf(),
                forall|m: int|
                    0 <= m < k as int ==> self.component_at(
                        (#[trigger] handles@[m]).index as int,
                    ) is None,
                forall|i: int|
                    !batch_contains_index(handles@.take(k as int), i) ==> self.component_at(i)
                        == old(self).component_at(i),
            decreases handles@.len() - k,
        {
            let h = handles[k];
            self.free_if_exists(&h);
            proof {
                assert forall|i: int|
                    !batch_contains_index(handles@.take((k as int) + 1), i) implies self
                    .component_at(i) == old(self).component_at(i) by {
                    assert(!batch_contains_index(handles@.take(k as int), i)) by {
                        if batch_contains_index(handles@.take(k as int), i) {
                            let m = choose|m: int|
                                0 <= m < k as int && (#[trigger] handles@.take(k as int)[m]).index
                                    as int == i;
                            assert((handles@.take((k as int) + 1)[m]).index as int == i);
                        }
                    }
                    assert(handles@.take((k as int) + 1)[k as int] == handles@[k as int]);
                    assert(i != handles@[k as int].index as int);
                }
                assert forall|m: int|
                    0 <= m < (k as int) + 1 implies self.component_at(
                    (#[trigger] handles@[m]).index as int,
                ) is None by {
                    if m < k as int {
                        if handles@[m].index != handles@[k as int].index {
                        }
                    }
                }
            }
            k = k + 1;
        }
        proof {
            assert(handles@.take(handles@.len() as int) =~= handles@);
            assert forall|i: int| !batch_contains_index(handles@, i) implies self.component_at(i)
                == old(self).component_at(i) by {
                if batch_contains_index(handles@.take(handles@.len() as int), i) {
                }
            }
        }
    }
}

} // verus!

verus! {

/// Slab-backed component table: components live in an internal slab with their
/// own stable keys, and a side index maps each entity index to its key. Used
/// when components need independent stable handles.
pub struct SlabComponentStorage<T> {
    /// The components themselves.
    pub slab: RawSlab<T>,
    /// Side index from entity index to the slab key of that entity's component.
    pub slab_keys: Vec<Option<RawSlabKey<T>>>,
}

impl<T> SlabComponentStorage<T> {
    /// The slab key recorded for `entity_index`, if any.
    pub open spec fn key_at(&self, entity_index: int) -> Option<RawSlabKey<T>> {
        if 0 <= entity_index < self.slab_keys@.len() {
            self.slab_keys@[entity_index]
        } else {
            None
        }
    }
}

impl<T> ComponentStorage<T> for SlabComponentStorage<T> {
    open spec fn storage_wf(&self) -> bool {
        &&& self.slab.wf()
        &&& self.slab_keys@.len() <= u32::MAX as int
        &&& forall|i: int|
            0 <= i < self.slab_keys@.len() && self.slab_keys@[i] is Some ==> self.slab.value_at(
                (#[trigger] self.slab_keys@[i]).unwrap().index as int,
            ) is Some
        &&& forall|i1: int, i2: int|
            0 <= i1 < i2 < self.slab_keys@.len() && self.slab_keys@[i1] is Some
                && self.slab_keys@[i2] is Some ==> (#[trigger] self.slab_keys@[i1]).unwrap().index
                != (#[trigger] self.slab_keys@[i2]).unwrap().index
    }

    open spec fn component_at(&self, entity_index: int) -> Option<T> {
        match self.key_at(entity_index) {
            Some(key) => self.slab.value_at(key.index as int),
            None => None,
        }
    }

    open spec fn can_allocate(&self) -> bool {
        self.slab.free_list@.len() > 0 || self.slab.storage@.len() < u32::MAX as int
    }

    fn new() -> (r: Self) {
        SlabComponentStorage::<T> { slab: RawSlab::new(), slab_keys: Vec::new() }
    }

    fn allocate(&mut self, entity: &EntityHandle, data: T) {
        let index = entity.index() as usize;
        // Extend the side index so the entity's index is in range.
        while self.slab_keys.len() <= index
            invariant
                index < u32::MAX as usize,
                self.slab_keys@.len() <= u32::MAX as int,
                self.slab == old(self).slab,
                forall|i: int| self.key_at(i) == old(self).key_at(i),
            decreases index + 1 - self.slab_keys@.len(),
        {
            self.slab_keys.push(None);
        }
        let key = self.slab.allocate(data);
        self.slab_keys.set(index, Some(key));
        proof {
            assert forall|i: int|
                0 <= i < self.slab_keys@.len() && self.slab_keys@[i] is Some implies self
                .slab
                .value_at((#[trigger] self.slab_keys@[i]).unwrap().index as int) is Some by {
                if i != index as int {
                    assert(old(self).key_at(i) == self.slab_keys@[i]);
                }
            }
            assert forall|i: int|
                i != index as int implies self.component_at(i) == old(self).component_at(i) by {
                if 0 <= i < self.slab_keys@.len() && self.slab_keys@[i] is Some {
                    assert(old(self).key_at(i) == self.slab_keys@[i]);
                }
            }
            assert forall|i1: int, i2: int|
                0 <= i1 < i2 < self.slab_keys@.len() && self.slab_keys@[i1] is Some
                    && self.slab_keys@[i2] is Some implies (
            #[trigger] self.slab_keys@[i1]).unwrap().index != (
            #[trigger] self.slab_keys@[i2]).unwrap().index by {
                if i1 != index as int && i2 != index as int {
                    assert(old(self).key_at(i1) == self.slab_keys@[i1]);
                    assert(old(self).key_at(i2) == self.slab_keys@[i2]);
                } else if i1 == index as int {
                    assert(old(self).key_at(i2) == self.slab_keys@[i2]);
                    assert(old(self).slab.value_at(self.slab_keys@[i2].unwrap().index as int) is Some);
                } else {
                    assert(old(self).key_at(i1) == self.slab_keys@[i1]);
                    assert(old(self).slab.value_at(self.slab_keys@[i1].unwrap().index as int) is Some);
                }
            }
        }
    }

    fn free(&mut self, entity: &EntityHandle) {
        let index = entity.index() as usize;
        let key = self.slab_keys[index].unwrap();
        proof {
            assert(self.slab_keys@[index as int] is Some);
            assert(self.slab.value_at(key.index as int) is Some);
        }
        self.slab.free(&key);
        self.slab_keys.set(index, None);
        proof {
            assert forall|i: int|
                i != index as int implies self.component_at(i) == old(self).component_at(i) by {
                if 0 <= i < self.slab_keys@.len() && self.slab_keys@[i] is Some {
                    assert(old(self).key_at(i) == self.slab_keys@[i]);
                    if i < index as int {
                        assert(old(self).slab_keys@[i].unwrap().index != key.index);
                    } else {
                        assert(old(self).slab_keys@[i].unwrap().index != key.index);
                    }
                }
            }
        }
    }

    fn free_if_exists(&mut self, entity: &EntityHandle) {
        let index = entity.index() as usize;
        if index < self.slab_keys.len() {
            if self.slab_keys[index].is_some() {
                self.free(entity);
            }
        }
    }

    fn has_component(&self, entity: &EntityHandle) -> (r: bool) {
        let index = entity.index() as usize;
        if index < self.slab_keys.len() {
            self.slab_keys[index].is_some()
        } else {
            false
        }
    }

    fn get(&self, entity: &EntityHandle) -> (r: Option<&T>) {
        let index = entity.index() as usize;
        if index < self.slab_keys.len() {
            match &self.slab_keys[index] {
                Some(key) => {
                    proof {
                        assert(self.slab_keys@[index as int] is Some);
                        assert(self.slab.value_at(key.index as int) is Some);
                    }
                    self.slab.get(key)
                },
                None => None,
            }
        } else {
            None
        }
    }

    fn get_mut(&mut self, entity: &EntityHandle) -> (r: Option<&mut T>) {
        let index = entity.index() as usize;
        if index < self.slab_keys.len() {
            let key_opt = self.slab_keys[index];
            match key_opt {
                Some(key) => {
                    proof {
                        assert(self.slab_keys@[index as int] is Some);
                        assert(self.slab.value_at(key.index as int) is Some);
                    }
                    self.slab.get_mut(&key)
                },
                None => None,
            }
        } else {
            None
        }
    }
}

impl<T> ComponentFreeHandler for SlabComponentStorage<T> {
    open spec fn holds_for(&self, entity_index: int) -> bool {
        self.component_at(entity_index) is Some
    }

    open spec fn handler_wf(&self) -> bool {
        self.storage_wf()
    }

    fn on_entities_free(&mut self, handles: &Vec<EntityHandle>) {
        let mut k: usize = 0;
        while k < handles.len()
            invariant
                k <= handles@.len(),
                self.storage_wf(),
                forall|m: int|
                    0 <= m < k as int ==> self.component_at(
                        (#[trigger] handles@[m]).index as int,
                    ) is None,
                forall|i: int|
                    !batch_contains_index(handles@.take(k as int), i) ==> self.component_at(i)
                        == old(self).component_at(i),
            decreases handles@.len() - k,
        {
            let h = handles[k];
            self.free_if_exists(&h);
            proof {
                assert forall|i: int|
                    !batch_contains_index(handles@.take((k as int) + 1), i) implies self
                    .component_at(i) == old(self).component_at(i) by {
                    assert(!batch_contains_index(handles@.take(k as int), i)) by {
                        if batch_contains_index(handles@.take(k as int), i) {
                            let m = choose|m: int|
                                0 <= m < k as int && (#[trigger] handles@.take(k as int)[m]).index
                                    as int == i;
                            assert((handles@.take((k as int) + 1)[m]).index as int == i);
                        }
                    }
                    assert(handles@.take((k as int) + 1)[k as int] == handles@[k as int]);
                    assert(i != handles@[k as int].index as int);
                }
                assert forall|m: int|
                    0 <= m < (k as int) + 1 implies self.component_at(
                    (#[trigger] handles@[m]).index as int,
                ) is None by {
                    if m < k as int {
                        if handles@[m].index != handles@[k as int].index {
                        }
                    }
                }
            }
            k = k + 1;
        }
        proof {
            assert(handles@.take(handles@.len() as int) =~= handles@);
            assert forall|i: int| !batch_contains_index(handles@, i) implies self.component_at(i)
                == old(self).component_at(i) by {
                if batch_contains_index(handles@.take(handles@.len() as int), i) {
                }
            }
        }
    }
}

} // verus!

verus! {

use crate::entity::EntitySet;

/// The table only holds components for live entities: every populated index
/// names an occupied slot of the entity store, so iteration can upgrade raw
/// indices to validated handles.
pub open spec fn storage_matches_entities<T>(
    storage: VecComponentStorage<T>,
    entity_set: EntitySet,
) -> bool {
    forall|i: int|
        #[trigger] storage.component_at(i) is Some ==> 0 <= i
            < entity_set.slab.storage@.len() && entity_set.slab.value_at(i) is Some
}

/// Cursor over the populated entries of a `VecComponentStorage`, in entity
/// index order. The table stores values by raw index for speed; each step
/// upgrades the index through the entity store so the caller always receives
/// a generation-checked handle.
pub struct VecComponentIterator {
    /// First entity index not yet visited.
    pub next_index: usize,
}

impl VecComponentIterator {
    pub fn new() -> (r: Self)
        ensures
            r.next_index == 0,
    {
        VecComponentIterator { next_index: 0 }
    }

    /// The next populated entry at or past the cursor, as a validated handle
    /// and a reference to the component; `None` once the table is exhausted.
    pub fn next<'a, T>(
        &mut self,
        entity_set: &EntitySet,
        storage: &'a VecComponentStorage<T>,
    ) -> (r: Option<(EntityHandle, &'a T)>)
        requires
            entity_set.wf(),
            storage.storage_wf(),
            storage_matches_entities(*storage, *entity_set),
        ensures
            r is None ==> forall|j: int|
                old(self).next_index as int <= j ==> storage.component_at(j) is None,
            r is Some ==> {
                let h = r.unwrap().0;
                &&& entity_set.slab.valid_handle(h)
                &&& storage.component_at(h.index as int) == Some(*r.unwrap().1)
                &&& old(self).next_index as int <= h.index as int
                &&& forall|j: int|
                    old(self).next_index as int <= j < h.index as int
                        ==> storage.component_at(j) is None
                &&& final(self).next_index as int == h.index as int + 1
            },
    {
        let mut i = self.next_index;
        while i < storage.components.len()
            invariant
                entity_set.wf(),
                storage.storage_wf(),
                storage_matches_entities(*storage, *entity_set),
                self.next_index == old(self).next_index,
                self.next_index <= i,
                forall|j: int|
                    self.next_index as int <= j < i as int ==> storage.component_at(j) is None,
            decreases storage.components@.len() - i,
        {
            if storage.components[i].is_some() {
                proof {
                    assert(storage.component_at(i as int) is Some);
                }
                let h = entity_set.upgrade_index_to_handle(i as u32);
                let value = storage.components[i].as_ref().unwrap();
                self.next_index = i + 1;
                return Some((h, value));
            }
            i = i + 1;
        }
        self.next_index = i;
        None
    }
}

/// Mutable counterpart of `VecComponentIterator`: visits populated entries in
/// entity index order, yielding a validated handle and mutable access to the
/// component.
pub struct VecComponentIteratorMut {
    /// First entity index not yet visited.
    pub next_index: usize,
}

impl VecComponentIteratorMut {
    pub fn new() -> (r: Self)
        ensures
            r.next_index == 0,
    {
        VecComponentIteratorMut { next_index: 0 }
    }

    /// The next populated entry at or past the cursor; no other entry of the
    /// table is touched through the returned reference.
    pub fn next<'a, T>(
        &mut self,
        entity_set: &EntitySet,
        storage: &'a mut VecComponentStorage<T>,
    ) -> (r: Option<(EntityHandle, &'a mut T)>)
        requires
            entity_set.wf(),
            old(storage).storage_wf(),
            storage_matches_entities(*old(storage), *entity_set),
        ensures
            final(storage).storage_wf(),
            r is None ==> *final(storage) == *old(storage) && (forall|j: int|
                old(self).next_index as int <= j ==> old(storage).component_at(j) is None),
            r is Some ==> {
                let h = r.unwrap().0;
                &&& entity_set.slab.valid_handle(h)
                &&& old(storage).component_at(h.index as int) == Some(*r.unwrap().1)
                &&& final(storage).component_at(h.index as int) == Some(*final(r.unwrap().1))
                &&& forall|j: int|
                    j != h.index as int ==> final(storage).component_at(j) == old(
                        storage,
                    ).component_at(j)
                &&& old(self).next_index as int <= h.index as int
                &&& forall|j: int|
                    old(self).next_index as int <= j < h.index as int ==> old(
                        storage,
                    ).component_at(j) is None
                &&& final(self).next_index as int == h.index as int + 1
            },
    {
        let mut i = self.next_index;
        while i < storage.components.len()
            invariant
                entity_set.wf(),
                storage.storage_wf(),
                storage_matches_entities(*storage, *entity_set),
                *storage == *old(storage),
                self.next_index == old(self).next_index,
                self.next_index <= i,
                forall|j: int|
                    self.next_index as int <= j < i as int ==> storage.component_at(j) is None,
            decreases storage.components@.len() - i,
        {
            if storage.components[i].is_some() {
                proof {
                    assert(storage.component_at(i as int) is Some);
                }
                let h = entity_set.upgrade_index_to_handle(i as u32);
                self.next_index = i + 1;
                let slot = &mut storage.components[i];
                return Some((h, slot.as_mut().unwrap()));
            }
            i = i + 1;
        }
        self.next_index = i;
        None
    }
}

impl<T> VecComponentStorage<T> {
    /// A cursor over the populated entries, paired with the entity store that
    /// validates their handles.
    pub fn iter(&self, entity_set: &EntitySet) -> (r: VecComponentIterator)
        ensures
            r.next_index == 0,
    {
        let _ = entity_set;
        VecComponentIterator::new()
    }

    /// A mutable cursor over the populated entries.
    pub fn iter_mut(&mut self, entity_set: &EntitySet) -> (r: VecComponentIteratorMut)
        ensures
            *final(self) == *old(self),
            r.next_index == 0,
    {
        let _ = entity_set;
        VecComponentIteratorMut::new()
    }
}

} // verus!

verus! {

use crate::entity::Entity;
use crate::slab::GenSlab;

/// The creation requests whose entity is still alive, in queue order: what a
/// flush must materialize, leaving out requests whose entity died while the
/// request was pending.
pub open spec fn alive_requests<P>(
    slab: GenSlab<Entity>,
    requests: Seq<(EntityHandle, P)>,
) -> Seq<(EntityHandle, P)>
    decreases requests.len(),
{
    if requests.len() == 0 {
        Seq::empty()
    } else {
        let rest = alive_requests(slab, requests.drop_last());
        if slab.valid_handle(requests.last().0) {
            rest.push(requests.last())
        } else {
            rest
        }
    }
}

/// Deferred component creation: requests are queued during the tick and
/// materialized at one well-defined flush point, so creation logic can
/// consult already-committed components before finalizing. The primary store
/// is never mutated while systems iterate it.
pub struct ComponentCreateQueue<P> {
    /// The queued requests, in arrival order.
    pub prototypes: Vec<(EntityHandle, P)>,
}

impl<P> ComponentCreateQueue<P> {
    pub fn new() -> (r: Self)
        ensures
            r.prototypes@.len() == 0,
    {
        ComponentCreateQueue { prototypes: Vec::new() }
    }

    /// Queues a creation request for `entity_handle` without touching any
    /// component table.
    pub fn enqueue_create(&mut self, entity_handle: &EntityHandle, prototype: P)
        ensures
            final(self).prototypes@ == old(self).prototypes@.push((*entity_handle, prototype)),
    {
        self.prototypes.push((entity_handle.clone(), prototype));
    }

    /// Drains the queue and returns the requests to materialize: exactly
    /// those whose entity is still alive, in arrival order. A request whose
    /// entity died while pending is dropped silently — a recoverable
    /// absence, not an error.
    pub fn flush_creates(&mut self, entity_set: &EntitySet) -> (r: Vec<(EntityHandle, P)>)
        requires
            entity_set.wf(),
        ensures
            final(self).prototypes@.len() == 0,
            r@ == alive_requests(entity_set.slab, old(self).prototypes@),
    {
        let ghost all = old(self).prototypes@;
        let mut out: Vec<(EntityHandle, P)> = Vec::new();
        let ghost processed: Seq<(EntityHandle, P)> = Seq::empty();
        let mut processed_len: Ghost<int> = Ghost(0);
        while self.prototypes.len() > 0
            invariant
                entity_set.wf(),
                0 <= processed_len@ <= all.len(),
                self.prototypes@ == all.skip(processed_len@),
                out@ == alive_requests(entity_set.slab, all.take(processed_len@)),
            decreases self.prototypes@.len(),
        {
            let (handle, prototype) = self.prototypes.remove(0);
            proof {
                assert(all.skip(processed_len@)[0] == all[processed_len@]);
                assert((handle, prototype) == all[processed_len@]);
                assert(all.take(processed_len@ + 1).drop_last() == all.take(processed_len@));
                assert(all.take(processed_len@ + 1).last() == all[processed_len@]);
            }
            if entity_set.get_entity_ref(&handle).is_some() {
                out.push((handle, prototype));
            }
            proof {
                assert(self.prototypes@ =~= all.skip(processed_len@ + 1));
            }
            processed_len = Ghost(processed_len@ + 1);
        }
        proof {
            assert(all.take(processed_len@) =~= all);
        }
        out
    }
}

} // verus!
