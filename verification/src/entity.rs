//! Entity store: issues generation-stamped entity handles, defers destruction
//! to an explicit per-tick flush, and notifies every registered component
//! table so no table keeps data for a dead entity.

use vstd::prelude::*;

use crate::component::batch_contains_index;
use crate::component::ComponentFreeHandler;
use crate::component::ComponentStorage;
use crate::resource::ResourceId;
use crate::resource::ResourceMap;
use crate::slab::GenSlab;
use crate::slab::GenSlabKey;

verus! {

/// Handle to one entity; a slot in the entity store's generational slab.
pub type EntityHandle = GenSlabKey<Entity>;

/// Opaque marker for one live entity. Entities own no inline data: all entity
/// state lives in component tables keyed by the entity's handle.
#[derive(Debug)]
pub struct Entity {}

impl Entity {
    pub fn new() -> Self {
        Entity {  }
    }
}

/// Signaled when a component is added to an entity that already has one of
/// that type; silent overwrite is forbidden.
#[derive(Debug, PartialEq, Eq, Structural)]
pub enum ComponentAddError {
    AlreadyExists,
}

/// Short-lived accessor bound to one entity handle, for component calls
/// against a caller-supplied component table.
pub struct EntityRef {
    pub handle: EntityHandle,
}

impl EntityRef {
    pub fn new(handle: EntityHandle) -> (r: Self)
        ensures
            r.handle == handle,
    {
        EntityRef { handle }
    }

    /// Attaches `data` to this entity in `storage`; fails without touching the
    /// table when the entity already has a component there.
    pub fn add_component<T, S: ComponentStorage<T>>(&self, storage: &mut S, data: T) -> (r: Result<
        (),
        ComponentAddError,
    >)
        requires
            old(storage).storage_wf(),
            old(storage).can_allocate(),
            (self.handle.index as int) < u32::MAX as int,
        ensures
            final(storage).storage_wf(),
            r is Ok <==> old(storage).component_at(self.handle.index as int) is None,
            r is Ok ==> final(storage).component_at(self.handle.index as int) == Some(data),
            r is Err ==> r == Result::<(), ComponentAddError>::Err(ComponentAddError::AlreadyExists)
                && final(storage).component_at(self.handle.index as int) == old(storage).component_at(self.handle.index as int),
            forall|i: int|
                i != self.handle.index as int ==> final(storage).component_at(i) == old(storage).component_at(i),
    {
        if storage.has_component(&self.handle) {
            Err(ComponentAddError::AlreadyExists)
        } else {
            storage.allocate(&self.handle, data);
            Ok(())
        }
    }

    /// Detaches this entity's component from `storage`. Removing a component
    /// that is not there is a programmer error and is excluded by precondition.
    pub fn remove_component<T, S: ComponentStorage<T>>(&self, storage: &mut S)
        requires
            old(storage).storage_wf(),
            old(storage).component_at(self.handle.index as int) is Some,
        ensures
            final(storage).storage_wf(),
            final(storage).component_at(self.handle.index as int) is None,
            forall|i: int|
                i != self.handle.index as int ==> final(storage).component_at(i) == old(storage).component_at(i),
    {
        storage.free(&self.handle);
    }

    /// Reads this entity's component from `storage`, if it has one.
    pub fn get_component<'c, T, S: ComponentStorage<T>>(&self, storage: &'c S) -> (r: Option<&'c T>)
        requires
            storage.storage_wf(),
        ensures
            r is Some <==> storage.component_at(self.handle.index as int) is Some,
            r is Some ==> *r.unwrap() == storage.component_at(self.handle.index as int).unwrap(),
    {
        storage.get(&self.handle)
    }

    /// Mutable access to this entity's component in `storage`, if it has one.
    pub fn get_component_mut<'c, T, S: ComponentStorage<T>>(&self, storage: &'c mut S) -> (r:
        Option<&'c mut T>)
        requires
            old(storage).storage_wf(),
        ensures
            final(storage).storage_wf(),
            r is Some <==> old(storage).component_at(self.handle.index as int) is Some,
            r is Some ==> *r.unwrap() == old(storage).component_at(self.handle.index as int).unwrap()
                && final(storage).component_at(self.handle.index as int) == Some(
                *final(r.unwrap()),
            ),
            r is None ==> final(storage).component_at(self.handle.index as int) is None,
            forall|i: int|
                i != self.handle.index as int ==> final(storage).component_at(i) == old(storage).component_at(i),
    {
        storage.get_mut(&self.handle)
    }
}

} // verus!

verus! {

/// What `on_entities_free` leaves behind: the handler holds nothing for any
/// freed entity and everything it held for the others.
pub open spec fn table_cleared<R: ComponentFreeHandler>(
    pre: R,
    post: R,
    batch: Seq<EntityHandle>,
) -> bool {
    &&& post.handler_wf()
    &&& forall|k: int| 0 <= k < batch.len() ==> !post.holds_for((#[trigger] batch[k]).index as int)
    &&& forall|i: int| !batch_contains_index(batch, i) ==> post.holds_for(i) == pre.holds_for(i)
}

/// Registry of the component tables an entity store must notify when entities
/// die: one resource id per registered component type. Populated once at
/// setup, consulted only during the deferred-free flush.
pub struct ComponentRegistry {
    /// Resource ids of the registered component tables.
    pub ids: Vec<ResourceId>,
}

impl ComponentRegistry {
    pub fn new() -> (r: Self)
        ensures
            r.ids@.len() == 0,
    {
        ComponentRegistry { ids: Vec::new() }
    }

    /// Records the component table registered under `id`; each table is
    /// registered exactly once.
    pub fn register_component(&mut self, id: ResourceId)
        requires
            !old(self).ids@.contains(id),
        ensures
            final(self).ids@ == old(self).ids@.push(id),
    {
        self.ids.push(id);
    }
}

/// Allocates and frees entity handles. Destruction is two-phase: `enqueue_free`
/// only marks intent, so entities marked for death stay fully queryable, and
/// `flush_free` — called once per tick boundary — invalidates the handles and
/// hands the whole batch to every registered component table's free callback.
pub struct EntitySet {
    /// The entity handles' slab.
    pub slab: GenSlab<Entity>,
    /// The component tables to notify on flush.
    pub component_registry: ComponentRegistry,
    /// Handles marked for destruction since the last flush.
    pub pending_deletes: Vec<EntityHandle>,
}

impl EntitySet {
    /// Pending handles are valid, mark distinct entities, and leave their
    /// slots generation headroom; registered ids are distinct.
    pub open spec fn wf(&self) -> bool {
        &&& self.slab.wf()
        &&& forall|k: int|
            0 <= k < self.pending_deletes@.len() ==> self.slab.valid_handle(
                #[trigger] self.pending_deletes@[k],
            )
        &&& forall|k: int|
            0 <= k < self.pending_deletes@.len() ==> (#[trigger] self.pending_deletes@[k]).generation
                < u32::MAX
        &&& forall|k1: int, k2: int|
            0 <= k1 < k2 < self.pending_deletes@.len() ==> (
            #[trigger] self.pending_deletes@[k1]).index != (
            #[trigger] self.pending_deletes@[k2]).index
        &&& self.component_registry.ids@.no_duplicates()
    }

    /// Number of active entities; entities pending free still count until the
    /// flush.
    pub open spec fn spec_entity_count(&self) -> int {
        self.slab.spec_active_count()
    }

    pub fn new() -> (r: Self)
        ensures
            r.wf(),
            r.spec_entity_count() == 0,
            r.pending_deletes@.len() == 0,
            r.component_registry.ids@.len() == 0,
            forall|h: EntityHandle| !r.slab.valid_handle(h),
    {
        EntitySet {
            slab: GenSlab::new(),
            component_registry: ComponentRegistry::new(),
            pending_deletes: Vec::new(),
        }
    }

    /// Registers a component table: inserts `storage` into the resource map
    /// under `id` and records `id` for the deferred-free flush.
    pub fn register_component_type<R>(
        &mut self,
        id: ResourceId,
        storage: R,
        resource_map: &mut ResourceMap<R>,
    )
        requires
            old(self).wf(),
            old(resource_map).res_at(id as int) is None,
            !old(self).component_registry.ids@.contains(id),
            id < usize::MAX,
        ensures
            final(self).wf(),
            final(self).slab == old(self).slab,
            final(self).pending_deletes == old(self).pending_deletes,
            final(self).component_registry.ids@ == old(self).component_registry.ids@.push(id),
            final(resource_map).res_at(id as int) == Some(storage),
            forall|j: int|
                j != id as int ==> final(resource_map).res_at(j) == old(resource_map).res_at(j),
    {
        resource_map.insert(id, storage);
        self.component_registry.register_component(id);
    }

    /// Creates an entity, immediately usable by the caller.
    pub fn allocate(&mut self) -> (h: EntityHandle)
        requires
            old(self).wf(),
            old(self).slab.storage@.len() < u32::MAX as int,
        ensures
            final(self).wf(),
            final(self).slab.valid_handle(h),
            !old(self).slab.valid_handle(h),
            (h.index as int) < u32::MAX as int,
            final(self).spec_entity_count() == old(self).spec_entity_count() + 1,
            final(self).pending_deletes == old(self).pending_deletes,
            final(self).component_registry == old(self).component_registry,
            forall|h2: EntityHandle|
                old(self).slab.valid_handle(h2) ==> final(self).slab.valid_handle(h2),
            crate::slab::generations_advance_from(old(self).slab, final(self).slab),
    {
        self.slab.allocate(Entity::new())
    }

    /// Marks `entity_handle` for destruction without invalidating it: queries
    /// and systems running earlier in a tick still see the entity until the
    /// flush point. Marking a stale handle, or the same entity twice in one
    /// tick, is a programmer error and is excluded by precondition.
    pub fn enqueue_free(&mut self, entity_handle: &EntityHandle)
        requires
            old(self).wf(),
            old(self).slab.valid_handle(*entity_handle),
            entity_handle.generation < u32::MAX,
            forall|k: int|
                0 <= k < old(self).pending_deletes@.len() ==> (
                #[trigger] old(self).pending_deletes@[k]).index != entity_handle.index,
        ensures
            final(self).wf(),
            final(self).slab == old(self).slab,
            final(self).spec_entity_count() == old(self).spec_entity_count(),
            final(self).pending_deletes@ == old(self).pending_deletes@.push(*entity_handle),
            final(self).component_registry == old(self).component_registry,
    {
        self.pending_deletes.push(entity_handle.clone());
    }

    /// Number of active (non-freed) entities; enqueued entities still count.
    pub fn entity_count(&self) -> (n: usize)
        requires
            self.wf(),
        ensures
            n as int == self.spec_entity_count(),
    {
        self.slab.active_count()
    }

    /// A short-lived accessor for `entity_handle`, or `None` — a signaled
    /// failure, not a crash — when the handle is stale.
    pub fn get_entity_ref(&self, entity_handle: &EntityHandle) -> (r: Option<EntityRef>)
        requires
            self.wf(),
        ensures
            r is Some <==> self.slab.valid_handle(*entity_handle),
            r is Some ==> r.unwrap().handle == *entity_handle && (r.unwrap().handle.index as int)
                < u32::MAX as int,
    {
        let handle = entity_handle.clone();
        match self.slab.get(entity_handle) {
            Some(_) => Some(EntityRef::new(handle)),
            None => None,
        }
    }

    /// Reads the entity behind `entity_handle`; `None` for a stale handle.
    pub fn get_entity(&self, entity_handle: &EntityHandle) -> (r: Option<&Entity>)
        ensures
            r is Some <==> self.slab.valid_handle(*entity_handle),
    {
        self.slab.get(entity_handle)
    }

    /// Mutable access to the entity behind `entity_handle`; `None` for a stale
    /// handle.
    pub fn get_entity_mut(&mut self, entity_handle: &EntityHandle) -> (r: Option<&mut Entity>)
        requires
            old(self).wf(),
        ensures
            final(self).wf(),
            r is Some <==> old(self).slab.valid_handle(*entity_handle),
            final(self).spec_entity_count() == old(self).spec_entity_count(),
            final(self).pending_deletes == old(self).pending_deletes,
            final(self).component_registry == old(self).component_registry,
            forall|h2: EntityHandle|
                final(self).slab.valid_handle(h2) == old(self).slab.valid_handle(h2),
    {
        let r = self.slab.get_mut(entity_handle);
        r
    }

    /// Rebuilds a validated handle for the live entity at `index`; iteration
    /// over component tables stores raw indices and uses this to hand full
    /// handles back.
    pub fn upgrade_index_to_handle(&self, index: crate::slab::SlabIndexT) -> (h: EntityHandle)
        requires
            self.wf(),
            (index as int) < self.slab.storage@.len(),
            self.slab.value_at(index as int) is Some,
        ensures
            self.slab.valid_handle(h),
            h.index == index,
    {
        self.slab.upgrade_index_to_handle(index)
    }

    /// Validated handles of all live entities, in increasing index order.
    pub fn active_handles(&self) -> (r: Vec<EntityHandle>)
        requires
            self.wf(),
        ensures
            forall|k: int| 0 <= k < r@.len() ==> self.slab.valid_handle(#[trigger] r@[k]),
            forall|k1: int, k2: int| 0 <= k1 < k2 < r@.len() ==> r@[k1].index < r@[k2].index,
            forall|i: int|
                0 <= i < self.slab.storage@.len() && self.slab.value_at(i) is Some ==> exists|k: int|
                    0 <= k < r@.len() && (#[trigger] r@[k]).index as int == i,
    {
        self.slab.active_handles()
    }

    /// Drains the pending-free queue without walking any table: frees every
    /// marked handle — bumping its slot's generation so the handle is
    /// invalid forever — and returns the full batch, for embedders that
    /// drive their component tables' free callbacks themselves.
    pub fn flush_free_collect(&mut self) -> (batch: Vec<EntityHandle>)
        requires
            old(self).wf(),
        ensures
            final(self).wf(),
            final(self).pending_deletes@.len() == 0,
            final(self).component_registry == old(self).component_registry,
            batch@ == old(self).pending_deletes@,
            final(self).spec_entity_count() == old(self).spec_entity_count() - old(
                self,
            ).pending_deletes@.len(),
            forall|k: int|
                0 <= k < old(self).pending_deletes@.len() ==> !final(self).slab.valid_handle(
                    #[trigger] old(self).pending_deletes@[k],
                ),
            forall|h: EntityHandle|
                old(self).slab.valid_handle(h) && !batch_contains_index(
                    old(self).pending_deletes@,
                    h.index as int,
                ) ==> final(self).slab.valid_handle(h),
            forall|i: int|
                !batch_contains_index(old(self).pending_deletes@, i) ==> final(self).slab.value_at(
                    i,
                ) == old(self).slab.value_at(i),
            crate::slab::generations_advance_from(old(self).slab, final(self).slab),
    {
        let ghost init = *self;
        let ghost batchv = init.pending_deletes@;
        let mut k: usize = 0;
        while k < self.pending_deletes.len()
            invariant
                k <= self.pending_deletes@.len(),
                batchv == init.pending_deletes@,
                self.pending_deletes@ == batchv,
                self.component_registry == init.component_registry,
                init.wf(),
                self.slab.wf(),
                self.slab.storage@.len() == init.slab.storage@.len(),
                forall|m: int|
                    0 <= m < k as int ==> !self.slab.valid_handle(#[trigger] batchv[m]),
                forall|m: int|
                    k as int <= m < batchv.len() ==> self.slab.valid_handle(#[trigger] batchv[m])
                        && self.slab.generation_at(batchv[m].index as int) < u32::MAX as int,
                self.slab.spec_active_count() == init.slab.spec_active_count() - k as int,
                forall|i: int|
                    !batch_contains_index(batchv.take(k as int), i) ==> self.slab.value_at(i)
                        == init.slab.value_at(i),
                forall|i: int|
                    0 <= i < self.slab.storage@.len() && !batch_contains_index(
                        batchv.take(k as int),
                        i,
                    ) ==> self.slab.generation_at(i) == init.slab.generation_at(i),
                crate::slab::generations_advance_from(init.slab, self.slab),
            decreases self.pending_deletes@.len() - k,
        {
            let h = self.pending_deletes[k];
            let ghost pre_slab = self.slab;
            self.slab.free(&h);
            proof {
                crate::slab::lemma_generations_advance_transitive(
                    init.slab,
                    pre_slab,
                    self.slab,
                );
                assert forall|m: int|
                    (k as int) + 1 <= m < batchv.len() implies self.slab.valid_handle(
                    #[trigger] batchv[m],
                ) && self.slab.generation_at(batchv[m].index as int) < u32::MAX as int by {
                    assert(init.pending_deletes@[k as int].index != init.pending_deletes@[m].index);
                }
                assert forall|m: int|
                    0 <= m < (k as int) + 1 implies !self.slab.valid_handle(
                    #[trigger] batchv[m],
                ) by {
                    if m < k as int {
                        assert(init.pending_deletes@[m].index != init.pending_deletes@[k as int].index);
                    }
                }
                assert(batchv.take((k as int) + 1)[k as int] == batchv[k as int]);
                assert forall|i: int|
                    !batch_contains_index(batchv.take((k as int) + 1), i) implies self.slab.value_at(
                    i,
                ) == init.slab.value_at(i) by {
                    assert(!batch_contains_index(batchv.take(k as int), i)) by {
                        if batch_contains_index(batchv.take(k as int), i) {
                            let m = choose|m: int|
                                0 <= m < k as int && (#[trigger] batchv.take(k as int)[m]).index
                                    as int == i;
                            assert((batchv.take((k as int) + 1)[m]).index as int == i);
                        }
                    }
                    assert(i != batchv[k as int].index as int);
                }
                assert forall|i: int|
                    0 <= i < self.slab.storage@.len() && !batch_contains_index(
                        batchv.take((k as int) + 1),
                        i,
                    ) implies self.slab.generation_at(i) == init.slab.generation_at(i) by {
                    assert(!batch_contains_index(batchv.take(k as int), i)) by {
                        if batch_contains_index(batchv.take(k as int), i) {
                            let m = choose|m: int|
                                0 <= m < k as int && (#[trigger] batchv.take(k as int)[m]).index
                                    as int == i;
                            assert((batchv.take((k as int) + 1)[m]).index as int == i);
                        }
                    }
                    assert(i != batchv[k as int].index as int);
                }
            }
            k = k + 1;
        }
        proof {
            assert(batchv.take(batchv.len() as int) =~= batchv);
        }
        let mut batch: Vec<EntityHandle> = Vec::new();
        std::mem::swap(&mut batch, &mut self.pending_deletes);
        batch
    }

    /// Drains the pending-free queue: frees every marked handle — bumping its
    /// slot's generation so the handle is invalid forever — then hands the
    /// full batch to every registered component table, so each table drops
    /// what it held for the freed entities. The entity count decreases by
    /// exactly the number of enqueued entities.
    pub fn flush_free<R: ComponentFreeHandler>(&mut self, resource_map: &mut ResourceMap<R>)
        requires
            old(self).wf(),
            forall|m: int|
                0 <= m < old(self).component_registry.ids@.len() ==> {
                    let id = #[trigger] old(self).component_registry.ids@[m];
                    old(resource_map).res_at(id as int) is Some ==> old(resource_map).res_at(
                        id as int,
                    ).unwrap().handler_wf()
                },
        ensures
            final(self).wf(),
            final(self).pending_deletes@.len() == 0,
            final(self).component_registry == old(self).component_registry,
            final(self).spec_entity_count() == old(self).spec_entity_count() - old(self).pending_deletes@.len(),
            forall|k: int|
                0 <= k < old(self).pending_deletes@.len() ==> !final(self).slab.valid_handle(
                    #[trigger] old(self).pending_deletes@[k],
                ),
            forall|h: EntityHandle|
                old(self).slab.valid_handle(h) && !batch_contains_index(
                    old(self).pending_deletes@,
                    h.index as int,
                ) ==> final(self).slab.valid_handle(h),
            forall|i: int|
                !batch_contains_index(old(self).pending_deletes@, i) ==> final(self).slab.value_at(
                    i,
                ) == old(self).slab.value_at(i),
            crate::slab::generations_advance_from(old(self).slab, final(self).slab),
            forall|id: usize|
                !old(self).component_registry.ids@.contains(id) ==> final(resource_map).res_at(
                    id as int,
                ) == old(resource_map).res_at(id as int),
            forall|id: usize|
                final(resource_map).res_at(id as int) is Some <==> old(resource_map).res_at(
                    id as int,
                ) is Some,
            forall|id: usize|
                old(self).component_registry.ids@.contains(id) && old(resource_map).res_at(
                    id as int,
                ) is Some ==> table_cleared(
                    (#[trigger] old(resource_map).res_at(id as int)).unwrap(),
                    final(resource_map).res_at(id as int).unwrap(),
                    old(self).pending_deletes@,
                ),
    {
        let ghost init = *self;
        let ghost init_map = *resource_map;
        let ghost batch = init.pending_deletes@;
        let mut k: usize = 0;
        while k < self.pending_deletes.len()
            invariant
                k <= self.pending_deletes@.len(),
                batch == init.pending_deletes@,
                self.pending_deletes@ == batch,
                self.component_registry == init.component_registry,
                init.wf(),
                self.slab.wf(),
                self.slab.storage@.len() == init.slab.storage@.len(),
                forall|m: int|
                    0 <= m < k as int ==> !self.slab.valid_handle(#[trigger] batch[m]),
                forall|m: int|
                    k as int <= m < batch.len() ==> self.slab.valid_handle(#[trigger] batch[m])
                        && self.slab.generation_at(batch[m].index as int) < u32::MAX as int,
                self.slab.spec_active_count() == init.slab.spec_active_count() - k as int,
                forall|i: int|
                    !batch_contains_index(batch.take(k as int), i) ==> self.slab.value_at(i) == init.slab.value_at(i),
                forall|i: int|
                    0 <= i < self.slab.storage@.len() && !batch_contains_index(
                        batch.take(k as int),
                        i,
                    ) ==> self.slab.generation_at(i) == init.slab.generation_at(i),
                crate::slab::generations_advance_from(init.slab, self.slab),
            decreases self.pending_deletes@.len() - k,
        {
            let h = self.pending_deletes[k];
            let ghost pre_slab = self.slab;
            self.slab.free(&h);
            proof {
                crate::slab::lemma_generations_advance_transitive(
                    init.slab,
                    pre_slab,
                    self.slab,
                );
                assert forall|m: int|
                    (k as int) + 1 <= m < batch.len() implies self.slab.valid_handle(
                    #[trigger] batch[m],
                ) && self.slab.generation_at(batch[m].index as int) < u32::MAX as int by {
                    assert(init.pending_deletes@[k as int].index != init.pending_deletes@[m].index);
                }
                assert forall|m: int|
                    0 <= m < (k as int) + 1 implies !self.slab.valid_handle(
                    #[trigger] batch[m],
                ) by {
                    if m < k as int {
                        assert(init.pending_deletes@[m].index != init.pending_deletes@[k as int].index);
                    }
                }
                assert(batch.take((k as int) + 1)[k as int] == batch[k as int]);
                assert forall|i: int|
                    !batch_contains_index(batch.take((k as int) + 1), i) implies self.slab.value_at(
                    i,
                ) == init.slab.value_at(i) by {
                    assert(!batch_contains_index(batch.take(k as int), i)) by {
                        if batch_contains_index(batch.take(k as int), i) {
                            let m = choose|m: int|
                                0 <= m < k as int && (#[trigger] batch.take(k as int)[m]).index
                                    as int == i;
                            assert((batch.take((k as int) + 1)[m]).index as int == i);
                        }
                    }
                    assert(i != batch[k as int].index as int);
                }
                assert forall|i: int|
                    0 <= i < self.slab.storage@.len() && !batch_contains_index(
                        batch.take((k as int) + 1),
                        i,
                    ) implies self.slab.generation_at(i) == init.slab.generation_at(i) by {
                    assert(!batch_contains_index(batch.take(k as int), i)) by {
                        if batch_contains_index(batch.take(k as int), i) {
                            let m = choose|m: int|
                                0 <= m < k as int && (#[trigger] batch.take(k as int)[m]).index
                                    as int == i;
                            assert((batch.take((k as int) + 1)[m]).index as int == i);
                        }
                    }
                    assert(i != batch[k as int].index as int);
                }
            }
            k = k + 1;
        }
        proof {
            assert(batch.take(batch.len() as int) =~= batch);
        }

        // Hand the full batch to every registered component table, so free
        // handlers can do bulk cleanup.
        let mut j: usize = 0;
        while j < self.component_registry.ids.len()
            invariant
                j <= self.component_registry.ids@.len(),
                self.component_registry == init.component_registry,
                init.wf(),
                batch == init.pending_deletes@,
                self.pending_deletes@ == batch,
                forall|m: int|
                    0 <= m < init.component_registry.ids@.len() ==> {
                        let id = #[trigger] init.component_registry.ids@[m];
                        init_map.res_at(id as int) is Some ==> init_map.res_at(
                            id as int,
                        ).unwrap().handler_wf()
                    },
                forall|m: int|
                    0 <= m < j as int ==> {
                        let id = #[trigger] self.component_registry.ids@[m];
                        &&& (init_map.res_at(id as int) is Some ==> resource_map.res_at(
                            id as int,
                        ) is Some && table_cleared(
                            init_map.res_at(id as int).unwrap(),
                            resource_map.res_at(id as int).unwrap(),
                            batch,
                        ))
                        &&& (init_map.res_at(id as int) is None ==> resource_map.res_at(
                            id as int,
                        ) is None)
                    },
                forall|id: int|
                    (forall|m: int|
                        0 <= m < j as int ==> (#[trigger] self.component_registry.ids@[m]) as int
                            != id) ==> resource_map.res_at(id) == init_map.res_at(id),
                forall|id: usize|
                    init.component_registry.ids@.contains(id) && init_map.res_at(
                        id as int,
                    ) is Some ==> (#[trigger] resource_map.res_at(id as int)) is Some,
            decreases self.component_registry.ids@.len() - j,
        {
            let id = self.component_registry.ids[j];
            if resource_map.has_value(id) {
                proof {
                    assert(init.component_registry.ids@.contains(id)) by {
                        assert(init.component_registry.ids@[j as int] == id);
                    }
                    assert(resource_map.res_at(id as int) == init_map.res_at(id as int))
                        by {
                        assert forall|m: int| 0 <= m < j as int implies (
                        #[trigger] self.component_registry.ids@[m]) as int != id as int by {
                            assert(init.component_registry.ids@.no_duplicates());
                        }
                    }
                }
                proof {
                    assert(init.component_registry.ids@[j as int] == id);
                    assert(init_map.res_at(id as int).unwrap().handler_wf());
                }
                let table = resource_map.fetch_mut(id);
                table.on_entities_free(&self.pending_deletes);
            }
            j = j + 1;
        }
        proof {
            let ids = init.component_registry.ids@;
            assert forall|id: usize|
                !ids.contains(id) implies resource_map.res_at(id as int) == init_map.res_at(id as int) by {
                assert forall|m: int| 0 <= m < ids.len() implies (#[trigger] ids[m]) as int
                    != id as int by {
                    if ids[m] == id {
                        assert(ids.contains(id));
                    }
                }
            }
            assert forall|id: usize|
                ids.contains(id) && init_map.res_at(id as int) is Some implies (
            #[trigger] resource_map.res_at(id as int)) is Some && table_cleared(
                init_map.res_at(id as int).unwrap(),
                resource_map.res_at(id as int).unwrap(),
                batch,
            ) by {
                let m = choose|m: int| 0 <= m < ids.len() && ids[m] == id;
                assert(ids[m] == id);
            }
            assert forall|id: usize|
                ids.contains(id) && init_map.res_at(id as int) is None implies (
            #[trigger] resource_map.res_at(id as int)) is None by {
                let m = choose|m: int| 0 <= m < ids.len() && ids[m] == id;
                assert(ids[m] == id);
            }
        }
        self.pending_deletes.clear();
    }
}

} // verus!
