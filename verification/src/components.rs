//! Game-side component types whose lifetime logic lives in the core: a tag
//! component, and the free handlers that release foreign handles — physics
//! bodies, editor collision shapes — when their owning entities die.

use vstd::prelude::*;

use crate::component::batch_contains_index;
use crate::component::Component;
use crate::component::ComponentStorage;
use crate::component::SlabComponentStorage;
use crate::component::VecComponentStorage;
use crate::entity::EntityHandle;

verus! {

/// This component contains no data; an empty component is still useful to
/// tag entities.
#[derive(Debug, Clone, Default)]
pub struct BulletComponent {}

impl BulletComponent {
    pub fn new() -> Self {
        BulletComponent {  }
    }
}

impl Component for BulletComponent {
    type Storage = SlabComponentStorage<BulletComponent>;
}

/// The foreign payloads still stored for `handles`, in batch order: what a
/// free handler must hand back to the subsystem that owns them.
pub open spec fn freed_components<T, S: ComponentStorage<T>>(
    storage: S,
    handles: Seq<EntityHandle>,
) -> Seq<T>
    decreases handles.len(),
{
    if handles.len() == 0 {
        Seq::empty()
    } else {
        let rest = freed_components(storage, handles.drop_last());
        match storage.component_at(handles.last().index as int) {
            Some(v) => rest.push(v),
            None => rest,
        }
    }
}

/// Clears the freed entities' components out of `storage` and returns their
/// payloads — the foreign handles tied to them — in batch order, so the
/// caller can release them from the owning subsystem in one bulk operation.
pub fn drain_components_for_freed<T: Copy, S: ComponentStorage<T>>(
    storage: &mut S,
    entity_handles: &Vec<EntityHandle>,
) -> (r: Vec<T>)
    requires
        old(storage).storage_wf(),
        forall|k1: int, k2: int|
            0 <= k1 < k2 < entity_handles@.len() ==> (#[trigger] entity_handles@[k1]).index != (
            #[trigger] entity_handles@[k2]).index,
    ensures
        final(storage).storage_wf(),
        r@ == freed_components(*old(storage), entity_handles@),
        forall|k: int|
            0 <= k < entity_handles@.len() ==> final(storage).component_at(
                (#[trigger] entity_handles@[k]).index as int,
            ) is None,
        forall|i: int|
            !batch_contains_index(entity_handles@, i) ==> final(storage).component_at(i) == old(
                storage,
            ).component_at(i),
{
    let ghost init = *storage;
    let mut out: Vec<T> = Vec::new();
    let mut k: usize = 0;
    while k < entity_handles.len()
        invariant
            storage.storage_wf(),
            k <= entity_handles@.len(),
            forall|k1: int, k2: int|
                0 <= k1 < k2 < entity_handles@.len() ==> (#[trigger] entity_handles@[k1]).index
                    != (#[trigger] entity_handles@[k2]).index,
            out@ == freed_components(init, entity_handles@.take(k as int)),
            forall|m: int|
                0 <= m < k as int ==> storage.component_at(
                    (#[trigger] entity_handles@[m]).index as int,
                ) is None,
            forall|i: int|
                !batch_contains_index(entity_handles@.take(k as int), i)
                    ==> storage.component_at(i) == init.component_at(i),
        decreases entity_handles@.len() - k,
    {
        let h = entity_handles[k];
        proof {
            assert(entity_handles@.take((k as int) + 1).drop_last() == entity_handles@.take(
                k as int,
            ));
            assert(entity_handles@.take((k as int) + 1).last() == entity_handles@[k as int]);
            assert(!batch_contains_index(entity_handles@.take(k as int), h.index as int)) by {
                if batch_contains_index(entity_handles@.take(k as int), h.index as int) {
                    let m = choose|m: int|
                        0 <= m < k as int && (#[trigger] entity_handles@.take(k as int)[m]).index
                            as int == h.index as int;
                    assert(entity_handles@[m].index != entity_handles@[k as int].index);
                }
            }
            assert(storage.component_at(h.index as int) == init.component_at(h.index as int));
        }
        match storage.get(&h) {
            Some(v) => {
                let value = *v;
                out.push(value);
            },
            None => {},
        }
        storage.free_if_exists(&h);
        proof {
            assert forall|i: int|
                !batch_contains_index(entity_handles@.take((k as int) + 1), i)
                    implies storage.component_at(i) == init.component_at(i) by {
                assert(!batch_contains_index(entity_handles@.take(k as int), i)) by {
                    if batch_contains_index(entity_handles@.take(k as int), i) {
                        let m = choose|m: int|
                            0 <= m < k as int && (#[trigger] entity_handles@.take(k as int)[m]).index
                                as int == i;
                        assert((entity_handles@.take((k as int) + 1)[m]).index as int == i);
                    }
                }
                assert(i != entity_handles@[k as int].index as int);
            }
            assert forall|m: int|
                0 <= m < (k as int) + 1 implies storage.component_at(
                (#[trigger] entity_handles@[m]).index as int,
            ) is None by {
                if m < k as int {
                    assert(entity_handles@[m].index != entity_handles@[k as int].index);
                }
            }
        }
        k = k + 1;
    }
    proof {
        assert(entity_handles@.take(entity_handles@.len() as int) =~= entity_handles@);
        assert forall|i: int|
            !batch_contains_index(entity_handles@, i) implies storage.component_at(i)
            == init.component_at(i) by {
            if batch_contains_index(entity_handles@.take(entity_handles@.len() as int), i) {
            }
        }
    }
    out
}

/// The free handler ensures that when an entity is destroyed, its body
/// component is dropped and the foreign physics-body key it carried is
/// handed back, so the caller can remove the bodies from the physics world
/// in one bulk call.
pub struct PhysicsBodyComponentFreeHandler {}

impl PhysicsBodyComponentFreeHandler {
    /// Invoked once per flush with the complete batch of entities freed this
    /// tick; returns the freed entities' physics-body keys in batch order.
    pub fn on_entities_free<T: Copy>(
        storage: &mut SlabComponentStorage<T>,
        entity_handles: &Vec<EntityHandle>,
    ) -> (r: Vec<T>)
        requires
            old(storage).storage_wf(),
            forall|k1: int, k2: int|
                0 <= k1 < k2 < entity_handles@.len() ==> (#[trigger] entity_handles@[k1]).index
                    != (#[trigger] entity_handles@[k2]).index,
        ensures
            final(storage).storage_wf(),
            r@ == freed_components(*old(storage), entity_handles@),
            forall|k: int|
                0 <= k < entity_handles@.len() ==> final(storage).component_at(
                    (#[trigger] entity_handles@[k]).index as int,
                ) is None,
            forall|i: int|
                !batch_contains_index(entity_handles@, i) ==> final(storage).component_at(i)
                    == old(storage).component_at(i),
    {
        drain_components_for_freed(storage, entity_handles)
    }
}

/// The free handler ensures that when an entity is destroyed, its editor
/// shape component is dropped and the foreign collider key it carried is
/// handed back, so the caller can remove the colliders from the editor
/// collision world in one bulk call.
pub struct EditorShapeComponentFreeHandler {}

impl EditorShapeComponentFreeHandler {
    /// Invoked once per flush with the complete batch of entities freed this
    /// tick; returns the freed entities' collider keys in batch order.
    pub fn on_entities_free<T: Copy>(
        storage: &mut VecComponentStorage<T>,
        entity_handles: &Vec<EntityHandle>,
    ) -> (r: Vec<T>)
        requires
            old(storage).storage_wf(),
            forall|k1: int, k2: int|
                0 <= k1 < k2 < entity_handles@.len() ==> (#[trigger] entity_handles@[k1]).index
                    != (#[trigger] entity_handles@[k2]).index,
        ensures
            final(storage).storage_wf(),
            r@ == freed_components(*old(storage), entity_handles@),
            forall|k: int|
                0 <= k < entity_handles@.len() ==> final(storage).component_at(
                    (#[trigger] entity_handles@[k]).index as int,
                ) is None,
            forall|i: int|
                !batch_contains_index(entity_handles@, i) ==> final(storage).component_at(i)
                    == old(storage).component_at(i),
    {
        drain_components_for_freed(storage, entity_handles)
    }
}

} // verus!
