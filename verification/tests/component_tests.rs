//! Tests for the two component table implementations, their iterators, the
//! selection toggle and the free handlers.

use minimum::component::ComponentCreateQueue;
use minimum::component::ComponentStorage;
use minimum::component::SlabComponentStorage;
use minimum::component::VecComponentStorage;
use minimum::component::VecComponentIterator;
use minimum::components::drain_components_for_freed;
use minimum::components::EditorShapeComponentFreeHandler;
use minimum::components::PhysicsBodyComponentFreeHandler;
use minimum::entity::EntitySet;
use minimum::resource::ResourceMap;
use minimum::tasks::entities_with_both;
use minimum::tasks::RenderImguiEntityList;
use minimum::tasks::UpdatePositionWithVelocity;

fn set_with_entities(n: usize) -> (EntitySet, Vec<minimum::entity::EntityHandle>) {
    let mut entity_set = EntitySet::new();
    let mut handles = Vec::new();
    for _ in 0..n {
        handles.push(entity_set.allocate());
    }
    (entity_set, handles)
}

#[test]
fn test_vec_storage_roundtrip() {
    let (_set, handles) = set_with_entities(3);
    let mut storage: VecComponentStorage<i32> = ComponentStorage::new();

    storage.allocate(&handles[1], 11);
    assert!(!storage.has_component(&handles[0]));
    assert!(storage.has_component(&handles[1]));
    assert_eq!(*storage.get(&handles[1]).unwrap(), 11);
    assert!(storage.get(&handles[2]).is_none());

    *storage.get_mut(&handles[1]).unwrap() = 12;
    assert_eq!(*storage.get(&handles[1]).unwrap(), 12);

    storage.free(&handles[1]);
    assert!(storage.get(&handles[1]).is_none());

    // The safe variant tolerates absent values and out-of-range indexes.
    storage.free_if_exists(&handles[1]);
    storage.free_if_exists(&handles[2]);
}

#[test]
fn test_slab_storage_roundtrip() {
    let (_set, handles) = set_with_entities(3);
    let mut storage: SlabComponentStorage<i32> = ComponentStorage::new();

    storage.allocate(&handles[0], 5);
    storage.allocate(&handles[2], 7);
    assert_eq!(*storage.get(&handles[0]).unwrap(), 5);
    assert!(storage.get(&handles[1]).is_none());
    assert_eq!(*storage.get(&handles[2]).unwrap(), 7);

    *storage.get_mut(&handles[2]).unwrap() = 8;
    assert_eq!(*storage.get(&handles[2]).unwrap(), 8);

    storage.free(&handles[0]);
    assert!(storage.get(&handles[0]).is_none());
    assert_eq!(*storage.get(&handles[2]).unwrap(), 8);
}

#[test]
fn test_component_iterator_upgrades_handles() {
    let (entity_set, handles) = set_with_entities(4);
    let mut storage: VecComponentStorage<i32> = ComponentStorage::new();
    storage.allocate(&handles[1], 10);
    storage.allocate(&handles[3], 30);

    let mut it = storage.iter(&entity_set);
    let (h1, v1) = it.next(&entity_set, &storage).unwrap();
    assert_eq!(h1.index(), handles[1].index());
    assert_eq!(h1.generation(), handles[1].generation());
    assert_eq!(*v1, 10);
    let (h3, v3) = it.next(&entity_set, &storage).unwrap();
    assert_eq!(h3.index(), handles[3].index());
    assert_eq!(*v3, 30);
    assert!(it.next(&entity_set, &storage).is_none());

    // A fresh cursor re-enters the same sequence.
    let mut again = VecComponentIterator::new();
    assert_eq!(*again.next(&entity_set, &storage).unwrap().1, 10);
}

#[test]
fn test_component_iterator_mut_updates_in_place() {
    let (entity_set, handles) = set_with_entities(2);
    let mut storage: VecComponentStorage<i32> = ComponentStorage::new();
    storage.allocate(&handles[0], 1);
    storage.allocate(&handles[1], 2);

    let mut it = storage.iter_mut(&entity_set);
    while let Some((_handle, value)) = it.next(&entity_set, &mut storage) {
        *value += 100;
    }
    assert_eq!(*storage.get(&handles[0]).unwrap(), 101);
    assert_eq!(*storage.get(&handles[1]).unwrap(), 102);
}

#[test]
fn test_entities_to_update_skips_bodies() {
    let (entity_set, handles) = set_with_entities(3);
    let mut velocities: VecComponentStorage<i32> = ComponentStorage::new();
    let mut bodies: SlabComponentStorage<u64> = ComponentStorage::new();

    velocities.allocate(&handles[0], 1);
    velocities.allocate(&handles[2], 3);
    // Entity 2 is controlled by a physics body, so its position is not
    // advanced by velocity.
    bodies.allocate(&handles[2], 77);

    let to_update =
        UpdatePositionWithVelocity::entities_to_update(&velocities, &bodies, &entity_set);
    assert_eq!(to_update.len(), 1);
    assert_eq!(to_update[0].index(), handles[0].index());
}

#[test]
fn test_entities_to_draw_requires_both_components() {
    let (entity_set, handles) = set_with_entities(3);
    let mut circles: VecComponentStorage<u32> = ComponentStorage::new();
    let mut positions: VecComponentStorage<u32> = ComponentStorage::new();

    circles.allocate(&handles[0], 4);
    circles.allocate(&handles[1], 5);
    positions.allocate(&handles[1], 9);

    let drawn = entities_with_both(&circles, &positions, &entity_set);
    assert_eq!(drawn.len(), 1);
    assert_eq!(drawn[0].index(), handles[1].index());
}

#[test]
fn test_toggle_entity_selection() {
    let (_set, handles) = set_with_entities(3);
    let mut selected: VecComponentStorage<()> = ComponentStorage::new();

    // An additive click toggles the clicked entity only.
    RenderImguiEntityList::toggle_entity_selection(&mut selected, &handles[0], (), true);
    RenderImguiEntityList::toggle_entity_selection(&mut selected, &handles[1], (), true);
    assert!(selected.has_component(&handles[0]));
    assert!(selected.has_component(&handles[1]));
    RenderImguiEntityList::toggle_entity_selection(&mut selected, &handles[0], (), true);
    assert!(!selected.has_component(&handles[0]));
    assert!(selected.has_component(&handles[1]));

    // A plain click makes the clicked entity the only selection.
    RenderImguiEntityList::toggle_entity_selection(&mut selected, &handles[2], (), false);
    assert!(!selected.has_component(&handles[1]));
    assert!(selected.has_component(&handles[2]));
}

#[test]
fn test_free_handlers_drain_foreign_keys() {
    let (_set, handles) = set_with_entities(4);

    // Physics bodies live in a slab-backed table; the handler returns the
    // foreign body keys of the freed entities in batch order.
    let mut bodies: SlabComponentStorage<u64> = ComponentStorage::new();
    bodies.allocate(&handles[0], 100);
    bodies.allocate(&handles[2], 102);
    let batch = vec![handles[1], handles[2]];
    let removed = PhysicsBodyComponentFreeHandler::on_entities_free(&mut bodies, &batch);
    assert_eq!(removed, vec![102]);
    assert!(bodies.get(&handles[2]).is_none());
    assert_eq!(*bodies.get(&handles[0]).unwrap(), 100);

    // Editor shapes live in a vector-backed table.
    let mut shapes: VecComponentStorage<u64> = ComponentStorage::new();
    shapes.allocate(&handles[1], 201);
    shapes.allocate(&handles[3], 203);
    let batch = vec![handles[0], handles[1], handles[3]];
    let removed = EditorShapeComponentFreeHandler::on_entities_free(&mut shapes, &batch);
    assert_eq!(removed, vec![201, 203]);
    assert!(shapes.get(&handles[1]).is_none());
    assert!(shapes.get(&handles[3]).is_none());
}

#[test]
fn test_drain_preserves_unrelated_entries() {
    let (_set, handles) = set_with_entities(3);
    let mut table: VecComponentStorage<u64> = ComponentStorage::new();
    table.allocate(&handles[0], 1);
    table.allocate(&handles[1], 2);
    let removed = drain_components_for_freed(&mut table, &vec![handles[0]]);
    assert_eq!(removed, vec![1]);
    assert!(table.get(&handles[0]).is_none());
    assert_eq!(*table.get(&handles[1]).unwrap(), 2);
}

#[test]
fn test_resource_map_lifecycle() {
    let mut map: ResourceMap<u32> = ResourceMap::new();
    assert!(!map.has_value(2));
    map.insert(2, 20);
    map.insert(5, 50);
    assert!(map.has_value(2));
    assert_eq!(*map.fetch(2), 20);
    *map.fetch_mut(5) = 51;
    assert_eq!(*map.fetch(5), 51);
    assert_eq!(map.keys(), vec![2, 5]);
    assert_eq!(map.remove(5), Some(51));
    assert!(!map.has_value(5));
    assert_eq!(map.remove(5), None);
}

#[test]
fn test_create_queue_flushes_alive_entities_only() {
    let mut entity_set = EntitySet::new();
    let mut world: ResourceMap<VecComponentStorage<i32>> = ResourceMap::new();
    entity_set.register_component_type(0, ComponentStorage::new(), &mut world);

    let alive = entity_set.allocate();
    let doomed = entity_set.allocate();

    let mut queue: ComponentCreateQueue<i32> = ComponentCreateQueue::new();
    queue.enqueue_create(&alive, 7);
    queue.enqueue_create(&doomed, 8);

    // The doomed entity dies before the flush point, so its request is
    // dropped silently.
    entity_set.enqueue_free(&doomed);
    entity_set.flush_free(&mut world);

    let to_create = queue.flush_creates(&entity_set);
    assert_eq!(to_create.len(), 1);
    assert_eq!(to_create[0].0.index(), alive.index());
    assert_eq!(to_create[0].1, 7);

    // The queue is drained by the flush.
    assert_eq!(queue.flush_creates(&entity_set).len(), 0);
}
