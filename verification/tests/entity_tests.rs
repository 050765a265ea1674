//! Tests for the entity store: allocation, deferred destruction, and
//! component cleanup on flush.

use minimum::component::Component;
use minimum::component::ComponentStorage;
use minimum::component::VecComponentStorage;
use minimum::entity::EntitySet;
use minimum::resource::ResourceMap;

struct TestComponent {
    value: i32,
}

impl TestComponent {
    fn new(value: i32) -> Self {
        TestComponent { value }
    }
}

impl Component for TestComponent {
    type Storage = VecComponentStorage<TestComponent>;
}

/// Resource id the test component table is registered under.
const TEST_STORAGE: usize = 0;

fn new_world() -> (ResourceMap<VecComponentStorage<TestComponent>>, EntitySet) {
    let mut world: ResourceMap<VecComponentStorage<TestComponent>> = ResourceMap::new();
    let mut entity_set = EntitySet::new();
    let storage: VecComponentStorage<TestComponent> = ComponentStorage::new();
    entity_set.register_component_type(TEST_STORAGE, storage, &mut world);
    (world, entity_set)
}

#[test]
fn test_entity_count() {
    let (mut world, mut entity_set) = new_world();

    let entity = entity_set.allocate();
    assert_eq!(entity_set.entity_count(), 1);
    entity_set.enqueue_free(&entity);
    assert_eq!(entity_set.entity_count(), 1);
    entity_set.flush_free(&mut world);
    assert_eq!(entity_set.entity_count(), 0);
}

#[test]
fn test_get_entity() {
    let (mut world, mut entity_set) = new_world();

    let entity_handle = entity_set.allocate();
    assert!(entity_set.get_entity(&entity_handle).is_some());

    entity_set.enqueue_free(&entity_handle);
    assert!(entity_set.get_entity(&entity_handle).is_some());
    entity_set.flush_free(&mut world);
    assert!(entity_set.get_entity(&entity_handle).is_none());
}

#[test]
fn test_get_entity_mut() {
    let (mut world, mut entity_set) = new_world();

    let entity_handle = entity_set.allocate();
    assert!(entity_set.get_entity_mut(&entity_handle).is_some());

    entity_set.enqueue_free(&entity_handle);
    assert!(entity_set.get_entity_mut(&entity_handle).is_some());
    entity_set.flush_free(&mut world);
    assert!(entity_set.get_entity_mut(&entity_handle).is_none());
}

#[test]
fn test_destroy_entity_releases_components() {
    let (mut world, mut entity_set) = new_world();

    // Create an entity
    let entity_handle = entity_set.allocate();
    let entity = entity_set.get_entity_ref(&entity_handle).unwrap();

    // Add the component
    {
        let test_component_storage = world.fetch_mut(TEST_STORAGE);
        entity.add_component(test_component_storage, TestComponent::new(1)).unwrap();
    }

    // Ensure after we enqueue free and flush free, the component is released
    entity_set.enqueue_free(&entity_handle);
    assert!(world.fetch(TEST_STORAGE).get(&entity_handle).is_some());
    entity_set.flush_free(&mut world);
    assert!(world.fetch(TEST_STORAGE).get(&entity_handle).is_none());
}

#[test]
fn test_add_get_remove_component() {
    let (mut world, mut entity_set) = new_world();

    // Create an entity
    let entity_handle = entity_set.allocate();
    let entity = entity_set.get_entity_ref(&entity_handle).unwrap();

    let test_component_storage = world.fetch_mut(TEST_STORAGE);

    // Fail to find the component
    let component = entity.get_component(test_component_storage);
    assert!(component.is_none());

    // Add the component
    entity.add_component(test_component_storage, TestComponent::new(1)).unwrap();

    // Succeed in finding the component
    let component = entity.get_component(test_component_storage);
    assert!(component.is_some());

    // Remove the component
    entity.remove_component(test_component_storage);

    // Fail to find the component
    let component = entity.get_component(test_component_storage);
    assert!(component.is_none());
}

#[test]
fn test_add_get_component() {
    let (mut world, mut entity_set) = new_world();

    // Create an entity
    let entity_handle = entity_set.allocate();
    let entity = entity_set.get_entity_ref(&entity_handle).unwrap();

    let test_component_storage = world.fetch_mut(TEST_STORAGE);

    // Fail to find the component
    let component = entity.get_component(test_component_storage);
    assert!(component.is_none());

    // Add the component
    entity.add_component(test_component_storage, TestComponent::new(1)).unwrap();

    // Succeed in finding the component
    let component = entity.get_component(test_component_storage);
    assert!(component.is_some());
}

#[test]
fn iterate_entities_with_components() {
}

// Adding a component twice to the same entity without removal fails; adding
// then reading returns the same value; removing then reading returns none.
#[test]
fn test_duplicate_component_add_fails() {
    let (mut world, mut entity_set) = new_world();

    let entity_handle = entity_set.allocate();
    let entity = entity_set.get_entity_ref(&entity_handle).unwrap();
    let storage = world.fetch_mut(TEST_STORAGE);

    assert!(entity.add_component(storage, TestComponent::new(41)).is_ok());
    assert_eq!(entity.get_component(storage).unwrap().value, 41);

    // A second add without removal is refused and leaves the value alone.
    assert!(entity.add_component(storage, TestComponent::new(42)).is_err());
    assert_eq!(entity.get_component(storage).unwrap().value, 41);

    entity.remove_component(storage);
    assert!(entity.get_component(storage).is_none());
}

// The pending-free queue leaves components retrievable until the flush point
// and clears every registered table at it.
#[test]
fn test_component_queryable_until_flush() {
    let (mut world, mut entity_set) = new_world();

    let doomed = entity_set.allocate();
    let survivor = entity_set.allocate();
    {
        let storage = world.fetch_mut(TEST_STORAGE);
        let doomed_ref = entity_set.get_entity_ref(&doomed).unwrap();
        doomed_ref.add_component(storage, TestComponent::new(1)).unwrap();
        let survivor_ref = entity_set.get_entity_ref(&survivor).unwrap();
        survivor_ref.add_component(storage, TestComponent::new(2)).unwrap();
    }

    entity_set.enqueue_free(&doomed);
    assert_eq!(world.fetch(TEST_STORAGE).get(&doomed).unwrap().value, 1);
    entity_set.flush_free(&mut world);

    assert!(world.fetch(TEST_STORAGE).get(&doomed).is_none());
    assert_eq!(world.fetch(TEST_STORAGE).get(&survivor).unwrap().value, 2);
}

// Allocate 1000 entities, free every other one, allocate 500 more: the
// active count must equal 1000, and no two active handles may share both
// index and generation.
#[test]
fn test_churned_handles_stay_distinct() {
    let (mut world, mut entity_set) = new_world();

    let mut live = Vec::new();
    for _ in 0..1000 {
        live.push(entity_set.allocate());
    }
    assert_eq!(entity_set.entity_count(), 1000);

    let mut kept = Vec::new();
    for (i, handle) in live.into_iter().enumerate() {
        if i % 2 == 0 {
            entity_set.enqueue_free(&handle);
        } else {
            kept.push(handle);
        }
    }
    entity_set.flush_free(&mut world);
    assert_eq!(entity_set.entity_count(), 500);

    for _ in 0..500 {
        kept.push(entity_set.allocate());
    }
    assert_eq!(entity_set.entity_count(), 1000);
    assert_eq!(kept.len(), 1000);

    for a in 0..kept.len() {
        for b in (a + 1)..kept.len() {
            let same_index = kept[a].index() == kept[b].index();
            let same_generation = kept[a].generation() == kept[b].generation();
            assert!(!(same_index && same_generation));
        }
    }
}

// Handles of freed entities stay invalid after their slot is reused.
#[test]
fn test_entity_handle_reuse_invalidates_old() {
    let (mut world, mut entity_set) = new_world();

    let first = entity_set.allocate();
    entity_set.enqueue_free(&first);
    entity_set.flush_free(&mut world);

    let second = entity_set.allocate();
    assert_eq!(first.index(), second.index());
    assert!(entity_set.get_entity(&first).is_none());
    assert!(entity_set.get_entity_ref(&first).is_none());
    assert!(entity_set.get_entity(&second).is_some());
}

#[test]
fn test_active_handles_track_live_entities() {
    let (mut world, mut entity_set) = new_world();
    let a = entity_set.allocate();
    let b = entity_set.allocate();
    let c = entity_set.allocate();

    entity_set.enqueue_free(&b);
    entity_set.flush_free(&mut world);

    let handles = entity_set.active_handles();
    assert_eq!(handles.len(), 2);
    assert_eq!(handles[0].index(), a.index());
    assert_eq!(handles[1].index(), c.index());
    assert!(handles.iter().all(|h| entity_set.get_entity(h).is_some()));
}

#[test]
fn mod_test_entity_count() {
    let (mut world, mut entity_set) = new_world();

    let entity = entity_set.allocate();
    assert_eq!(entity_set.entity_count(), 1);
    entity_set.enqueue_free(&entity);
    assert_eq!(entity_set.entity_count(), 1);
    entity_set.flush_free(&mut world);
    assert_eq!(entity_set.entity_count(), 0);
}

#[test]
fn mod_test_destroy_entity_releases_components() {
    let (mut world, mut entity_set) = new_world();

    // Create an entity
    let entity_handle = entity_set.allocate();
    let entity = entity_set.get_entity_ref(&entity_handle).unwrap();

    // Add the component
    {
        let test_component_storage = world.fetch_mut(TEST_STORAGE);
        entity.add_component(test_component_storage, TestComponent::new(1)).unwrap();
    }

    // Ensure after we enqueue free and flush free, the component is released
    entity_set.enqueue_free(&entity_handle);
    assert!(world.fetch(TEST_STORAGE).get(&entity_handle).is_some());
    entity_set.flush_free(&mut world);
    assert!(world.fetch(TEST_STORAGE).get(&entity_handle).is_none());
}
