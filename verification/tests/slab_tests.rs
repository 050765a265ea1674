//! Tests for the raw and generational slabs.

use minimum::slab::GenSlab;
use minimum::slab::RawSlab;

struct TestStruct {
    value: u32,
}

impl TestStruct {
    fn new(value: u32) -> Self {
        TestStruct { value }
    }
}

// Check that trivial allocate/delete works
#[test]
fn test_allocate_deallocate_one() {
    let mut pool = RawSlab::<TestStruct>::new();
    let value = TestStruct::new(123);
    let key = pool.allocate(value);

    assert_eq!(1, pool.active_count());
    pool.free(&key);
    assert_eq!(0, pool.active_count());
}

// Check that allocation/deallocation in order works
#[test]
fn test_allocate_deallocate_fifo() {
    let mut pool = RawSlab::<TestStruct>::new();
    let mut keys = vec![];

    for i in 0..1000 {
        let value = TestStruct::new(i);
        let key = pool.allocate(value);
        keys.push(key);
    }

    assert_eq!(1000, pool.active_count());

    for k in &keys {
        pool.free(k);
    }

    assert_eq!(0, pool.active_count());
}

#[test]
fn test_allocate_deallocate_lifo() {
    let mut pool = RawSlab::<TestStruct>::new();
    let mut keys = vec![];

    for i in 0..1000 {
        let value = TestStruct::new(i);
        let key = pool.allocate(value);
        keys.push(key);
    }

    assert_eq!(1000, pool.active_count());

    for i in (0..keys.len()).rev() {
        pool.free(&keys[i]);
    }

    assert_eq!(0, pool.active_count());
}

#[test]
fn test_get_success() {
    let mut pool = RawSlab::<TestStruct>::new();
    let mut keys = vec![];

    for i in 0..10 {
        let value = TestStruct::new(i);
        let key = pool.allocate(value);
        keys.push(key);
    }

    assert_eq!(10, pool.active_count());
    assert_eq!(5, pool.get(&keys[5]).unwrap().value);
}

#[test]
fn test_get_fail_out_of_range() {
    let mut pool = RawSlab::<TestStruct>::new();
    let value = TestStruct::new(123);
    let key = pool.allocate(value);
    assert_eq!(1, pool.active_count());

    assert!(pool.get(&key).is_some());

    pool.free(&key);
    assert_eq!(0, pool.active_count());

    assert!(pool.get(&key).is_none());
}

#[test]
fn test_get_mut_success() {
    let mut pool = RawSlab::<TestStruct>::new();
    let mut keys = vec![];

    for i in 0..10 {
        let value = TestStruct::new(i);
        let key = pool.allocate(value);
        keys.push(key);
    }

    assert_eq!(10, pool.active_count());
    assert_eq!(5, pool.get_mut(&keys[5]).unwrap().value);
}

#[test]
fn test_get_mut_fail_out_of_range() {
    let mut pool = RawSlab::<TestStruct>::new();
    let value = TestStruct::new(123);
    let key = pool.allocate(value);
    assert_eq!(1, pool.active_count());

    assert!(pool.get_mut(&key).is_some());

    pool.free(&key);
    assert_eq!(0, pool.active_count());

    assert!(pool.get_mut(&key).is_none());
}

// A key freed and then reallocated at the same index must fail every lookup:
// the slot's generation moved past the key's stamp.
#[test]
fn test_stale_generation_handle_fails_lookups() {
    let mut pool = GenSlab::<TestStruct>::new();
    let first = pool.allocate(TestStruct::new(7));
    assert_eq!(pool.get(&first).unwrap().value, 7);

    pool.free(&first);
    assert!(pool.get(&first).is_none());

    // The freed slot is reused first, at the same index but a new generation.
    let second = pool.allocate(TestStruct::new(9));
    assert_eq!(second.index(), first.index());
    assert_ne!(second.generation(), first.generation());

    assert!(pool.get(&first).is_none());
    assert!(pool.get_mut(&first).is_none());
    assert_eq!(pool.get(&second).unwrap().value, 9);
}

#[test]
fn test_gen_slab_iter_and_active_handles() {
    let mut pool = GenSlab::<TestStruct>::new();
    let a = pool.allocate(TestStruct::new(1));
    let _b = pool.allocate(TestStruct::new(2));
    let c = pool.allocate(TestStruct::new(3));
    pool.free(&a);

    let values: Vec<u32> = pool.iter().iter().map(|v| v.value).collect();
    assert_eq!(values, vec![2, 3]);

    let handles = pool.active_handles();
    assert_eq!(handles.len(), 2);
    assert!(handles.iter().any(|h| h.index() == c.index()));
    assert_eq!(pool.active_count(), 2);
}

#[test]
fn test_raw_slab_iter_skips_freed() {
    let mut pool = RawSlab::<TestStruct>::new();
    let a = pool.allocate(TestStruct::new(10));
    let _b = pool.allocate(TestStruct::new(20));
    pool.free(&a);

    let values: Vec<u32> = pool.iter().iter().map(|v| v.value).collect();
    assert_eq!(values, vec![20]);
}
