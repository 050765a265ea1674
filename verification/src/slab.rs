//! Slab allocators: `RawSlab` hands out plain index keys into a pool of
//! reusable slots; `GenSlab` additionally stamps every slot with a generation
//! so that a key issued before a slot was freed can never read the slot's
//! next occupant.

use vstd::prelude::*;

verus! {

/// Index type used by every slab key.
pub type SlabIndexT = u32;

/// Key into a `RawSlab<T>`: a bare slot index, phantom-typed by the stored type.
pub struct RawSlabKey<T> {
    pub index: SlabIndexT,
    pub phantom_data: core::marker::PhantomData<T>,
}

impl<T> Clone for RawSlabKey<T> {
    fn clone(&self) -> (r: Self)
        ensures
            r.index == self.index,
    {
        RawSlabKey { index: self.index, phantom_data: core::marker::PhantomData }
    }
}

impl<T> Copy for RawSlabKey<T> {}

impl<T> RawSlabKey<T> {
    /// The slot index this key refers to.
    pub fn index(&self) -> (i: SlabIndexT)
        ensures
            i == self.index,
    {
        self.index
    }
}

/// Pool of reusable slots. Freed slots are recycled most-recently-freed first,
/// which keeps bursts of allocate/free cache-friendly.
pub struct RawSlab<T> {
    /// The slots; an unoccupied slot holds `None`.
    pub storage: Vec<Option<T>>,
    /// Indices of unoccupied slots; the last element is reused first.
    pub free_list: Vec<SlabIndexT>,
}

impl<T> RawSlab<T> {
    /// Every free-list entry names a distinct, in-range, unoccupied slot, and
    /// every unoccupied slot is on the free list.
    pub open spec fn wf(&self) -> bool {
        &&& self.free_list@.no_duplicates()
        &&& forall|k: int|
            0 <= k < self.free_list@.len() ==> (#[trigger] self.free_list@[k] as int)
                < self.storage@.len() && self.storage@[self.free_list@[k] as int] is None
        &&& forall|i: int|
            0 <= i < self.storage@.len() && self.storage@[i] is None
                ==> #[trigger] self.free_list@.contains(i as SlabIndexT)
        &&& self.free_list@.len() <= self.storage@.len()
        &&& self.storage@.len() <= u32::MAX as int
    }

    /// The value stored at `index`, if that slot exists and is occupied.
    pub open spec fn value_at(&self, index: int) -> Option<T> {
        if 0 <= index < self.storage@.len() {
            self.storage@[index]
        } else {
            None
        }
    }

    /// Number of occupied slots.
    pub open spec fn spec_active_count(&self) -> int {
        self.storage@.len() - self.free_list@.len()
    }

    pub fn new() -> (r: Self)
        ensures
            r.wf(),
            r.spec_active_count() == 0,
            r.storage@.len() < u32::MAX as int,
            forall|i: int| r.value_at(i) is None,
    {
        let initial_count: SlabIndexT = 32;
        let mut storage: Vec<Option<T>> = Vec::with_capacity(initial_count as usize);
        let mut free_list: Vec<SlabIndexT> = Vec::with_capacity(initial_count as usize);

        // Fill the free list highest index first so that index 0 is reused first.
        let mut pushed: SlabIndexT = 0;
        while pushed < initial_count
            invariant
                pushed <= initial_count,
                storage@.len() == pushed as int,
                free_list@.len() == pushed as int,
                forall|i: int| 0 <= i < pushed as int ==> storage@[i] is None,
                forall|k: int|
                    0 <= k < pushed as int ==> #[trigger] free_list@[k] == (initial_count - 1
                        - k) as SlabIndexT,
            decreases initial_count - pushed,
        {
            storage.push(None);
            free_list.push(initial_count - 1 - pushed);
            pushed = pushed + 1;
        }

        let r = RawSlab { storage, free_list };
        proof {
            assert forall|i: int|
                0 <= i < r.storage@.len() && r.storage@[i] is None implies #[trigger] r
                .free_list@.contains(i as SlabIndexT) by {
                assert(r.free_list@[initial_count - 1 - i] == i as SlabIndexT);
            }
            assert(r.free_list@.no_duplicates()) by {
                assert forall|a: int, b: int|
                    0 <= a < r.free_list@.len() && 0 <= b < r.free_list@.len() && a != b
                        implies r.free_list@[a] != r.free_list@[b] by {}
            }
        }
        r
    }

    /// Stores `value` in an unoccupied slot and returns its key, reusing the
    /// most recently freed slot when one exists and appending otherwise.
    pub fn allocate(&mut self, value: T) -> (key: RawSlabKey<T>)
        requires
            old(self).wf(),
            old(self).free_list@.len() > 0 || old(self).storage@.len() < u32::MAX as int,
        ensures
            final(self).wf(),
            final(self).value_at(key.index as int) == Some(value),
            forall|i: int|
                i != key.index as int ==> final(self).value_at(i) == old(self).value_at(i),
            old(self).value_at(key.index as int) is None,
            final(self).spec_active_count() == old(self).spec_active_count() + 1,
            old(self).free_list@.len() > 0 ==> key.index == old(self).free_list@.last(),
            old(self).free_list@.len() == 0 ==> key.index as int == old(self).storage@.len(),
    {
        let index = self.free_list.pop();

        if index.is_none() {
            let index = self.storage.len() as SlabIndexT;
            self.storage.push(Some(value));
            RawSlabKey::<T> { index, phantom_data: core::marker::PhantomData }
        } else {
            // Reuse the most recently freed slot.
            let index = index.unwrap();
            self.storage.set(index as usize, Some(value));
            let key = RawSlabKey::<T> { index, phantom_data: core::marker::PhantomData };
            proof {
                let ofl = old(self).free_list@;
                assert(self.free_list@ == ofl.drop_last());
                assert forall|i: int|
                    0 <= i < self.storage@.len() && self.storage@[i] is None
                        implies #[trigger] self.free_list@.contains(i as SlabIndexT) by {
                    assert(ofl.contains(i as SlabIndexT));
                    let k = choose|k: int| 0 <= k < ofl.len() && ofl[k] == i as SlabIndexT;
                    assert(k < ofl.len() - 1);
                    assert(self.free_list@[k] == i as SlabIndexT);
                }
            }
            key
        }
    }

    /// Releases the slot that `slab_key` names. Freeing an unoccupied slot is
    /// a programmer error and is excluded by precondition.
    pub fn free(&mut self, slab_key: &RawSlabKey<T>)
        requires
            old(self).wf(),
            old(self).value_at(slab_key.index as int) is Some,
        ensures
            final(self).wf(),
            final(self).value_at(slab_key.index as int) is None,
            forall|i: int|
                i != slab_key.index as int ==> final(self).value_at(i) == old(self).value_at(i),
            final(self).spec_active_count() == old(self).spec_active_count() - 1,
            final(self).storage@.len() == old(self).storage@.len(),
    {
        self.storage.set(slab_key.index as usize, None);
        self.free_list.push(slab_key.index);
        proof {
            let ofl = old(self).free_list@;
            assert(!ofl.contains(slab_key.index));
            lemma_distinct_in_range_excluding(ofl, old(self).storage@.len() as int, slab_key.index);
            assert forall|i: int|
                0 <= i < self.storage@.len() && self.storage@[i] is None
                    implies #[trigger] self.free_list@.contains(i as SlabIndexT) by {
                if i == slab_key.index as int {
                    assert(self.free_list@.last() == slab_key.index);
                } else {
                    assert(ofl.contains(i as SlabIndexT));
                    let k = choose|k: int| 0 <= k < ofl.len() && ofl[k] == i as SlabIndexT;
                    assert(self.free_list@[k] == i as SlabIndexT);
                }
            }
        }
    }

    /// Reads the slot that `slab_key` names; `None` once the slot has been freed.
    pub fn get(&self, slab_key: &RawSlabKey<T>) -> (r: Option<&T>)
        requires
            slab_key.index < self.storage@.len(),
        ensures
            match r {
                Some(v) => self.value_at(slab_key.index as int) == Some(*v),
                None => self.value_at(slab_key.index as int) is None,
            },
    {
        self.storage[slab_key.index as usize].as_ref()
    }

    /// Mutable access to the slot that `slab_key` names; `None` once the slot
    /// has been freed.
    pub fn get_mut(&mut self, slab_key: &RawSlabKey<T>) -> (r: Option<&mut T>)
        requires
            old(self).wf(),
            slab_key.index < old(self).storage@.len(),
        ensures
            final(self).wf(),
            final(self).free_list@ == old(self).free_list@,
            final(self).storage@.len() == old(self).storage@.len(),
            r is Some <==> old(self).value_at(slab_key.index as int) is Some,
            r is Some ==> *r.unwrap() == old(self).value_at(slab_key.index as int).unwrap(),
            final(self).value_at(slab_key.index as int) == if r is Some {
                Some(*final(r.unwrap()))
            } else {
                None::<T>
            },
            forall|i: int|
                i != slab_key.index as int ==> final(self).value_at(i) == old(self).value_at(i),
            final(self).spec_active_count() == old(self).spec_active_count(),
    {
        let slot = &mut self.storage[slab_key.index as usize];
        slot.as_mut()
    }

    /// References to the values of all occupied slots, in slot order.
    pub fn iter(&self) -> (r: Vec<&T>)
        ensures
            r@.map_values(|v: &T| *v) == occupied_values(self.storage@),
    {
        let mut out: Vec<&T> = Vec::new();
        let mut i: usize = 0;
        while i < self.storage.len()
            invariant
                i <= self.storage@.len(),
                out@.map_values(|v: &T| *v) == occupied_values(self.storage@.take(i as int)),
            decreases self.storage@.len() - i,
        {
            proof {
                assert(self.storage@.take((i + 1) as int).drop_last() == self.storage@.take(
                    i as int,
                ));
                assert(self.storage@.take((i + 1) as int).last() == self.storage@[i as int]);
            }
            match &self.storage[i] {
                Some(v) => {
                    out.push(v);
                    proof {
                        assert(out@.map_values(|v: &T| *v) =~= occupied_values(
                            self.storage@.take((i + 1) as int),
                        ));
                    }
                },
                None => {
                    proof {
                        assert(out@.map_values(|v: &T| *v) =~= occupied_values(
                            self.storage@.take((i + 1) as int),
                        ));
                    }
                },
            }
            i = i + 1;
        }
        proof {
            assert(self.storage@.take(self.storage@.len() as int) == self.storage@);
        }
        out
    }

    /// Number of occupied slots.
    pub fn active_count(&self) -> (n: usize)
        requires
            self.wf(),
        ensures
            n as int == self.spec_active_count(),
    {
        self.storage.len() - self.free_list.len()
    }
}

/// The values of the occupied slots of `s`, in slot order.
pub open spec fn occupied_values<T>(s: Seq<Option<T>>) -> Seq<T>
    decreases s.len(),
{
    if s.len() == 0 {
        Seq::empty()
    } else {
        match s.last() {
            Some(v) => occupied_values(s.drop_last()).push(v),
            None => occupied_values(s.drop_last()),
        }
    }
}

/// A duplicate-free sequence of indices below `n` that leaves out the index
/// `excluded` has fewer than `n` elements.
pub(crate) proof fn lemma_distinct_in_range_excluding(
    s: Seq<SlabIndexT>,
    n: int,
    excluded: SlabIndexT,
)
    requires
        s.no_duplicates(),
        forall|k: int| 0 <= k < s.len() ==> (#[trigger] s[k] as int) < n,
        (excluded as int) < n,
        !s.contains(excluded),
    ensures
        s.len() < n,
{
    let s2 = s.push(excluded);
    assert(s2.no_duplicates()) by {
        assert forall|a: int, b: int|
            0 <= a < s2.len() && 0 <= b < s2.len() && a != b implies s2[a] != s2[b] by {
            if b == s2.len() - 1 {
                assert(s.contains(s[a]));
            }
            if a == s2.len() - 1 {
                assert(s.contains(s[b]));
            }
        }
    }
    let f = |v: SlabIndexT| v as int;
    assert(vstd::relations::injective(f)) by {
        assert forall|x: SlabIndexT, y: SlabIndexT| #[trigger] f(x) == #[trigger] f(y)
            implies x == y by {}
    }
    s2.lemma_no_duplicates_injective(f);
    let ints = s2.map_values(f);
    ints.unique_seq_to_set();
    let range = vstd::set_lib::set_int_range(0, n);
    vstd::set_lib::lemma_int_range(0, n);
    assert(ints.to_set().subset_of(range)) by {
        assert forall|x: int| ints.to_set().contains(x) implies range.contains(x) by {
            assert(ints.contains(x));
            let k = choose|k: int| 0 <= k < ints.len() && ints[k] == x;
            assert(s2.contains(s2[k]));
        }
    }
    vstd::set_lib::lemma_len_subset(ints.to_set(), range);
}

} // verus!

verus! {

/// Key into a `GenSlab<T>`: a slot index plus the generation the slot had when
/// the key was issued. Lookups validate both, so a key outlives its slot's
/// occupant only as a permanently invalid key.
pub struct GenSlabKey<T> {
    pub index: SlabIndexT,
    pub generation: u32,
    pub phantom_data: core::marker::PhantomData<T>,
}

impl<T> Clone for GenSlabKey<T> {
    fn clone(&self) -> (r: Self)
        ensures
            r.index == self.index,
            r.generation == self.generation,
    {
        GenSlabKey {
            index: self.index,
            generation: self.generation,
            phantom_data: core::marker::PhantomData,
        }
    }
}

impl<T> Copy for GenSlabKey<T> {}

impl<T> GenSlabKey<T> {
    /// The slot index this key refers to.
    pub fn index(&self) -> (i: SlabIndexT)
        ensures
            i == self.index,
    {
        self.index
    }

    /// The generation stamped into this key when it was issued.
    pub fn generation(&self) -> (g: u32)
        ensures
            g == self.generation,
    {
        self.generation
    }
}

/// One slot of a `GenSlab`: the stored value, if any, and the slot's current
/// generation. The generation is bumped every time the slot is freed.
pub struct Slot<T> {
    pub value: Option<T>,
    pub generation: u32,
}

/// Generational slab: a slab whose keys are valid only while the slot they
/// name still carries the generation they were issued with.
pub struct GenSlab<T> {
    /// The slots; an unoccupied slot holds `None` in its `value`.
    pub storage: Vec<Slot<T>>,
    /// Indices of unoccupied slots; the last element is reused first.
    pub free_list: Vec<SlabIndexT>,
}

impl<T> GenSlab<T> {
    /// Every free-list entry names a distinct, in-range, unoccupied slot, and
    /// every unoccupied slot is on the free list.
    pub open spec fn wf(&self) -> bool {
        &&& self.free_list@.no_duplicates()
        &&& forall|k: int|
            0 <= k < self.free_list@.len() ==> (#[trigger] self.free_list@[k] as int)
                < self.storage@.len() && self.storage@[self.free_list@[k] as int].value is None
        &&& forall|i: int|
            0 <= i < self.storage@.len() && self.storage@[i].value is None
                ==> #[trigger] self.free_list@.contains(i as SlabIndexT)
        &&& self.free_list@.len() <= self.storage@.len()
        &&& self.storage@.len() <= u32::MAX as int
    }

    /// The value stored at `index`, if that slot exists and is occupied.
    pub open spec fn value_at(&self, index: int) -> Option<T> {
        if 0 <= index < self.storage@.len() {
            self.storage@[index].value
        } else {
            None
        }
    }

    /// The generation of the slot at `index`.
    pub open spec fn generation_at(&self, index: int) -> int {
        self.storage@[index].generation as int
    }

    /// A key is valid while its slot is occupied and still carries the
    /// generation the key was issued with.
    pub open spec fn valid_handle(&self, key: GenSlabKey<T>) -> bool {
        &&& 0 <= (key.index as int) < self.storage@.len()
        &&& self.generation_at(key.index as int) == key.generation as int
        &&& self.value_at(key.index as int) is Some
    }

    /// The value a valid key refers to.
    pub open spec fn handle_value(&self, key: GenSlabKey<T>) -> T
        recommends
            self.valid_handle(key),
    {
        self.value_at(key.index as int).unwrap()
    }

    /// Number of occupied slots.
    pub open spec fn spec_active_count(&self) -> int {
        self.storage@.len() - self.free_list@.len()
    }

    pub fn new() -> (r: Self)
        ensures
            r.wf(),
            r.spec_active_count() == 0,
            r.storage@.len() < u32::MAX as int,
            forall|i: int| r.value_at(i) is None,
    {
        let initial_count: SlabIndexT = 32;
        let mut storage: Vec<Slot<T>> = Vec::with_capacity(initial_count as usize);
        let mut free_list: Vec<SlabIndexT> = Vec::with_capacity(initial_count as usize);

        // Fill the free list highest index first so that index 0 is reused first.
        let mut pushed: SlabIndexT = 0;
        while pushed < initial_count
            invariant
                pushed <= initial_count,
                storage@.len() == pushed as int,
                free_list@.len() == pushed as int,
                forall|i: int| 0 <= i < pushed as int ==> storage@[i].value is None,
                forall|k: int|
                    0 <= k < pushed as int ==> #[trigger] free_list@[k] == (initial_count - 1
                        - k) as SlabIndexT,
            decreases initial_count - pushed,
        {
            storage.push(Slot { value: None, generation: 0 });
            free_list.push(initial_count - 1 - pushed);
            pushed = pushed + 1;
        }

        let r = GenSlab { storage, free_list };
        proof {
            assert forall|i: int|
                0 <= i < r.storage@.len() && r.storage@[i].value is None implies #[trigger] r
                .free_list@.contains(i as SlabIndexT) by {
                assert(r.free_list@[initial_count - 1 - i] == i as SlabIndexT);
            }
            assert(r.free_list@.no_duplicates()) by {
                assert forall|a: int, b: int|
                    0 <= a < r.free_list@.len() && 0 <= b < r.free_list@.len() && a != b
                        implies r.free_list@[a] != r.free_list@[b] by {}
            }
        }
        r
    }

    /// Stores `value` in an unoccupied slot and returns a key stamped with the
    /// slot's current generation. Reuses the most recently freed slot when one
    /// exists and appends otherwise; every key that was valid stays valid.
    pub fn allocate(&mut self, value: T) -> (key: GenSlabKey<T>)
        requires
            old(self).wf(),
            old(self).storage@.len() < u32::MAX as int,
        ensures
            final(self).wf(),
            final(self).valid_handle(key),
            final(self).handle_value(key) == value,
            !old(self).valid_handle(key),
            forall|i: int|
                i != key.index as int ==> final(self).value_at(i) == old(self).value_at(i),
            forall|i: int|
                0 <= i < old(self).storage@.len() ==> final(self).generation_at(i) == old(self).generation_at(i),
            old(self).value_at(key.index as int) is None,
            forall|h: GenSlabKey<T>|
                old(self).valid_handle(h) ==> final(self).valid_handle(h) && final(self).handle_value(h) == old(self).handle_value(h),
            final(self).spec_active_count() == old(self).spec_active_count() + 1,
            generations_advance_from(*old(self), *final(self)),
    {
        let index = self.free_list.pop();

        if index.is_none() {
            let index = self.storage.len() as SlabIndexT;
            self.storage.push(Slot { value: Some(value), generation: 0 });
            let key = GenSlabKey::<T> {
                index,
                generation: 0,
                phantom_data: core::marker::PhantomData,
            };
            proof {
                assert forall|h: GenSlabKey<T>| old(self).valid_handle(h) implies final(self).valid_handle(h) && final(self).handle_value(h) == old(self).handle_value(h) by {}
            }
            key
        } else {
            // Reuse the most recently freed slot, keeping its generation.
            let index = index.unwrap();
            let generation = self.storage[index as usize].generation;
            self.storage.set(index as usize, Slot { value: Some(value), generation });
            let key = GenSlabKey::<T> {
                index,
                generation,
                phantom_data: core::marker::PhantomData,
            };
            proof {
                let ofl = old(self).free_list@;
                assert(self.free_list@ == ofl.drop_last());
                assert forall|i: int|
                    0 <= i < self.storage@.len() && self.storage@[i].value is None
                        implies #[trigger] self.free_list@.contains(i as SlabIndexT) by {
                    assert(ofl.contains(i as SlabIndexT));
                    let k = choose|k: int| 0 <= k < ofl.len() && ofl[k] == i as SlabIndexT;
                    assert(k < ofl.len() - 1);
                    assert(self.free_list@[k] == i as SlabIndexT);
                }
            }
            key
        }
    }

    /// Releases the slot that `key` names and bumps its generation, so every
    /// key stamped with an earlier generation of this slot is invalid forever.
    /// Freeing through a stale or unoccupied key is a programmer error and is
    /// excluded by precondition, as is a slot whose generation counter is
    /// exhausted.
    pub fn free(&mut self, key: &GenSlabKey<T>)
        requires
            old(self).wf(),
            old(self).valid_handle(*key),
            old(self).generation_at(key.index as int) < u32::MAX as int,
        ensures
            final(self).wf(),
            final(self).value_at(key.index as int) is None,
            final(self).generation_at(key.index as int) == old(self).generation_at(
                key.index as int,
            ) + 1,
            forall|i: int|
                i != key.index as int ==> final(self).value_at(i) == old(self).value_at(i),
            forall|i: int|
                0 <= i < old(self).storage@.len() && i != key.index as int ==> final(self).generation_at(i) == old(self).generation_at(i),
            forall|h: GenSlabKey<T>|
                h.index != key.index && old(self).valid_handle(h) ==> final(self).valid_handle(h)
                    && final(self).handle_value(h) == old(self).handle_value(h),
            forall|h: GenSlabKey<T>| h.index == key.index ==> !final(self).valid_handle(h),
            final(self).spec_active_count() == old(self).spec_active_count() - 1,
            final(self).storage@.len() == old(self).storage@.len(),
            generations_advance_from(*old(self), *final(self)),
    {
        let index = key.index as usize;
        let generation = self.storage[index].generation;
        self.storage.set(index, Slot { value: None, generation: generation + 1 });
        self.free_list.push(key.index);
        proof {
            let ofl = old(self).free_list@;
            assert(!ofl.contains(key.index));
            lemma_distinct_in_range_excluding(ofl, old(self).storage@.len() as int, key.index);
            assert forall|i: int|
                0 <= i < self.storage@.len() && self.storage@[i].value is None
                    implies #[trigger] self.free_list@.contains(i as SlabIndexT) by {
                if i == key.index as int {
                    assert(self.free_list@.last() == key.index);
                } else {
                    assert(ofl.contains(i as SlabIndexT));
                    let k = choose|k: int| 0 <= k < ofl.len() && ofl[k] == i as SlabIndexT;
                    assert(self.free_list@[k] == i as SlabIndexT);
                }
            }
        }
    }

    /// Reads the slot that `key` names, validating both index and generation;
    /// `None` for a stale or unoccupied key rather than a panic.
    pub fn get(&self, key: &GenSlabKey<T>) -> (r: Option<&T>)
        ensures
            match r {
                Some(v) => self.valid_handle(*key) && self.handle_value(*key) == *v,
                None => !self.valid_handle(*key),
            },
    {
        if (key.index as usize) < self.storage.len() {
            let slot = &self.storage[key.index as usize];
            if slot.generation == key.generation {
                slot.value.as_ref()
            } else {
                None
            }
        } else {
            None
        }
    }

    /// Mutable access to the slot that `key` names, validating both index and
    /// generation; `None` for a stale or unoccupied key rather than a panic.
    pub fn get_mut(&mut self, key: &GenSlabKey<T>) -> (r: Option<&mut T>)
        requires
            old(self).wf(),
        ensures
            final(self).wf(),
            final(self).free_list@ == old(self).free_list@,
            final(self).storage@.len() == old(self).storage@.len(),
            r is Some <==> old(self).valid_handle(*key),
            r is Some ==> *r.unwrap() == old(self).handle_value(*key) && final(self).value_at(
                key.index as int,
            ) == Some(*final(r.unwrap())),
            r is None ==> final(self).storage@ == old(self).storage@,
            forall|i: int|
                i != key.index as int ==> final(self).value_at(i) == old(self).value_at(i),
            forall|i: int|
                0 <= i < old(self).storage@.len() ==> final(self).generation_at(i) == old(self).generation_at(i),
            final(self).spec_active_count() == old(self).spec_active_count(),
            generations_advance_from(*old(self), *final(self)),
    {
        if (key.index as usize) < self.storage.len() {
            let slot = &mut self.storage[key.index as usize];
            if slot.generation == key.generation {
                slot.value.as_mut()
            } else {
                None
            }
        } else {
            None
        }
    }

    /// References to the values of all occupied slots, in slot order.
    pub fn iter(&self) -> (r: Vec<&T>)
        ensures
            r@.map_values(|v: &T| *v) == occupied_values(
                self.storage@.map_values(|s: Slot<T>| s.value),
            ),
    {
        let values: Ghost<Seq<Option<T>>> = Ghost(self.storage@.map_values(|s: Slot<T>| s.value));
        let mut out: Vec<&T> = Vec::new();
        let mut i: usize = 0;
        while i < self.storage.len()
            invariant
                i <= self.storage@.len(),
                values@ == self.storage@.map_values(|s: Slot<T>| s.value),
                out@.map_values(|v: &T| *v) == occupied_values(values@.take(i as int)),
            decreases self.storage@.len() - i,
        {
            proof {
                assert(values@.take((i + 1) as int).drop_last() == values@.take(i as int));
                assert(values@.take((i + 1) as int).last() == values@[i as int]);
            }
            match &self.storage[i].value {
                Some(v) => {
                    out.push(v);
                    proof {
                        assert(out@.map_values(|v: &T| *v) =~= occupied_values(
                            values@.take((i + 1) as int),
                        ));
                    }
                },
                None => {
                    proof {
                        assert(out@.map_values(|v: &T| *v) =~= occupied_values(
                            values@.take((i + 1) as int),
                        ));
                    }
                },
            }
            i = i + 1;
        }
        proof {
            assert(values@.take(values@.len() as int) =~= values@);
        }
        out
    }

    /// Keys for all occupied slots, in increasing index order. Every returned
    /// key is valid and every occupied slot is represented exactly once.
    pub fn active_handles(&self) -> (r: Vec<GenSlabKey<T>>)
        requires
            self.wf(),
        ensures
            forall|k: int| 0 <= k < r@.len() ==> self.valid_handle(#[trigger] r@[k]),
            forall|k1: int, k2: int|
                0 <= k1 < k2 < r@.len() ==> r@[k1].index < r@[k2].index,
            forall|i: int|
                0 <= i < self.storage@.len() && self.value_at(i) is Some ==> exists|k: int|
                    0 <= k < r@.len() && (#[trigger] r@[k]).index as int == i,
    {
        let mut out: Vec<GenSlabKey<T>> = Vec::new();
        let mut i: usize = 0;
        while i < self.storage.len()
            invariant
                self.wf(),
                i <= self.storage@.len(),
                forall|k: int| 0 <= k < out@.len() ==> self.valid_handle(#[trigger] out@[k]),
                forall|k: int| 0 <= k < out@.len() ==> ((#[trigger] out@[k]).index as int) < i as int,
                forall|k1: int, k2: int|
                    0 <= k1 < k2 < out@.len() ==> out@[k1].index < out@[k2].index,
                forall|j: int|
                    0 <= j < i as int && self.value_at(j) is Some ==> exists|k: int|
                        0 <= k < out@.len() && (#[trigger] out@[k]).index as int == j,
            decreases self.storage@.len() - i,
        {
            let ghost prev_out = out@;
            let slot = &self.storage[i];
            if slot.value.is_some() {
                let key = GenSlabKey::<T> {
                    index: i as SlabIndexT,
                    generation: slot.generation,
                    phantom_data: core::marker::PhantomData,
                };
                out.push(key);
                proof {
                    assert forall|j: int|
                        0 <= j < (i as int) + 1 && self.value_at(j) is Some
                            implies exists|k: int|
                            0 <= k < out@.len() && (#[trigger] out@[k]).index as int == j by {
                        if j == i as int {
                            assert(out@[out@.len() - 1].index as int == j);
                        } else {
                            let k = choose|k: int|
                                0 <= k < prev_out.len() && (#[trigger] prev_out[k]).index as int
                                    == j;
                            assert(out@[k].index as int == j);
                        }
                    }
                }
            }
            i = i + 1;
        }
        out
    }

    /// Rebuilds a full key for an occupied slot from its raw index, stamping
    /// the slot's current generation. Iteration code stores raw indices for
    /// speed but must always hand validated keys back to its callers.
    pub fn upgrade_index_to_handle(&self, index: SlabIndexT) -> (key: GenSlabKey<T>)
        requires
            self.wf(),
            (index as int) < self.storage@.len(),
            self.value_at(index as int) is Some,
        ensures
            self.valid_handle(key),
            key.index == index,
    {
        let generation = self.storage[index as usize].generation;
        GenSlabKey::<T> { index, generation, phantom_data: core::marker::PhantomData }
    }

    /// Number of occupied slots.
    pub fn active_count(&self) -> (n: usize)
        requires
            self.wf(),
        ensures
            n as int == self.spec_active_count(),
    {
        self.storage.len() - self.free_list.len()
    }
}

/// Slot generations only ever move forward: `post` is reachable from `pre` by
/// slab operations exactly when no slot's generation has moved backwards and
/// no slot has disappeared.
pub open spec fn generations_advance_from<T>(pre: GenSlab<T>, post: GenSlab<T>) -> bool {
    &&& pre.storage@.len() <= post.storage@.len()
    &&& forall|i: int|
        0 <= i < pre.storage@.len() ==> pre.generation_at(i) <= #[trigger] post.generation_at(i)
}

/// Generation advance composes across any chain of slab operations.
pub proof fn lemma_generations_advance_transitive<T>(a: GenSlab<T>, b: GenSlab<T>, c: GenSlab<T>)
    requires
        generations_advance_from(a, b),
        generations_advance_from(b, c),
    ensures
        generations_advance_from(a, c),
{
}

/// A key whose slot has moved past the key's generation stamp can never again
/// be valid: every later state reached by slab operations only advances slot
/// generations, so `get` and `get_mut` fail for the key forever — in
/// particular after the slot is reallocated at the same index.
pub proof fn lemma_stale_handle_never_valid<T>(pre: GenSlab<T>, post: GenSlab<T>, h: GenSlabKey<T>)
    requires
        0 <= (h.index as int) < pre.storage@.len(),
        (h.generation as int) < pre.generation_at(h.index as int),
        generations_advance_from(pre, post),
    ensures
        !post.valid_handle(h),
{
}

} // verus!

verus! {

/// Number of occupied slots of `slots`, counted directly.
pub open spec fn occupied_slot_count<T>(slots: Seq<Slot<T>>) -> int
    decreases slots.len(),
{
    if slots.len() == 0 {
        0int
    } else {
        occupied_slot_count(slots.drop_last()) + if slots.last().value is Some {
            1int
        } else {
            0int
        }
    }
}

/// The set of indices of unoccupied slots.
pub open spec fn unoccupied_indices<T>(slots: Seq<Slot<T>>) -> Set<int> {
    Set::new(|i: int| 0 <= i < slots.len() && slots[i].value is None)
}

/// There are exactly `len - occupied` unoccupied slots.
proof fn lemma_unoccupied_indices_card<T>(slots: Seq<Slot<T>>)
    ensures
        unoccupied_indices(slots).finite(),
        unoccupied_indices(slots).len() == slots.len() - occupied_slot_count(slots),
    decreases slots.len(),
{
    if slots.len() == 0 {
        assert(unoccupied_indices(slots) =~= Set::<int>::empty());
    } else {
        let rest = slots.drop_last();
        lemma_unoccupied_indices_card(rest);
        if slots.last().value is Some {
            assert(unoccupied_indices(slots) =~= unoccupied_indices(rest));
        } else {
            assert(unoccupied_indices(slots) =~= unoccupied_indices(rest).insert(
                slots.len() - 1,
            ));
            assert(!unoccupied_indices(rest).contains(slots.len() - 1));
        }
    }
}

/// The count kept through the free list is the real number of live values:
/// under the slab's invariant, the free list lists exactly the unoccupied
/// slots, so `active_count` equals the number of occupied slots.
pub proof fn lemma_active_count_is_occupied<T>(s: GenSlab<T>)
    requires
        s.wf(),
    ensures
        s.spec_active_count() == occupied_slot_count(s.storage@),
{
    let fl = s.free_list@;
    let f = |v: SlabIndexT| v as int;
    assert(vstd::relations::injective(f)) by {
        assert forall|x: SlabIndexT, y: SlabIndexT| #[trigger] f(x) == #[trigger] f(y)
            implies x == y by {}
    }
    fl.lemma_no_duplicates_injective(f);
    let ints = fl.map_values(f);
    ints.unique_seq_to_set();
    lemma_unoccupied_indices_card(s.storage@);
    assert(ints.to_set() =~= unoccupied_indices(s.storage@)) by {
        assert forall|i: int| ints.to_set().contains(i) implies unoccupied_indices(
            s.storage@,
        ).contains(i) by {
            assert(ints.contains(i));
            let k = choose|k: int| 0 <= k < ints.len() && ints[k] == i;
            assert((fl[k] as int) == i);
        }
        assert forall|i: int| unoccupied_indices(s.storage@).contains(i) implies ints
            .to_set()
            .contains(i) by {
            assert(fl.contains(i as SlabIndexT));
            let k = choose|k: int| 0 <= k < fl.len() && fl[k] == i as SlabIndexT;
            assert(ints[k] == i);
            assert(ints.contains(i));
        }
    }
}

} // verus!
