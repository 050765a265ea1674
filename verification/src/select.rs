//! Registry of selectable component-prototype kinds. Each prototype kind a
//! program registers is assigned one numeric kind id at setup; the registry
//! answers which registered entry, if any, can produce a selection shape for
//! a given kind. The shapes themselves are geometry and belong to the
//! caller's collision layer.

use vstd::prelude::*;

verus! {

/// Map from prototype kind id to registry slot, backed by a hashed table.
#[verifier::external_body]
pub struct SelectKindMap {
    inner: hashbrown::HashMap<u64, usize>,
}

/// What the kind map holds: its key-value pairs.
pub uninterp spec fn select_kind_map_contents(m: SelectKindMap) -> Map<u64, usize>;

/// Relies on hashbrown::HashMap::new: a freshly created map is empty.
#[verifier::external_body]
fn select_kind_map_new() -> (r: SelectKindMap)
    ensures
        forall|k: u64| !select_kind_map_contents(r).dom().contains(k),
{
    SelectKindMap { inner: hashbrown::HashMap::new() }
}

/// Relies on hashbrown::HashMap::insert: after the call the map holds `v`
/// under `k` and is otherwise unchanged.
#[verifier::external_body]
fn select_kind_map_insert(m: &mut SelectKindMap, k: u64, v: usize)
    ensures
        select_kind_map_contents(*final(m)) == select_kind_map_contents(*old(m)).insert(k, v),
{
    let _ = m.inner.insert(k, v);
}

/// Relies on hashbrown::HashMap::get: the value stored under `k`, if the map
/// holds one.
#[verifier::external_body]
fn select_kind_map_get(m: &SelectKindMap, k: u64) -> (r: Option<usize>)
    ensures
        r == if select_kind_map_contents(*m).dom().contains(k) {
            Some(select_kind_map_contents(*m)[k])
        } else {
            None::<usize>
        },
{
    m.inner.get(&k).copied()
}

/// Typed token recording that the prototype type `T` was registered as
/// selectable; the selection-shape routine for `T` lives with the caller's
/// geometry layer under the registry slot this registration was given.
pub struct RegisteredComponentPrototype<T> {
    pub phantom_data: core::marker::PhantomData<T>,
}

impl<T> RegisteredComponentPrototype<T> {
    pub fn new() -> Self {
        RegisteredComponentPrototype { phantom_data: core::marker::PhantomData }
    }
}

/// Registry of selectable prototype kinds: kind id to registry slot, in
/// registration order. Populated once at setup.
pub struct SelectRegistry {
    /// The registered kind ids, in registration order.
    pub kinds: Vec<u64>,
    /// Lookup from kind id to its slot in `kinds`.
    pub registered_component_prototypes: SelectKindMap,
}

impl SelectRegistry {
    /// The lookup table mirrors the registration list exactly.
    pub open spec fn wf(&self) -> bool {
        &&& self.kinds@.no_duplicates()
        &&& forall|kind: u64|
            select_kind_map_contents(self.registered_component_prototypes).dom().contains(kind)
                <==> #[trigger] self.kinds@.contains(kind)
        &&& forall|i: int|
            0 <= i < self.kinds@.len() ==> select_kind_map_contents(
                self.registered_component_prototypes,
            )[#[trigger] self.kinds@[i]] == i
    }

    pub fn new() -> (r: Self)
        ensures
            r.wf(),
            r.kinds@.len() == 0,
    {
        let r = SelectRegistry { kinds: Vec::new(), registered_component_prototypes: select_kind_map_new() }
            ;
        proof {
            assert forall|kind: u64|
                select_kind_map_contents(r.registered_component_prototypes).dom().contains(kind)
                    <==> #[trigger] r.kinds@.contains(kind) by {
                if r.kinds@.contains(kind) {
                    let i = choose|i: int| 0 <= i < r.kinds@.len() && r.kinds@[i] == kind;
                }
            }
        }
        r
    }

    /// Registers the prototype type `T` as selectable under `kind`; each kind
    /// is registered exactly once.
    pub fn register_component_prototype<T>(
        &mut self,
        kind: u64,
        registration: RegisteredComponentPrototype<T>,
    )
        requires
            old(self).wf(),
            !old(self).kinds@.contains(kind),
            old(self).kinds@.len() < usize::MAX,
        ensures
            final(self).wf(),
            final(self).kinds@ == old(self).kinds@.push(kind),
    {
        let _ = registration;
        select_kind_map_insert(&mut self.registered_component_prototypes, kind, self.kinds.len());
        self.kinds.push(kind);
        proof {
            let contents = select_kind_map_contents(self.registered_component_prototypes);
            assert forall|kind2: u64|
                contents.dom().contains(kind2) <==> #[trigger] self.kinds@.contains(kind2) by {
                if kind2 == kind {
                    assert(self.kinds@.last() == kind);
                    assert(self.kinds@.contains(kind));
                } else {
                    if old(self).kinds@.contains(kind2) {
                        let i = choose|i: int|
                            0 <= i < old(self).kinds@.len() && old(self).kinds@[i] == kind2;
                        assert(self.kinds@[i] == kind2);
                    }
                    if self.kinds@.contains(kind2) {
                        let i = choose|i: int|
                            0 <= i < self.kinds@.len() && self.kinds@[i] == kind2;
                        assert(old(self).kinds@[i] == kind2);
                        assert(old(self).kinds@.contains(kind2));
                    }
                }
            }
            assert forall|i: int|
                0 <= i < self.kinds@.len() implies contents[#[trigger] self.kinds@[i]] == i by {
                if i < self.kinds@.len() - 1 {
                    assert(self.kinds@[i] == old(self).kinds@[i]);
                    assert(old(self).kinds@.contains(self.kinds@[i]));
                    assert(self.kinds@[i] != kind);
                }
            }
        }
    }

    /// The registry slot of the registered entry able to produce a selection
    /// shape for `kind`; `None` — a recoverable absence, not an error — when
    /// no prototype of that kind was registered.
    pub fn create_selection_shape(&self, kind: u64) -> (r: Option<usize>)
        requires
            self.wf(),
        ensures
            r is Some <==> self.kinds@.contains(kind),
            r is Some ==> (r.unwrap() as int) < self.kinds@.len() && self.kinds@[r.unwrap() as int]
                == kind,
    {
        let r = select_kind_map_get(&self.registered_component_prototypes, kind);
        proof {
            if select_kind_map_contents(self.registered_component_prototypes).dom().contains(
                kind,
            ) {
                assert(self.kinds@.contains(kind));
                let i = choose|i: int| 0 <= i < self.kinds@.len() && self.kinds@[i] == kind;
                assert(select_kind_map_contents(self.registered_component_prototypes)[kind] == i);
            } else {
                assert(!self.kinds@.contains(kind));
            }
        }
        r
    }
}

} // verus!
