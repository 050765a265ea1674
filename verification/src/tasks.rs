//! Game-side tasks whose decision logic lives in the core. Each task's
//! configuration — phase, run condition — is declared here; the per-entity
//! decisions its body makes are verified kernels, while the effects they
//! drive (drawing, physics stepping, UI) belong to the surrounding
//! subsystems.

use vstd::prelude::*;

use crate::component::ComponentStorage;
use crate::component::VecComponentStorage;
use crate::context_flags::AUTHORITY_CLIENT;
use crate::context_flags::PLAYMODE_PLAYING;
use crate::context_flags::PLAYMODE_SYSTEM;
use crate::entity::EntityHandle;
use crate::entity::EntitySet;
use crate::task::TaskConfig;
use crate::task::PHASE_PRE_PHYSICS_GAMEPLAY;
use crate::task::PHASE_PRE_RENDER;

verus! {

/// Handles of the entities that have a component in `primary` and also one
/// in `also`, in increasing index order: the pairing every draw-style task
/// iterates.
pub fn entities_with_both<A, B, SB: ComponentStorage<B>>(
    primary: &VecComponentStorage<A>,
    also: &SB,
    entity_set: &EntitySet,
) -> (r: Vec<EntityHandle>)
    requires
        entity_set.wf(),
        primary.storage_wf(),
        also.storage_wf(),
        crate::component::storage_matches_entities(*primary, *entity_set),
    ensures
        forall|k: int|
            0 <= k < r@.len() ==> entity_set.slab.valid_handle(#[trigger] r@[k])
                && primary.component_at(r@[k].index as int) is Some && also.component_at(
                r@[k].index as int,
            ) is Some,
        forall|k1: int, k2: int| 0 <= k1 < k2 < r@.len() ==> r@[k1].index < r@[k2].index,
        forall|i: int|
            primary.component_at(i) is Some && also.component_at(i) is Some ==> exists|k: int|
                0 <= k < r@.len() && (#[trigger] r@[k]).index as int == i,
{
    let mut out: Vec<EntityHandle> = Vec::new();
    let mut i: usize = 0;
    while i < primary.components.len()
        invariant
            entity_set.wf(),
            primary.storage_wf(),
            also.storage_wf(),
            crate::component::storage_matches_entities(*primary, *entity_set),
            i <= primary.components@.len(),
            forall|k: int|
                0 <= k < out@.len() ==> entity_set.slab.valid_handle(#[trigger] out@[k])
                    && primary.component_at(out@[k].index as int) is Some && also.component_at(
                    out@[k].index as int,
                ) is Some,
            forall|k: int| 0 <= k < out@.len() ==> ((#[trigger] out@[k]).index as int) < i as int,
            forall|k1: int, k2: int| 0 <= k1 < k2 < out@.len() ==> out@[k1].index < out@[k2].index,
            forall|j: int|
                0 <= j < i as int && primary.component_at(j) is Some && also.component_at(
                    j,
                ) is Some ==> exists|k: int|
                    0 <= k < out@.len() && (#[trigger] out@[k]).index as int == j,
        decreases primary.components@.len() - i,
    {
        let ghost prev_out = out@;
        if primary.components[i].is_some() {
            proof {
                assert(primary.component_at(i as int) is Some);
            }
            let h = entity_set.upgrade_index_to_handle(i as u32);
            if also.has_component(&h) {
                out.push(h);
                proof {
                    assert forall|j: int|
                        0 <= j < (i as int) + 1 && primary.component_at(j) is Some
                            && also.component_at(j) is Some implies exists|k: int|
                        0 <= k < out@.len() && (#[trigger] out@[k]).index as int == j by {
                        if j == i as int {
                            assert((out@[out@.len() - 1]).index as int == j);
                        } else {
                            let k = choose|k: int|
                                0 <= k < prev_out.len() && (#[trigger] prev_out[k]).index as int
                                    == j;
                            assert((out@[k]).index as int == j);
                        }
                    }
                }
            }
        }
        i = i + 1;
    }
    out
}

/// Handles of the entities that have a component in `primary` but none in
/// `excluded`, in increasing index order: the selection every task iterates
/// when another subsystem owns the excluded entities.
pub fn entities_without_second<A, B, SB: ComponentStorage<B>>(
    primary: &VecComponentStorage<A>,
    excluded: &SB,
    entity_set: &EntitySet,
) -> (r: Vec<EntityHandle>)
    requires
        entity_set.wf(),
        primary.storage_wf(),
        excluded.storage_wf(),
        crate::component::storage_matches_entities(*primary, *entity_set),
    ensures
        forall|k: int|
            0 <= k < r@.len() ==> entity_set.slab.valid_handle(#[trigger] r@[k])
                && primary.component_at(r@[k].index as int) is Some && excluded.component_at(
                r@[k].index as int,
            ) is None,
        forall|k1: int, k2: int| 0 <= k1 < k2 < r@.len() ==> r@[k1].index < r@[k2].index,
        forall|i: int|
            primary.component_at(i) is Some && excluded.component_at(i) is None ==> exists|k: int|
                0 <= k < r@.len() && (#[trigger] r@[k]).index as int == i,
{
    let mut out: Vec<EntityHandle> = Vec::new();
    let mut i: usize = 0;
    while i < primary.components.len()
        invariant
            entity_set.wf(),
            primary.storage_wf(),
            excluded.storage_wf(),
            crate::component::storage_matches_entities(*primary, *entity_set),
            i <= primary.components@.len(),
            forall|k: int|
                0 <= k < out@.len() ==> entity_set.slab.valid_handle(#[trigger] out@[k])
                    && primary.component_at(out@[k].index as int) is Some && excluded.component_at(
                    out@[k].index as int,
                ) is None,
            forall|k: int| 0 <= k < out@.len() ==> ((#[trigger] out@[k]).index as int) < i as int,
            forall|k1: int, k2: int| 0 <= k1 < k2 < out@.len() ==> out@[k1].index < out@[k2].index,
            forall|j: int|
                0 <= j < i as int && primary.component_at(j) is Some && excluded.component_at(
                    j,
                ) is None ==> exists|k: int|
                    0 <= k < out@.len() && (#[trigger] out@[k]).index as int == j,
        decreases primary.components@.len() - i,
    {
        let ghost prev_out = out@;
        if primary.components[i].is_some() {
            proof {
                assert(primary.component_at(i as int) is Some);
            }
            let h = entity_set.upgrade_index_to_handle(i as u32);
            if !excluded.has_component(&h) {
                out.push(h);
                proof {
                    assert forall|j: int|
                        0 <= j < (i as int) + 1 && primary.component_at(j) is Some
                            && excluded.component_at(j) is None implies exists|k: int|
                        0 <= k < out@.len() && (#[trigger] out@[k]).index as int == j by {
                        if j == i as int {
                            assert((out@[out@.len() - 1]).index as int == j);
                        } else {
                            let k = choose|k: int|
                                0 <= k < prev_out.len() && (#[trigger] prev_out[k]).index as int
                                    == j;
                            assert((out@[k]).index as int == j);
                        }
                    }
                }
            }
        }
        i = i + 1;
    }
    out
}

/// Advances positions by velocity once per playing tick. Entities whose
/// movement is owned by a physics body are skipped; the position arithmetic
/// itself belongs to the caller's math layer and runs exactly over the
/// entities selected here.
pub struct UpdatePositionWithVelocity {}

impl UpdatePositionWithVelocity {
    /// Runs during pre-physics gameplay, only while the game is playing.
    pub fn configure(config: &mut TaskConfig)
        ensures
            final(config).phase == PHASE_PRE_PHYSICS_GAMEPLAY,
            final(config).run_criteria == PLAYMODE_PLAYING,
            final(config).reads@ == old(config).reads@,
            final(config).writes@ == old(config).writes@,
    {
        config.this_runs_during_phase(PHASE_PRE_PHYSICS_GAMEPLAY);
        config.run_only_if(PLAYMODE_PLAYING);
    }

    /// The entities whose position this tick should advance: those with a
    /// velocity component and no physics body, since a body's movement is
    /// controlled by the physics step instead.
    pub fn entities_to_update<V, B, SB: ComponentStorage<B>>(
        velocities: &VecComponentStorage<V>,
        bodies: &SB,
        entity_set: &EntitySet,
    ) -> (r: Vec<EntityHandle>)
        requires
            entity_set.wf(),
            velocities.storage_wf(),
            bodies.storage_wf(),
            crate::component::storage_matches_entities(*velocities, *entity_set),
        ensures
            forall|k: int|
                0 <= k < r@.len() ==> entity_set.slab.valid_handle(#[trigger] r@[k])
                    && velocities.component_at(r@[k].index as int) is Some && bodies.component_at(
                    r@[k].index as int,
                ) is None,
            forall|k1: int, k2: int| 0 <= k1 < k2 < r@.len() ==> r@[k1].index < r@[k2].index,
            forall|i: int|
                velocities.component_at(i) is Some && bodies.component_at(i) is None
                    ==> exists|k: int| 0 <= k < r@.len() && (#[trigger] r@[k]).index as int == i,
    {
        entities_without_second(velocities, bodies, entity_set)
    }
}

/// Draws every debug shape whose entity also has a position. The shape and
/// color payloads are the drawing layer's; the selection is exactly the
/// entities carrying both components.
pub struct DebugDrawComponents {}

impl DebugDrawComponents {
    /// Runs during pre-render, on clients only.
    pub fn configure(config: &mut TaskConfig)
        ensures
            final(config).phase == PHASE_PRE_RENDER,
            final(config).run_criteria == AUTHORITY_CLIENT,
            final(config).reads@ == old(config).reads@,
            final(config).writes@ == old(config).writes@,
    {
        config.this_runs_during_phase(PHASE_PRE_RENDER);
        config.run_only_if(AUTHORITY_CLIENT);
    }

    /// The entities to draw: those with a drawable component and a position.
    pub fn entities_to_draw<D, P, SP: ComponentStorage<P>>(
        drawables: &VecComponentStorage<D>,
        positions: &SP,
        entity_set: &EntitySet,
    ) -> (r: Vec<EntityHandle>)
        requires
            entity_set.wf(),
            drawables.storage_wf(),
            positions.storage_wf(),
            crate::component::storage_matches_entities(*drawables, *entity_set),
        ensures
            forall|k: int|
                0 <= k < r@.len() ==> entity_set.slab.valid_handle(#[trigger] r@[k])
                    && drawables.component_at(r@[k].index as int) is Some
                    && positions.component_at(r@[k].index as int) is Some,
            forall|k1: int, k2: int| 0 <= k1 < k2 < r@.len() ==> r@[k1].index < r@[k2].index,
            forall|i: int|
                drawables.component_at(i) is Some && positions.component_at(i) is Some
                    ==> exists|k: int| 0 <= k < r@.len() && (#[trigger] r@[k]).index as int == i,
    {
        entities_with_both(drawables, positions, entity_set)
    }
}

/// Steps the editor's collision world once per tick while the game is frozen
/// for editing; the stepping itself is the collision layer's work.
pub struct EditorUpdateSelectionWorld {}

impl EditorUpdateSelectionWorld {
    /// Runs during pre-render, only while the game is frozen for editing.
    pub fn configure(config: &mut TaskConfig)
        ensures
            final(config).phase == PHASE_PRE_RENDER,
            final(config).run_criteria == PLAYMODE_SYSTEM,
            final(config).reads@ == old(config).reads@,
            final(config).writes@ == old(config).writes@,
    {
        config.this_runs_during_phase(PHASE_PRE_RENDER);
        config.run_only_if(PLAYMODE_SYSTEM);
    }
}

/// Renders the editor's entity list and maintains the selection the user
/// clicks together; the list widget itself is the UI layer's, while the
/// selection bookkeeping is decided here.
pub struct RenderImguiEntityList {}

impl RenderImguiEntityList {
    /// Runs during pre-render, on clients only.
    pub fn configure(config: &mut TaskConfig)
        ensures
            final(config).phase == PHASE_PRE_RENDER,
            final(config).run_criteria == AUTHORITY_CLIENT,
            final(config).reads@ == old(config).reads@,
            final(config).writes@ == old(config).writes@,
    {
        config.this_runs_during_phase(PHASE_PRE_RENDER);
        config.run_only_if(AUTHORITY_CLIENT);
    }

    /// Applies one click on the entity list to the selection table. With the
    /// additive modifier held, the clicked entity's selection is toggled and
    /// every other selection is kept; without it, the clicked entity becomes
    /// the only selected one.
    pub fn toggle_entity_selection<T>(
        selected: &mut VecComponentStorage<T>,
        handle: &EntityHandle,
        marker: T,
        additive: bool,
    )
        requires
            old(selected).storage_wf(),
            (handle.index as int) < u32::MAX as int,
        ensures
            final(selected).storage_wf(),
            additive ==> final(selected).component_at(handle.index as int) == (if old(
                selected,
            ).component_at(handle.index as int) is None {
                Some(marker)
            } else {
                None::<T>
            }),
            additive ==> forall|i: int|
                i != handle.index as int ==> final(selected).component_at(i) == old(
                    selected,
                ).component_at(i),
            !additive ==> final(selected).component_at(handle.index as int) == Some(marker),
            !additive ==> forall|i: int|
                i != handle.index as int ==> final(selected).component_at(i) is None,
    {
        if additive {
            if !selected.has_component(handle) {
                selected.allocate(handle, marker);
            } else {
                selected.free(handle);
            }
        } else {
            selected.free_all();
            selected.allocate(handle, marker);
        }
    }
}

} // verus!
