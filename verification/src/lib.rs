//! Runtime core of a data-oriented entity/task framework: a generational slab
//! allocator with stable, reuse-safe handles, an entity store with deferred
//! destruction, per-component-type tables, a resource map keyed by numeric
//! resource ids, and a task scheduler that orders phased work and proves at
//! configuration time that concurrently eligible tasks never alias a resource
//! unsafely.

use vstd::prelude::*;

pub mod component;
pub mod components;
pub mod context_flags;
pub mod dispatch;
pub mod entity;
pub mod resource;
pub mod select;
pub mod slab;
pub mod task;
pub mod tasks;

pub use entity::Entity;
pub use entity::EntityHandle;
pub use entity::EntityRef;
pub use entity::EntitySet;
pub use resource::ResourceId;
pub use resource::ResourceMap;

verus! {

/// Play-mode of the surrounding game loop; each mode corresponds to one
/// context-flag bit checked against every task's run condition.
#[derive(Copy, Clone, PartialEq, Eq, Structural, Debug)]
pub enum PlayMode {
    /// The game is frozen for debug purposes.
    System,
    /// The game is paused by the user.
    Paused,
    /// Normal simulation is running.
    Playing,
}

} // verus!
