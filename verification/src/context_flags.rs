//! Context-flag bits checked against each task's run condition once per tick.

use vstd::prelude::*;

verus! {

/// The game is frozen for debug purposes.
pub const PLAYMODE_SYSTEM: usize = 1;

/// The game is paused by the user.
pub const PLAYMODE_PAUSED: usize = 2;

/// Normal simulation is running.
pub const PLAYMODE_PLAYING: usize = 4;

/// This process simulates with server authority; a dedicated server runs with
/// this flag alone, a listen client or single-player game with both.
pub const AUTHORITY_SERVER: usize = 8;

/// This process runs client-side logic.
pub const AUTHORITY_CLIENT: usize = 16;

} // verus!
