//! Records: claimed completions of a demon by a player.

use crate::demon::MinimalDemon;
use crate::player::DatabasePlayer;
use vstd::prelude::*;

verus! {

/// A record as embedded in a demon: the demon is implied by context, so only
/// the player is referenced.
#[derive(Debug, PartialEq, Eq, Hash)]
pub struct MinimalRecordP {
    pub id: i32,
    pub progress: i16,
    pub video: Option<String>,
    pub player: DatabasePlayer,
}

/// A record as embedded in a player: the player is implied by context, so only
/// the demon is referenced.
#[derive(Debug, PartialEq, Eq, Hash)]
pub struct MinimalRecordD {
    pub id: i32,
    pub progress: i16,
    pub video: Option<String>,
    pub demon: MinimalDemon,
}

} // verus!
