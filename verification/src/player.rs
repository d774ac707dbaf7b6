//! Players: the people who publish, verify and beat demons.

use crate::demon::MinimalDemon;
use crate::record::MinimalRecordD;
use vstd::prelude::*;

verus! {

/// Whether two player entries denote the same player.
pub open spec fn same_player(a: DatabasePlayer, b: DatabasePlayer) -> bool {
    a.id == b.id && a.name@ == b.name@ && a.banned == b.banned
}

/// The minimal representation of a player, as stored alongside each demon.
#[derive(Debug, Clone, Eq, Hash)]
pub struct DatabasePlayer {
    pub id: i32,
    pub name: String,
    pub banned: bool,
}

impl PartialEq for DatabasePlayer {
    fn eq(&self, other: &DatabasePlayer) -> (r: bool) {
        self.id == other.id && self.name == other.name && self.banned == other.banned
    }
}

impl vstd::std_specs::cmp::PartialEqSpecImpl for DatabasePlayer {
    open spec fn obeys_eq_spec() -> bool {
        true
    }

    open spec fn eq_spec(&self, other: &DatabasePlayer) -> bool {
        same_player(*self, *other)
    }
}

/// A nationality a player can claim.
#[derive(Debug, Clone, PartialEq, Eq, Hash)]
pub struct Nationality {
    pub iso_country_code: String,
    pub nation: String,
}

/// A player together with the nationality they claim.
#[derive(Debug, PartialEq, Eq, Hash)]
pub struct Player {
    pub base: DatabasePlayer,
    pub nationality: Option<Nationality>,
}

/// The "full" version of a player: the player plus their records and the
/// demons they created, verified or published.
#[derive(Debug, PartialEq, Eq, Hash)]
pub struct FullPlayer {
    pub player: Player,
    pub records: Vec<MinimalRecordD>,
    pub created: Vec<MinimalDemon>,
    pub verified: Vec<MinimalDemon>,
    pub published: Vec<MinimalDemon>,
}

} // verus!
