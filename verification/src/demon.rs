//! Demons: the ranked levels themselves, and the validation rules and display
//! headlines that belong to them.

use crate::error::DemonlistError;
use crate::player::{same_player, DatabasePlayer};
use crate::record::MinimalRecordP;
use vstd::prelude::*;
use vstd::string::StringExecFns;

verus! {

/// Absolutely minimal representation of a demon, used when a demon is part of
/// another object.
#[derive(Debug, PartialEq, Eq, Hash, Clone)]
pub struct MinimalDemon {
    /// The demon's unique id.
    pub id: i32,
    /// The demon's position on the list. Positions of the ranked demons are
    /// always consecutive positive integers starting at 1.
    pub position: i16,
    /// The demon's level name; names need not be unique.
    pub name: String,
}

/// A demon together with its requirement, video and the players that
/// published and verified it.
#[derive(Debug, PartialEq, Eq, Hash)]
pub struct Demon {
    pub base: MinimalDemon,
    /// The minimal progress a player must achieve on this demon to have a
    /// record accepted; always within `[0, 100]`.
    pub requirement: i16,
    pub video: Option<String>,
    pub publisher: DatabasePlayer,
    pub verifier: DatabasePlayer,
    /// The Geometry Dash level id, where known.
    pub level_id: Option<u64>,
}

/// The "full" version of a demon: the demon itself plus its creators and its
/// accepted records.
#[derive(Debug, PartialEq, Eq, Hash)]
pub struct FullDemon {
    pub demon: Demon,
    pub creators: Vec<DatabasePlayer>,
    pub records: Vec<MinimalRecordP>,
}

/// A demon as it stood at some past instant, paired with the position it
/// holds now.
#[derive(Debug)]
pub struct TimeShiftedDemon {
    pub current_demon: Demon,
    pub position_now: i16,
}

/// The data a caller submits to put a new demon onto the list.
#[derive(Debug, PartialEq, Eq)]
pub struct PostDemon {
    pub name: String,
    pub position: i16,
    pub requirement: i16,
    pub verifier: DatabasePlayer,
    pub publisher: DatabasePlayer,
    pub creators: Vec<DatabasePlayer>,
    pub video: Option<String>,
}

/// The names of a sequence of players, as sequences of characters.
pub open spec fn names_of(players: Seq<DatabasePlayer>) -> Seq<Seq<char>> {
    players.map_values(|p: DatabasePlayer| p.name@)
}

/// The given names joined by `", "`.
pub open spec fn comma_list(names: Seq<Seq<char>>) -> Seq<char>
    decreases names.len(),
{
    if names.len() == 0 {
        Seq::<char>::empty()
    } else if names.len() == 1 {
        names[0]
    } else {
        comma_list(names.drop_last()) + ", "@ + names.last()
    }
}

/// The credit given to a list of creators: `"Unknown"` when there are none,
/// the single name when there is one, and otherwise all but the first joined
/// by `", "`, then `" and "`, then the first.
pub open spec fn creators_text(names: Seq<Seq<char>>) -> Seq<char> {
    if names.len() == 0 {
        "Unknown"@
    } else if names.len() == 1 {
        names[0]
    } else {
        comma_list(names.skip(1)) + " and "@ + names[0]
    }
}

/// The headline crediting creators, verifier and publisher, collapsing the
/// credits that coincide.
pub open spec fn headline_text(creator: Seq<char>, verifier: Seq<char>, publisher: Seq<char>) -> Seq<char> {
    if creator == verifier && creator == publisher {
        "by "@ + creator
    } else if creator != verifier && verifier == publisher {
        "by "@ + creator + ", verified and published by "@ + verifier
    } else if creator != verifier && creator != publisher && publisher != verifier {
        "by "@ + creator + ", verified by "@ + verifier + ", published by "@ + publisher
    } else if creator == verifier && creator != publisher {
        "by "@ + creator + ", published by "@ + publisher
    } else if creator == publisher && creator != verifier {
        "by "@ + creator + ", verified by "@ + verifier
    } else {
        "If you're seeing this, file a bug report"@
    }
}

/// The short headline: only verifier and publisher, collapsed when they are
/// the same player.
pub open spec fn short_headline_text(publisher: DatabasePlayer, verifier: DatabasePlayer) -> Seq<char> {
    if same_player(publisher, verifier) {
        "verified and published by "@ + verifier.name@
    } else {
        "published by "@ + publisher.name@ + ", verified by "@ + verifier.name@
    }
}

impl Demon {
    /// A requirement is accepted exactly when it lies in `[0, 100]`.
    pub fn validate_requirement(requirement: i16) -> (r: Result<(), DemonlistError>)
        ensures
            r == (if requirement < 0 || requirement > 100 {
                Err::<(), DemonlistError>(DemonlistError::InvalidRequirement)
            } else {
                Ok::<(), DemonlistError>(())
            }),
    {
        if requirement < 0 || requirement > 100 {
            return Err(DemonlistError::InvalidRequirement);
        }
        Ok(())
    }

    /// A position is accepted exactly when it lies in `[1, maximal]`; the
    /// rejection carries the maximal acceptable value.
    pub fn validate_position(position: i16, maximal: i16) -> (r: Result<(), DemonlistError>)
        ensures
            r == (if position > maximal || position < 1 {
                Err::<(), DemonlistError>(DemonlistError::InvalidPosition { maximal })
            } else {
                Ok::<(), DemonlistError>(())
            }),
    {
        if position > maximal || position < 1 {
            return Err(DemonlistError::InvalidPosition { maximal });
        }
        Ok(())
    }
}

impl FullDemon {
    /// The demon's current position.
    pub fn position(&self) -> (r: i16)
        ensures
            r == self.demon.base.position,
    {
        self.demon.base.position
    }

    /// The demon's level name.
    pub fn name(&self) -> (r: &str)
        ensures
            r@ == self.demon.base.name@,
    {
        self.demon.base.name.as_str()
    }

    /// The full credit line for this demon.
    pub fn headline(&self) -> (r: String)
        ensures
            r@ == headline_text(
                creators_text(names_of(self.creators@)),
                self.demon.verifier.name@,
                self.demon.publisher.name@,
            ),
    {
        let creator = self.creators_credit();
        let verifier = &self.demon.verifier.name;
        let publisher = &self.demon.publisher.name;

        let mut r = "by ".to_owned();
        r.append(creator.as_str());
        if creator == *verifier && creator == *publisher {
            r
        } else if !(creator == *verifier) && *verifier == *publisher {
            r.append(", verified and published by ");
            r.append(verifier.as_str());
            r
        } else if !(creator == *verifier) && !(creator == *publisher) && !(*publisher == *verifier) {
            r.append(", verified by ");
            r.append(verifier.as_str());
            r.append(", published by ");
            r.append(publisher.as_str());
            r
        } else if creator == *verifier && !(creator == *publisher) {
            r.append(", published by ");
            r.append(publisher.as_str());
            r
        } else if creator == *publisher && !(creator == *verifier) {
            r.append(", verified by ");
            r.append(verifier.as_str());
            r
        } else {
            "If you're seeing this, file a bug report".to_owned()
        }
    }

    /// The credit given to this demon's creators.
    fn creators_credit(&self) -> (r: String)
        ensures
            r@ == creators_text(names_of(self.creators@)),
    {
        let ghost names = names_of(self.creators@);
        if self.creators.len() == 0 {
            "Unknown".to_owned()
        } else if self.creators.len() == 1 {
            self.creators[0].name.clone()
        } else {
            let mut acc = String::new();
            let mut k: usize = 1;
            while k < self.creators.len()
                invariant
                    1 <= k <= self.creators@.len(),
                    names == names_of(self.creators@),
                    names.len() == self.creators@.len(),
                    acc@ == comma_list(names.subrange(1, k as int)),
                decreases self.creators@.len() - k,
            {
                if k > 1 {
                    acc.append(", ");
                }
                acc.append(self.creators[k].name.as_str());
                proof {
                    let sub = names.subrange(1, k as int + 1);
                    assert(sub.drop_last() =~= names.subrange(1, k as int));
                    assert(sub.last() == names[k as int]);
                    assert(acc@ =~= comma_list(sub));
                }
                k += 1;
            }
            proof {
                assert(names.subrange(1, names.len() as int) =~= names.skip(1));
            }
            acc.append(" and ");
            acc.append(self.creators[0].name.as_str());
            proof {
                assert(acc@ =~= creators_text(names));
            }
            acc
        }
    }

    /// The short credit line: publisher and verifier only.
    pub fn short_headline(&self) -> (r: String)
        ensures
            r@ == short_headline_text(self.demon.publisher, self.demon.verifier),
    {
        let demon = &self.demon;
        if demon.publisher == demon.verifier {
            let mut r = "verified and published by ".to_owned();
            r.append(demon.verifier.name.as_str());
            r
        } else {
            let mut r = "published by ".to_owned();
            r.append(demon.publisher.name.as_str());
            r.append(", verified by ");
            r.append(demon.verifier.name.as_str());
            r
        }
    }
}

} // verus!
