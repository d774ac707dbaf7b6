//! The position ledger: the single mutable resource of the engine.
//!
//! Ranked demons are held in order, so that the demon at index `i` always has
//! position `i + 1`: the positions in use are exactly the dense sequence
//! `1..=max`. Demons removed from the ranked list keep their metadata in an
//! unordered set. Every position change is appended to an immutable log, from
//! which [`crate::history`] reconstructs the list at any past instant.

use crate::demon::{Demon, FullDemon, MinimalDemon, PostDemon};
use crate::error::DemonlistError;
use crate::player::DatabasePlayer;
use vstd::prelude::*;

verus! {

/// The largest number of ranked demons the ledger accepts; keeps every
/// position representable as an `i16`.
pub const MAX_LIST_LEN: usize = 32767;

/// One immutable entry of the position log: the demon, the position it held
/// after the change (`None` when it was removed from the ranked list), and
/// when the change happened.
#[derive(Debug, Clone, Copy, PartialEq, Eq)]
pub struct PositionModification {
    pub demon_id: i32,
    pub position: Option<i16>,
    pub timestamp: i64,
}

/// The last log entry concerning `id`, ignoring timestamps.
pub open spec fn latest_event(log: Seq<PositionModification>, id: i32) -> Option<PositionModification>
    decreases log.len(),
{
    if log.len() == 0 {
        None
    } else if log.last().demon_id == id {
        Some(log.last())
    } else {
        latest_event(log.drop_last(), id)
    }
}

/// The last log entry concerning `id` with a timestamp at or before `t`.
pub open spec fn latest_event_at(log: Seq<PositionModification>, id: i32, t: i64) -> Option<
    PositionModification,
>
    decreases log.len(),
{
    if log.len() == 0 {
        None
    } else if log.last().demon_id == id && log.last().timestamp <= t {
        Some(log.last())
    } else {
        latest_event_at(log.drop_last(), id, t)
    }
}

/// The position the log records for `id`, ignoring timestamps: `None` when the
/// log never mentions the demon, otherwise the position of its last entry.
pub open spec fn latest_position(log: Seq<PositionModification>, id: i32) -> Option<Option<i16>> {
    match latest_event(log, id) {
        Option::None => Option::None,
        Option::Some(e) => Option::Some(e.position),
    }
}

/// The position `id` held at instant `t`: `None` when the demon had not been
/// put on the list yet, `Some(None)` when it had been removed by then.
pub open spec fn position_at(log: Seq<PositionModification>, id: i32, t: i64) -> Option<Option<i16>> {
    match latest_event_at(log, id, t) {
        Option::None => Option::None,
        Option::Some(e) => Option::Some(e.position),
    }
}

/// Appending one entry rewrites the latest event for its demon and no other.
pub proof fn lemma_latest_event_push(log: Seq<PositionModification>, e: PositionModification, id: i32)
    ensures
        latest_event(log.push(e), id) == (if e.demon_id == id {
            Some(e)
        } else {
            latest_event(log, id)
        }),
{
    assert(log.push(e).drop_last() =~= log);
}

/// Appending entries that never mention `id` leaves its latest event alone.
pub proof fn lemma_latest_event_append_other(
    log: Seq<PositionModification>,
    ext: Seq<PositionModification>,
    id: i32,
)
    requires
        forall|k: int| 0 <= k < ext.len() ==> (#[trigger] ext[k]).demon_id != id,
    ensures
        latest_event(log + ext, id) == latest_event(log, id),
    decreases ext.len(),
{
    if ext.len() == 0 {
        assert(log + ext =~= log);
    } else {
        assert(log + ext =~= (log + ext.drop_last()).push(ext.last()));
        lemma_latest_event_push(log + ext.drop_last(), ext.last(), id);
        lemma_latest_event_append_other(log, ext.drop_last(), id);
    }
}

/// After appending entries, the latest event for `id` is the last appended
/// entry that mentions it.
pub proof fn lemma_latest_event_append_found(
    log: Seq<PositionModification>,
    ext: Seq<PositionModification>,
    id: i32,
    k: int,
)
    requires
        0 <= k < ext.len(),
        ext[k].demon_id == id,
        forall|m: int| k < m < ext.len() ==> (#[trigger] ext[m]).demon_id != id,
    ensures
        latest_event(log + ext, id) == Some(ext[k]),
    decreases ext.len(),
{
    assert(log + ext =~= (log + ext.drop_last()).push(ext.last()));
    lemma_latest_event_push(log + ext.drop_last(), ext.last(), id);
    if k < ext.len() - 1 {
        lemma_latest_event_append_found(log, ext.drop_last(), id, k);
    }
}

/// When every entry is stamped at or before `t`, the timestamp filter is
/// vacuous.
pub proof fn lemma_latest_event_at_total(log: Seq<PositionModification>, id: i32, t: i64)
    requires
        forall|k: int| 0 <= k < log.len() ==> (#[trigger] log[k]).timestamp <= t,
    ensures
        latest_event_at(log, id, t) == latest_event(log, id),
    decreases log.len(),
{
    if log.len() > 0 {
        assert(log.last() == log[log.len() - 1]);
        assert(forall|k: int|
            0 <= k < log.drop_last().len() ==> (#[trigger] log.drop_last()[k]).timestamp <= t);
        lemma_latest_event_at_total(log.drop_last(), id, t);
    }
}

/// `d`, with its stored position replaced by `p`.
pub open spec fn with_position(d: Demon, p: i16) -> Demon {
    Demon {
        base: MinimalDemon { id: d.base.id, position: p, name: d.base.name },
        requirement: d.requirement,
        video: d.video,
        publisher: d.publisher,
        verifier: d.verifier,
        level_id: d.level_id,
    }
}

/// Whether some demon in `s` carries this id.
pub open spec fn contains_id(s: Seq<Demon>, id: i32) -> bool {
    exists|i: int| 0 <= i < s.len() && (#[trigger] s[i]).base.id == id
}

/// The index of the demon with this id (meaningful only when `contains_id`
/// holds and ids are unique).
pub open spec fn demon_index(s: Seq<Demon>, id: i32) -> int {
    choose|i: int| 0 <= i < s.len() && (#[trigger] s[i]).base.id == id
}

/// The ranked sequence after inserting `d` at position `p`: every demon from
/// position `p` on is shifted one position down the list.
pub open spec fn inserted_ranked(s: Seq<Demon>, p: int, d: Demon) -> Seq<Demon> {
    Seq::new(
        (s.len() + 1) as nat,
        |j: int|
            if j < p - 1 {
                s[j]
            } else if j == p - 1 {
                d
            } else {
                with_position(s[j - 1], (j + 1) as i16)
            },
    )
}

/// The log entries recording the shift an insert at position `p` performs, in
/// list order.
pub open spec fn insert_shift_events(s: Seq<Demon>, p: int, ts: i64) -> Seq<PositionModification> {
    Seq::new(
        (s.len() - (p - 1)) as nat,
        |k: int|
            PositionModification {
                demon_id: s[p - 1 + k].base.id,
                position: Some((p + k + 1) as i16),
                timestamp: ts,
            },
    )
}

/// The ranked sequence after moving the demon at index `from` to index `to`:
/// the demons between the two places slide one step toward `from`.
pub open spec fn moved_ranked(s: Seq<Demon>, from: int, to: int) -> Seq<Demon> {
    Seq::new(
        s.len(),
        |j: int|
            if j == to {
                with_position(s[from], (to + 1) as i16)
            } else if to < from && to <= j <= from {
                with_position(s[j - 1], (j + 1) as i16)
            } else if from < to && from <= j <= to {
                with_position(s[j + 1], (j + 1) as i16)
            } else {
                s[j]
            },
    )
}

/// The log entries recording the shift a move from index `from` to index `to`
/// performs, in list order.
pub open spec fn move_shift_events(s: Seq<Demon>, from: int, to: int, ts: i64) -> Seq<
    PositionModification,
> {
    if to < from {
        Seq::new(
            (from - to) as nat,
            |k: int|
                PositionModification {
                    demon_id: s[to + k].base.id,
                    position: Some((to + k + 2) as i16),
                    timestamp: ts,
                },
        )
    } else {
        Seq::new(
            (to - from) as nat,
            |k: int|
                PositionModification {
                    demon_id: s[from + 1 + k].base.id,
                    position: Some((from + 1 + k) as i16),
                    timestamp: ts,
                },
        )
    }
}

/// The ranked sequence after removing the demon at index `from`: everything
/// after it moves one position up the list.
pub open spec fn removed_ranked(s: Seq<Demon>, from: int) -> Seq<Demon> {
    Seq::new(
        (s.len() - 1) as nat,
        |j: int|
            if j < from {
                s[j]
            } else {
                with_position(s[j + 1], (j + 1) as i16)
            },
    )
}

/// The log entries recording the shift a removal at index `from` performs, in
/// list order.
pub open spec fn remove_shift_events(s: Seq<Demon>, from: int, ts: i64) -> Seq<
    PositionModification,
> {
    Seq::new(
        (s.len() - 1 - from) as nat,
        |k: int|
            PositionModification {
                demon_id: s[from + 1 + k].base.id,
                position: Some((from + 1 + k) as i16),
                timestamp: ts,
            },
    )
}

/// The demon an accepted submission creates, under the id the ledger assigns.
pub open spec fn demon_from_post(data: PostDemon, id: i32) -> Demon {
    Demon {
        base: MinimalDemon { id, position: data.position, name: data.name },
        requirement: data.requirement,
        video: data.video,
        publisher: data.publisher,
        verifier: data.verifier,
        level_id: None,
    }
}

/// The position the demon carrying `id` holds on the live list, or `None`
/// when it is not ranked (meaningful when ids are unique).
pub open spec fn live_position(l: &PositionLedger, id: i32) -> Option<i16> {
    if contains_id(l.ranked_demons(), id) {
        Some((demon_index(l.ranked_demons(), id) + 1) as i16)
    } else {
        None
    }
}

/// The ledger of ranked demons, the set of demons removed from the list, and
/// the append-only log of every position change.
pub struct PositionLedger {
    ranked: Vec<Demon>,
    unranked: Vec<Demon>,
    log: Vec<PositionModification>,
    next_id: i32,
}

impl PositionLedger {
    /// The ranked demons, in position order.
    pub closed spec fn ranked_demons(&self) -> Seq<Demon> {
        self.ranked@
    }

    /// The demons that were removed from the ranked list (null position).
    pub closed spec fn unranked_demons(&self) -> Seq<Demon> {
        self.unranked@
    }

    /// Every log entry, oldest first.
    pub closed spec fn log_entries(&self) -> Seq<PositionModification> {
        self.log@
    }

    /// The id the next inserted demon will receive.
    pub closed spec fn spec_next_id(&self) -> i32 {
        self.next_id
    }

    /// Every demon the ledger has ever accepted: ranked, then unranked.
    pub open spec fn all_demons(&self) -> Seq<Demon> {
        self.ranked_demons() + self.unranked_demons()
    }

    /// What `max_position` reports: the highest position in use, or 1 for an
    /// empty ledger (the first insert then validates against upper bound 1).
    pub open spec fn spec_max_position(&self) -> i16 {
        if self.ranked_demons().len() == 0 {
            1
        } else {
            self.ranked_demons().len() as i16
        }
    }

    /// The well-formedness every operation preserves:
    /// the ranked positions are exactly `1..=len` in order, ids are unique and
    /// below `next_id`, and the log's last word on every demon agrees with the
    /// ledger (ranked demons' positions, removal for unranked demons).
    pub open spec fn wf(&self) -> bool {
        &&& 0 < self.spec_next_id()
        &&& self.ranked_demons().len() <= MAX_LIST_LEN
        &&& forall|i: int|
            0 <= i < self.ranked_demons().len() ==> (#[trigger] self.ranked_demons()[i]).base.position
                == i + 1
        &&& forall|i: int, j: int|
            0 <= i < j < self.all_demons().len() ==> (#[trigger] self.all_demons()[i]).base.id != (
            #[trigger] self.all_demons()[j]).base.id
        &&& forall|i: int|
            0 <= i < self.all_demons().len() ==> 0 < (#[trigger] self.all_demons()[i]).base.id
                < self.spec_next_id()
        &&& forall|i: int|
            0 <= i < self.ranked_demons().len() ==> latest_position(
                self.log_entries(),
                (#[trigger] self.ranked_demons()[i]).base.id,
            ) == Some(Some(self.ranked_demons()[i].base.position))
        &&& forall|i: int|
            0 <= i < self.unranked_demons().len() ==> latest_position(
                self.log_entries(),
                (#[trigger] self.unranked_demons()[i]).base.id,
            ) == Some(Option::<i16>::None)
    }

    /// A fresh, empty ledger.
    pub fn new() -> (r: PositionLedger)
        ensures
            r.wf(),
            r.ranked_demons() == Seq::<Demon>::empty(),
            r.unranked_demons() == Seq::<Demon>::empty(),
            r.log_entries() == Seq::<PositionModification>::empty(),
            r.spec_next_id() == 1,
    {
        PositionLedger { ranked: Vec::new(), unranked: Vec::new(), log: Vec::new(), next_id: 1 }
    }

    /// The highest position currently assigned; 1 when the ledger is empty.
    pub fn max_position(&self) -> (r: i16)
        requires
            self.wf(),
        ensures
            r == self.spec_max_position(),
    {
        if self.ranked.len() == 0 {
            1
        } else {
            self.ranked.len() as i16
        }
    }

    /// The ranked demons in position order, for a live read of the list.
    pub fn demons(&self) -> (r: &Vec<Demon>)
        ensures
            r@ == self.ranked_demons(),
    {
        &self.ranked
    }

    /// The demons that have been removed from the ranked list.
    pub fn removed_demons(&self) -> (r: &Vec<Demon>)
        ensures
            r@ == self.unranked_demons(),
    {
        &self.unranked
    }

    /// The full modification log, oldest entry first.
    pub fn log(&self) -> (r: &Vec<PositionModification>)
        ensures
            r@ == self.log_entries(),
    {
        &self.log
    }

    /// The index of the ranked demon carrying `demon_id`, if any.
    pub(crate) fn index_of(&self, demon_id: i32) -> (r: Option<usize>)
        ensures
            match r {
                Some(i) => i < self.ranked_demons().len() && self.ranked_demons()[i as int].base.id
                    == demon_id,
                None => !contains_id(self.ranked_demons(), demon_id),
            },
    {
        let mut i: usize = 0;
        while i < self.ranked.len()
            invariant
                i <= self.ranked@.len(),
                forall|m: int| 0 <= m < i ==> (#[trigger] self.ranked@[m]).base.id != demon_id,
            decreases self.ranked@.len() - i,
        {
            if self.ranked[i].base.id == demon_id {
                return Some(i);
            }
            i += 1;
        }
        None
    }

    /// The id the next inserted demon will receive; callers use it to see
    /// that the id space is not exhausted before inserting.
    pub fn next_demon_id(&self) -> (r: i32)
        ensures
            r == self.spec_next_id(),
    {
        self.next_id
    }

    /// The position the demon carrying `demon_id` holds on the live list, or
    /// `None` when it is not ranked.
    pub fn current_position_of(&self, demon_id: i32) -> (r: Option<i16>)
        requires
            self.wf(),
        ensures
            r == live_position(self, demon_id),
    {
        match self.index_of(demon_id) {
            Some(i) => {
                proof {
                    let s0 = self.ranked_demons();
                    let ci = demon_index(s0, demon_id);
                    assert(contains_id(s0, demon_id));
                    assert(0 <= ci < s0.len() && s0[ci].base.id == demon_id);
                    if ci != i as int {
                        assert(self.all_demons()[ci] == s0[ci]);
                        assert(self.all_demons()[i as int] == s0[i as int]);
                        assert(false);
                    }
                }
                Some((i + 1) as i16)
            },
            None => None,
        }
    }

    /// Overwrites the stored position of the ranked demon at index `j` with
    /// `p` and logs the change.
    fn set_position(&mut self, j: usize, p: i16, timestamp: i64)
        requires
            j < old(self).ranked_demons().len(),
        ensures
            final(self).ranked_demons() == old(self).ranked_demons().update(
                j as int,
                with_position(old(self).ranked_demons()[j as int], p),
            ),
            final(self).log_entries() == old(self).log_entries().push(
                PositionModification {
                    demon_id: old(self).ranked_demons()[j as int].base.id,
                    position: Some(p),
                    timestamp,
                },
            ),
            final(self).unranked_demons() == old(self).unranked_demons(),
            final(self).spec_next_id() == old(self).spec_next_id(),
    {
        let mut d = self.ranked.remove(j);
        let id = d.base.id;
        d.base.position = p;
        self.ranked.insert(j, d);
        self.log.push(PositionModification { demon_id: id, position: Some(p), timestamp });
        proof {
            assert(self.ranked@ =~= old(self).ranked@.update(
                j as int,
                with_position(old(self).ranked@[j as int], p),
            ));
        }
    }

    /// Puts a new demon at `data.position`, shifting everything at or after
    /// that position one down the list, and logs one entry per shifted demon
    /// plus one addition entry for the new demon, all in the same instant.
    ///
    /// Accepted exactly when the requirement lies in `[0, 100]` and the
    /// position in `[1, max + 1]`; a rejection reports why and changes
    /// nothing.
    pub fn insert(&mut self, data: PostDemon, timestamp: i64) -> (r: Result<
        FullDemon,
        DemonlistError,
    >)
        requires
            old(self).wf(),
            old(self).ranked_demons().len() < MAX_LIST_LEN,
            old(self).spec_next_id() < i32::MAX,
        ensures
            final(self).wf(),
            final(self).unranked_demons() == old(self).unranked_demons(),
            (data.requirement < 0 || data.requirement > 100) ==> {
                &&& r == Err::<FullDemon, DemonlistError>(DemonlistError::InvalidRequirement)
                &&& *final(self) == *old(self)
            },
            (0 <= data.requirement <= 100 && !(1 <= data.position <= old(self).ranked_demons().len()
                + 1)) ==> {
                &&& r == Err::<FullDemon, DemonlistError>(
                    DemonlistError::InvalidPosition {
                        maximal: (old(self).ranked_demons().len() + 1) as i16,
                    },
                )
                &&& *final(self) == *old(self)
            },
            (0 <= data.requirement <= 100 && 1 <= data.position <= old(self).ranked_demons().len()
                + 1) ==> {
                &&& r is Ok
                &&& r->Ok_0.demon == demon_from_post(data, old(self).spec_next_id())
                &&& r->Ok_0.creators == data.creators
                &&& r->Ok_0.records@ == Seq::<crate::record::MinimalRecordP>::empty()
                &&& final(self).ranked_demons() == inserted_ranked(
                    old(self).ranked_demons(),
                    data.position as int,
                    demon_from_post(data, old(self).spec_next_id()),
                )
                &&& final(self).log_entries() == old(self).log_entries() + insert_shift_events(
                    old(self).ranked_demons(),
                    data.position as int,
                    timestamp,
                ) + seq![
                    PositionModification {
                        demon_id: old(self).spec_next_id(),
                        position: Some(data.position),
                        timestamp,
                    },
                ]
                &&& final(self).spec_next_id() == old(self).spec_next_id() + 1
            },
    {
        if let Err(e) = Demon::validate_requirement(data.requirement) {
            return Err(e);
        }
        let maximal = (self.ranked.len() + 1) as i16;
        if let Err(e) = Demon::validate_position(data.position, maximal) {
            return Err(e);
        }
        let target_idx = (data.position - 1) as usize;
        let ghost s0 = self.ranked@;
        let ghost log0 = self.log@;
        let ghost p = data.position as int;
        let ghost ev = insert_shift_events(s0, p, timestamp);

        // Shift every demon at or after the target position one down the list.
        let mut j: usize = target_idx;
        while j < self.ranked.len()
            invariant
                target_idx <= j <= s0.len(),
                target_idx == p - 1,
                s0.len() < MAX_LIST_LEN,
                self.ranked@.len() == s0.len(),
                forall|m: int| 0 <= m < target_idx ==> self.ranked@[m] == s0[m],
                forall|m: int|
                    target_idx <= m < j ==> self.ranked@[m] == with_position(
                        s0[m],
                        (m + 2) as i16,
                    ),
                forall|m: int| j <= m < s0.len() ==> self.ranked@[m] == s0[m],
                ev == insert_shift_events(s0, p, timestamp),
                self.log@ == log0 + ev.take(j - target_idx),
                self.unranked@ == old(self).unranked@,
                self.next_id == old(self).next_id,
            decreases s0.len() - j,
        {
            let ghost done = j - target_idx;
            self.set_position(j, (j + 2) as i16, timestamp);
            proof {
                assert(ev.take(done + 1) =~= ev.take(done).push(ev[done]));
                assert(self.log@ =~= log0 + ev.take(done + 1));
            }
            j += 1;
        }

        let id = self.next_id;
        self.next_id = self.next_id + 1;
        let name_copy = data.name.clone();
        let video_copy: Option<String> = match &data.video {
            Some(v) => Some(v.clone()),
            None => None,
        };
        let publisher_copy = DatabasePlayer {
            id: data.publisher.id,
            name: data.publisher.name.clone(),
            banned: data.publisher.banned,
        };
        let verifier_copy = DatabasePlayer {
            id: data.verifier.id,
            name: data.verifier.name.clone(),
            banned: data.verifier.banned,
        };
        let demon_stored = Demon {
            base: MinimalDemon { id, position: data.position, name: name_copy },
            requirement: data.requirement,
            video: video_copy,
            publisher: publisher_copy,
            verifier: verifier_copy,
            level_id: None,
        };
        proof {
            assert(demon_stored == demon_from_post(data, old(self).spec_next_id()));
        }
        self.ranked.insert(target_idx, demon_stored);
        self.log.push(
            PositionModification { demon_id: id, position: Some(data.position), timestamp },
        );

        proof {
            let nd = demon_from_post(data, old(self).spec_next_id());
            let addition = PositionModification {
                demon_id: old(self).spec_next_id(),
                position: Some(data.position),
                timestamp,
            };
            assert(ev.take(s0.len() - (p - 1)) =~= ev);
            assert(self.ranked@ =~= inserted_ranked(s0, p, nd));
            assert(self.log@ =~= log0 + ev + seq![addition]);
            self.lemma_insert_restores_wf(*old(self), data, timestamp);
        }

        Ok(
            FullDemon {
                demon: Demon {
                    base: MinimalDemon { id, position: data.position, name: data.name },
                    requirement: data.requirement,
                    video: data.video,
                    publisher: data.publisher,
                    verifier: data.verifier,
                    level_id: None,
                },
                creators: data.creators,
                records: Vec::new(),
            },
        )
    }

    /// The well-formedness argument for `insert`: the shifted rows keep dense
    /// positions, ids stay unique, and the appended log entries are the last
    /// word on exactly the demons they mention.
    proof fn lemma_insert_restores_wf(&self, pre: PositionLedger, data: PostDemon, timestamp: i64)
        requires
            pre.wf(),
            pre.ranked_demons().len() < MAX_LIST_LEN,
            pre.spec_next_id() < i32::MAX,
            1 <= data.position <= pre.ranked_demons().len() + 1,
            self.ranked_demons() == inserted_ranked(
                pre.ranked_demons(),
                data.position as int,
                demon_from_post(data, pre.spec_next_id()),
            ),
            self.log_entries() == pre.log_entries() + insert_shift_events(
                pre.ranked_demons(),
                data.position as int,
                timestamp,
            ) + seq![
                PositionModification {
                    demon_id: pre.spec_next_id(),
                    position: Some(data.position),
                    timestamp,
                },
            ],
            self.unranked_demons() == pre.unranked_demons(),
            self.spec_next_id() == pre.spec_next_id() + 1,
        ensures
            self.wf(),
    {
        let s0 = pre.ranked_demons();
        let p = data.position as int;
        let nd = demon_from_post(data, pre.spec_next_id());
        let ev = insert_shift_events(s0, p, timestamp);
        let addition = PositionModification {
            demon_id: pre.spec_next_id(),
            position: Some(data.position),
            timestamp,
        };
        let ext = ev + seq![addition];
        let s1 = self.ranked_demons();

        assert(self.log_entries() =~= pre.log_entries() + ext);

        // Dense positions in the new ranked order.
        assert forall|i: int| 0 <= i < s1.len() implies (#[trigger] s1[i]).base.position == i
            + 1 by {
            if i < p - 1 {
                assert(s0[i].base.position == i + 1);
            }
        }

        // Every id in the new ledger, with the demon that carries it.
        assert forall|i: int| 0 <= i < self.all_demons().len() implies 0 < (
        #[trigger] self.all_demons()[i]).base.id < self.spec_next_id() by {
            if i < s1.len() {
                if i < p - 1 {
                    assert(self.all_demons()[i] == s0[i]);
                    assert(pre.all_demons()[i] == s0[i]);
                } else if i == p - 1 {
                } else {
                    assert(self.all_demons()[i] == with_position(s0[i - 1], (i + 1) as i16));
                    assert(pre.all_demons()[i - 1] == s0[i - 1]);
                }
            } else {
                assert(self.all_demons()[i] == self.unranked_demons()[i - s1.len()]);
                assert(pre.all_demons()[i - 1] == pre.unranked_demons()[i - s1.len()]);
            }
        }

        // The id of the demon standing at index `i` of the old ledger's
        // all-demons view, seen from the new one.
        assert forall|i: int, j: int|
            0 <= i < j < self.all_demons().len() implies (#[trigger] self.all_demons()[i]).base.id
            != (#[trigger] self.all_demons()[j]).base.id by {
            let a = self.all_demons();
            let pa = pre.all_demons();
            let old_index = |m: int|
                if m < p - 1 {
                    m
                } else {
                    m - 1
                };
            if i != p - 1 && j != p - 1 {
                let oi = old_index(i);
                let oj = old_index(j);
                assert(a[i].base.id == pa[oi].base.id);
                assert(a[j].base.id == pa[oj].base.id);
                assert(oi < oj);
                assert(pa[oi].base.id != pa[oj].base.id);
            } else if i == p - 1 {
                let oj = old_index(j);
                assert(a[j].base.id == pa[oj].base.id);
                assert(0 < pa[oj].base.id < pre.spec_next_id());
            } else {
                let oi = old_index(i);
                assert(a[i].base.id == pa[oi].base.id);
                assert(0 < pa[oi].base.id < pre.spec_next_id());
            }
        }

        // The appended entries are the last word on the demons they mention.
        assert forall|i: int| 0 <= i < s1.len() implies latest_position(
            self.log_entries(),
            (#[trigger] s1[i]).base.id,
        ) == Some(Some(s1[i].base.position)) by {
            let pa = pre.all_demons();
            if i < p - 1 {
                assert(pa[i] == s0[i]);
                assert forall|k: int| 0 <= k < ext.len() implies (#[trigger] ext[k]).demon_id
                    != s1[i].base.id by {
                    if k < ev.len() {
                        assert(ext[k] == ev[k]);
                        assert(pa[p - 1 + k] == s0[p - 1 + k]);
                        assert(pa[i].base.id != pa[p - 1 + k].base.id);
                    } else {
                        assert(ext[k] == addition);
                        assert(0 < pa[i].base.id < pre.spec_next_id());
                    }
                }
                lemma_latest_event_append_other(pre.log_entries(), ext, s1[i].base.id);
            } else if i == p - 1 {
                lemma_latest_event_append_found(
                    pre.log_entries(),
                    ext,
                    s1[i].base.id,
                    ext.len() - 1,
                );
            } else {
                let k = i - p;
                assert(ext[k] == ev[k]);
                assert(ev[k].demon_id == s0[p - 1 + k].base.id);
                assert(s1[i] == with_position(s0[i - 1], (i + 1) as i16));
                assert forall|m: int| k < m < ext.len() implies (#[trigger] ext[m]).demon_id
                    != s1[i].base.id by {
                    let pa = pre.all_demons();
                    assert(pa[i - 1] == s0[i - 1]);
                    if m < ev.len() {
                        assert(ext[m] == ev[m]);
                        assert(pa[p - 1 + m] == s0[p - 1 + m]);
                        assert(pa[i - 1].base.id != pa[p - 1 + m].base.id);
                    } else {
                        assert(ext[m] == addition);
                        assert(0 < pa[i - 1].base.id < pre.spec_next_id());
                    }
                }
                lemma_latest_event_append_found(pre.log_entries(), ext, s1[i].base.id, k);
            }
        }

        assert forall|i: int| 0 <= i < self.unranked_demons().len() implies latest_position(
            self.log_entries(),
            (#[trigger] self.unranked_demons()[i]).base.id,
        ) == Some(Option::<i16>::None) by {
            let pa = pre.all_demons();
            let u = self.unranked_demons();
            assert(pa[s0.len() + i] == u[i]);
            assert forall|k: int| 0 <= k < ext.len() implies (#[trigger] ext[k]).demon_id
                != u[i].base.id by {
                if k < ev.len() {
                    assert(ext[k] == ev[k]);
                    assert(pa[p - 1 + k] == s0[p - 1 + k]);
                    assert(pa[s0.len() + i].base.id != pa[p - 1 + k].base.id);
                } else {
                    assert(ext[k] == addition);
                    assert(0 < pa[s0.len() + i].base.id < pre.spec_next_id());
                }
            }
            lemma_latest_event_append_other(pre.log_entries(), ext, u[i].base.id);
        }
    }

    /// Moves the demon carrying `demon_id` to `new_position`. Every demon
    /// between its old and new place slides one step toward the old place and
    /// is logged; the moved demon itself is logged last. Moving a demon onto
    /// its current position changes nothing at all, the log included.
    ///
    /// Accepted exactly when the demon is on the ranked list and the position
    /// lies in `[1, max]`.
    pub fn move_demon(&mut self, demon_id: i32, new_position: i16, timestamp: i64) -> (r: Result<
        (),
        DemonlistError,
    >)
        requires
            old(self).wf(),
        ensures
            final(self).wf(),
            final(self).unranked_demons() == old(self).unranked_demons(),
            final(self).spec_next_id() == old(self).spec_next_id(),
            !contains_id(old(self).ranked_demons(), demon_id) ==> {
                &&& r == Err::<(), DemonlistError>(DemonlistError::DemonNotFound { demon_id })
                &&& *final(self) == *old(self)
            },
            contains_id(old(self).ranked_demons(), demon_id) && !(1 <= new_position <= old(
                self,
            ).ranked_demons().len()) ==> {
                &&& r == Err::<(), DemonlistError>(
                    DemonlistError::InvalidPosition { maximal: old(self).spec_max_position() },
                )
                &&& *final(self) == *old(self)
            },
            contains_id(old(self).ranked_demons(), demon_id) && 1 <= new_position <= old(
                self,
            ).ranked_demons().len() && new_position == demon_index(
                old(self).ranked_demons(),
                demon_id,
            ) + 1 ==> {
                &&& r == Ok::<(), DemonlistError>(())
                &&& *final(self) == *old(self)
            },
            contains_id(old(self).ranked_demons(), demon_id) && 1 <= new_position <= old(
                self,
            ).ranked_demons().len() && new_position != demon_index(
                old(self).ranked_demons(),
                demon_id,
            ) + 1 ==> {
                let s0 = old(self).ranked_demons();
                let from = demon_index(s0, demon_id);
                let to = new_position - 1;
                &&& r == Ok::<(), DemonlistError>(())
                &&& final(self).ranked_demons() == moved_ranked(s0, from, to as int)
                &&& final(self).log_entries() == old(self).log_entries() + move_shift_events(
                    s0,
                    from,
                    to as int,
                    timestamp,
                ) + seq![
                    PositionModification { demon_id, position: Some(new_position), timestamp },
                ]
            },
    {
        let from_idx = match self.index_of(demon_id) {
            Some(i) => i,
            None => {
                return Err(DemonlistError::DemonNotFound { demon_id });
            },
        };
        proof {
            let s0 = self.ranked@;
            let ci = demon_index(s0, demon_id);
            assert(contains_id(s0, demon_id));
            assert(0 <= ci < s0.len() && s0[ci].base.id == demon_id);
            if ci != from_idx as int {
                assert(self.all_demons()[ci] == s0[ci]);
                assert(self.all_demons()[from_idx as int] == s0[from_idx as int]);
                assert(false);
            }
        }
        let len = self.ranked.len();
        if new_position < 1 || new_position as usize > len {
            return Err(DemonlistError::InvalidPosition { maximal: len as i16 });
        }
        let to_idx = (new_position - 1) as usize;
        if to_idx == from_idx {
            return Ok(());
        }

        let ghost s0 = self.ranked@;
        let ghost log0 = self.log@;
        let ghost ev = move_shift_events(s0, from_idx as int, to_idx as int, timestamp);

        let mut d = self.ranked.remove(from_idx);
        d.base.position = new_position;
        self.ranked.insert(to_idx, d);

        if to_idx < from_idx {
            let mut j: usize = to_idx + 1;
            while j <= from_idx
                invariant
                    to_idx + 1 <= j <= from_idx + 1,
                    from_idx < s0.len() <= MAX_LIST_LEN,
                    self.ranked@.len() == s0.len(),
                    self.ranked@[to_idx as int] == with_position(
                        s0[from_idx as int],
                        (to_idx + 1) as i16,
                    ),
                    forall|m: int|
                        to_idx < m < j ==> self.ranked@[m] == with_position(
                            s0[m - 1],
                            (m + 1) as i16,
                        ),
                    forall|m: int| j <= m <= from_idx ==> self.ranked@[m] == s0[m - 1],
                    forall|m: int|
                        0 <= m < self.ranked@.len() && (m < to_idx || m > from_idx)
                            ==> self.ranked@[m] == s0[m],
                    ev == move_shift_events(s0, from_idx as int, to_idx as int, timestamp),
                    self.log@ == log0 + ev.take(j - (to_idx + 1)),
                    self.unranked@ == old(self).unranked@,
                    self.next_id == old(self).next_id,
                decreases from_idx + 1 - j,
            {
                let ghost done = j - (to_idx + 1);
                self.set_position(j, (j + 1) as i16, timestamp);
                proof {
                    assert(ev.take(done + 1) =~= ev.take(done).push(ev[done]));
                }
                j += 1;
            }
        } else {
            let mut j: usize = from_idx;
            while j < to_idx
                invariant
                    from_idx <= j <= to_idx,
                    to_idx < s0.len() <= MAX_LIST_LEN,
                    self.ranked@.len() == s0.len(),
                    self.ranked@[to_idx as int] == with_position(
                        s0[from_idx as int],
                        (to_idx + 1) as i16,
                    ),
                    forall|m: int|
                        from_idx <= m < j ==> self.ranked@[m] == with_position(
                            s0[m + 1],
                            (m + 1) as i16,
                        ),
                    forall|m: int| j <= m < to_idx ==> self.ranked@[m] == s0[m + 1],
                    forall|m: int|
                        0 <= m < self.ranked@.len() && (m < from_idx || m > to_idx)
                            ==> self.ranked@[m] == s0[m],
                    ev == move_shift_events(s0, from_idx as int, to_idx as int, timestamp),
                    self.log@ == log0 + ev.take(j - from_idx),
                    self.unranked@ == old(self).unranked@,
                    self.next_id == old(self).next_id,
                decreases to_idx - j,
            {
                let ghost done = j - from_idx;
                self.set_position(j, (j + 1) as i16, timestamp);
                proof {
                    assert(ev.take(done + 1) =~= ev.take(done).push(ev[done]));
                }
                j += 1;
            }
        }
        self.log.push(PositionModification { demon_id, position: Some(new_position), timestamp });

        proof {
            assert(ev.take(ev.len() as int) =~= ev);
            assert(self.ranked@ =~= moved_ranked(s0, from_idx as int, to_idx as int));
            assert(self.log@ =~= log0 + ev + seq![
                PositionModification { demon_id, position: Some(new_position), timestamp },
            ]);
            self.lemma_move_restores_wf(*old(self), demon_id, new_position, timestamp);
        }
        Ok(())
    }

    /// The well-formedness argument for `move_demon`.
    proof fn lemma_move_restores_wf(
        &self,
        pre: PositionLedger,
        demon_id: i32,
        new_position: i16,
        timestamp: i64,
    )
        requires
            pre.wf(),
            contains_id(pre.ranked_demons(), demon_id),
            1 <= new_position <= pre.ranked_demons().len(),
            new_position != demon_index(pre.ranked_demons(), demon_id) + 1,
            self.ranked_demons() == moved_ranked(
                pre.ranked_demons(),
                demon_index(pre.ranked_demons(), demon_id),
                new_position - 1,
            ),
            self.log_entries() == pre.log_entries() + move_shift_events(
                pre.ranked_demons(),
                demon_index(pre.ranked_demons(), demon_id),
                new_position - 1,
                timestamp,
            ) + seq![PositionModification { demon_id, position: Some(new_position), timestamp }],
            self.unranked_demons() == pre.unranked_demons(),
            self.spec_next_id() == pre.spec_next_id(),
        ensures
            self.wf(),
    {
        let s0 = pre.ranked_demons();
        let from = demon_index(s0, demon_id);
        let to = new_position - 1;
        let ev = move_shift_events(s0, from, to as int, timestamp);
        let moved = PositionModification { demon_id, position: Some(new_position), timestamp };
        let ext = ev + seq![moved];
        let s1 = self.ranked_demons();
        let old_index = |j: int|
            if j == to {
                from
            } else if to < from && to <= j <= from {
                j - 1
            } else if from < to && from <= j <= to {
                j + 1
            } else {
                j
            };

        assert(0 <= from < s0.len() && s0[from].base.id == demon_id);
        assert(self.log_entries() =~= pre.log_entries() + ext);

        // Each new index holds the old demon at `old_index`, repositioned.
        assert forall|j: int| 0 <= j < s1.len() implies (#[trigger] s1[j]).base.id
            == s0[old_index(j)].base.id && s1[j].base.position == j + 1 by {
            if j == to {
            } else if to < from && to <= j <= from {
            } else if from < to && from <= j <= to {
            } else {
                assert(s0[j].base.position == j + 1);
            }
        }

        // `old_index` is injective, so ids stay unique.
        assert forall|i: int, j: int|
            0 <= i < j < self.all_demons().len() implies (#[trigger] self.all_demons()[i]).base.id
            != (#[trigger] self.all_demons()[j]).base.id by {
            let a = self.all_demons();
            let pa = pre.all_demons();
            if i < s1.len() && j < s1.len() {
                let oi = old_index(i);
                let oj = old_index(j);
                assert(a[i].base.id == s0[oi].base.id && a[j].base.id == s0[oj].base.id);
                assert(pa[oi] == s0[oi] && pa[oj] == s0[oj]);
                assert(oi != oj);
            } else if i < s1.len() {
                let oi = old_index(i);
                assert(a[i].base.id == s0[oi].base.id);
                assert(pa[oi] == s0[oi]);
                assert(a[j] == pre.unranked_demons()[j - s1.len()]);
                assert(pa[s0.len() + j - s1.len()] == a[j]);
            } else {
                assert(a[i] == pa[s0.len() + i - s1.len()]);
                assert(a[j] == pa[s0.len() + j - s1.len()]);
            }
        }

        assert forall|i: int| 0 <= i < self.all_demons().len() implies 0 < (
        #[trigger] self.all_demons()[i]).base.id < self.spec_next_id() by {
            let a = self.all_demons();
            let pa = pre.all_demons();
            if i < s1.len() {
                let oi = old_index(i);
                assert(a[i].base.id == s0[oi].base.id);
                assert(pa[oi] == s0[oi]);
            } else {
                assert(a[i] == pa[s0.len() + i - s1.len()]);
            }
        }

        // The appended entries are the last word on the demons they mention.
        assert forall|j: int| 0 <= j < s1.len() implies latest_position(
            self.log_entries(),
            (#[trigger] s1[j]).base.id,
        ) == Some(Some(s1[j].base.position)) by {
            let pa = pre.all_demons();
            if j == to {
                assert(s1[j].base.id == demon_id);
                lemma_latest_event_append_found(pre.log_entries(), ext, demon_id, ext.len() - 1);
            } else if to < from && to <= j <= from {
                let k = j - (to + 1);
                assert(ext[k] == ev[k]);
                assert(ev[k].demon_id == s0[to + k].base.id && s0[to + k] == s0[j - 1]);
                assert(s1[j].base.id == s0[j - 1].base.id);
                assert forall|m: int| k < m < ext.len() implies (#[trigger] ext[m]).demon_id
                    != s1[j].base.id by {
                    assert(pa[j - 1] == s0[j - 1]);
                    if m < ev.len() {
                        assert(ext[m] == ev[m]);
                        assert(pa[to + m] == s0[to + m]);
                        assert(to + m != j - 1);
                    } else {
                        assert(ext[m] == moved);
                        assert(pa[from] == s0[from]);
                        assert(j - 1 != from);
                    }
                }
                lemma_latest_event_append_found(pre.log_entries(), ext, s1[j].base.id, k);
            } else if from < to && from <= j <= to {
                let k = j - from;
                assert(ext[k] == ev[k]);
                assert(ev[k].demon_id == s0[from + 1 + k].base.id && s0[from + 1 + k] == s0[j + 1]);
                assert(s1[j].base.id == s0[j + 1].base.id);
                assert forall|m: int| k < m < ext.len() implies (#[trigger] ext[m]).demon_id
                    != s1[j].base.id by {
                    assert(pa[j + 1] == s0[j + 1]);
                    if m < ev.len() {
                        assert(ext[m] == ev[m]);
                        assert(pa[from + 1 + m] == s0[from + 1 + m]);
                        assert(from + 1 + m != j + 1);
                    } else {
                        assert(ext[m] == moved);
                        assert(pa[from] == s0[from]);
                        assert(j + 1 != from);
                    }
                }
                lemma_latest_event_append_found(pre.log_entries(), ext, s1[j].base.id, k);
            } else {
                assert(s1[j] == s0[j]);
                let pa = pre.all_demons();
                assert(pa[j] == s0[j]);
                assert forall|m: int| 0 <= m < ext.len() implies (#[trigger] ext[m]).demon_id
                    != s1[j].base.id by {
                    if m < ev.len() {
                        assert(ext[m] == ev[m]);
                        if to < from {
                            assert(pa[to + m] == s0[to + m]);
                            assert(to + m != j);
                        } else {
                            assert(pa[from + 1 + m] == s0[from + 1 + m]);
                            assert(from + 1 + m != j);
                        }
                    } else {
                        assert(ext[m] == moved);
                        assert(pa[from] == s0[from]);
                        assert(from != j);
                    }
                }
                lemma_latest_event_append_other(pre.log_entries(), ext, s1[j].base.id);
                assert(s0[j].base.position == j + 1);
            }
        }

        assert forall|i: int| 0 <= i < self.unranked_demons().len() implies latest_position(
            self.log_entries(),
            (#[trigger] self.unranked_demons()[i]).base.id,
        ) == Some(Option::<i16>::None) by {
            let pa = pre.all_demons();
            let u = self.unranked_demons();
            assert(pa[s0.len() + i] == u[i]);
            assert forall|m: int| 0 <= m < ext.len() implies (#[trigger] ext[m]).demon_id
                != u[i].base.id by {
                if m < ev.len() {
                    assert(ext[m] == ev[m]);
                    if to < from {
                        assert(pa[to + m] == s0[to + m]);
                    } else {
                        assert(pa[from + 1 + m] == s0[from + 1 + m]);
                    }
                } else {
                    assert(ext[m] == moved);
                    assert(pa[from] == s0[from]);
                }
            }
            lemma_latest_event_append_other(pre.log_entries(), ext, u[i].base.id);
        }
    }

    /// Takes the demon carrying `demon_id` off the ranked list: every demon
    /// after it moves one position up the list and is logged, the demon itself
    /// keeps its metadata in the unranked set, and a final entry with no
    /// position records the removal.
    pub fn remove(&mut self, demon_id: i32, timestamp: i64) -> (r: Result<(), DemonlistError>)
        requires
            old(self).wf(),
        ensures
            final(self).wf(),
            final(self).spec_next_id() == old(self).spec_next_id(),
            !contains_id(old(self).ranked_demons(), demon_id) ==> {
                &&& r == Err::<(), DemonlistError>(DemonlistError::DemonNotFound { demon_id })
                &&& *final(self) == *old(self)
            },
            contains_id(old(self).ranked_demons(), demon_id) ==> {
                let s0 = old(self).ranked_demons();
                let from = demon_index(s0, demon_id);
                &&& r == Ok::<(), DemonlistError>(())
                &&& final(self).ranked_demons() == removed_ranked(s0, from)
                &&& final(self).unranked_demons() == old(self).unranked_demons().push(s0[from])
                &&& final(self).log_entries() == old(self).log_entries() + remove_shift_events(
                    s0,
                    from,
                    timestamp,
                ) + seq![
                    PositionModification { demon_id, position: Option::<i16>::None, timestamp },
                ]
            },
    {
        let from_idx = match self.index_of(demon_id) {
            Some(i) => i,
            None => {
                return Err(DemonlistError::DemonNotFound { demon_id });
            },
        };
        proof {
            let s0 = self.ranked@;
            let ci = demon_index(s0, demon_id);
            assert(contains_id(s0, demon_id));
            assert(0 <= ci < s0.len() && s0[ci].base.id == demon_id);
            if ci != from_idx as int {
                assert(self.all_demons()[ci] == s0[ci]);
                assert(self.all_demons()[from_idx as int] == s0[from_idx as int]);
                assert(false);
            }
        }

        let ghost s0 = self.ranked@;
        let ghost log0 = self.log@;
        let ghost ev = remove_shift_events(s0, from_idx as int, timestamp);

        let d = self.ranked.remove(from_idx);
        let mut j: usize = from_idx;
        while j < self.ranked.len()
            invariant
                from_idx <= j <= self.ranked@.len(),
                from_idx < s0.len() <= MAX_LIST_LEN,
                self.ranked@.len() == s0.len() - 1,
                forall|m: int| 0 <= m < from_idx ==> self.ranked@[m] == s0[m],
                forall|m: int|
                    from_idx <= m < j ==> self.ranked@[m] == with_position(
                        s0[m + 1],
                        (m + 1) as i16,
                    ),
                forall|m: int| j <= m < self.ranked@.len() ==> self.ranked@[m] == s0[m + 1],
                ev == remove_shift_events(s0, from_idx as int, timestamp),
                self.log@ == log0 + ev.take(j - from_idx),
                self.unranked@ == old(self).unranked@,
                self.next_id == old(self).next_id,
            decreases self.ranked@.len() - j,
        {
            let ghost done = j - from_idx;
            self.set_position(j, (j + 1) as i16, timestamp);
            proof {
                assert(ev.take(done + 1) =~= ev.take(done).push(ev[done]));
            }
            j += 1;
        }
        self.unranked.push(d);
        self.log.push(
            PositionModification { demon_id, position: Option::<i16>::None, timestamp },
        );

        proof {
            assert(ev.take(ev.len() as int) =~= ev);
            assert(self.ranked@ =~= removed_ranked(s0, from_idx as int));
            assert(self.log@ =~= log0 + ev + seq![
                PositionModification { demon_id, position: Option::<i16>::None, timestamp },
            ]);
            self.lemma_remove_restores_wf(*old(self), demon_id, timestamp);
        }
        Ok(())
    }

    /// The well-formedness argument for `remove`.
    proof fn lemma_remove_restores_wf(&self, pre: PositionLedger, demon_id: i32, timestamp: i64)
        requires
            pre.wf(),
            contains_id(pre.ranked_demons(), demon_id),
            self.ranked_demons() == removed_ranked(
                pre.ranked_demons(),
                demon_index(pre.ranked_demons(), demon_id),
            ),
            self.unranked_demons() == pre.unranked_demons().push(
                pre.ranked_demons()[demon_index(pre.ranked_demons(), demon_id)],
            ),
            self.log_entries() == pre.log_entries() + remove_shift_events(
                pre.ranked_demons(),
                demon_index(pre.ranked_demons(), demon_id),
                timestamp,
            ) + seq![PositionModification { demon_id, position: Option::<i16>::None, timestamp }],
            self.spec_next_id() == pre.spec_next_id(),
        ensures
            self.wf(),
    {
        let s0 = pre.ranked_demons();
        let from = demon_index(s0, demon_id);
        let ev = remove_shift_events(s0, from, timestamp);
        let removal = PositionModification {
            demon_id,
            position: Option::<i16>::None,
            timestamp,
        };
        let ext = ev + seq![removal];
        let s1 = self.ranked_demons();
        let u1 = self.unranked_demons();
        let old_index = |j: int|
            if j < from {
                j
            } else {
                j + 1
            };
        // Where each demon of the new ledger stood in the old one, over the
        // concatenated ranked-then-unranked view.
        let old_all_index = |i: int|
            if i < s1.len() {
                old_index(i)
            } else if i < self.all_demons().len() - 1 {
                s0.len() + (i - s1.len())
            } else {
                from
            };

        assert(0 <= from < s0.len() && s0[from].base.id == demon_id);
        assert(self.log_entries() =~= pre.log_entries() + ext);

        assert forall|i: int| 0 <= i < self.all_demons().len() implies (
        #[trigger] self.all_demons()[i]).base.id == pre.all_demons()[old_all_index(i)].base.id
            && 0 <= old_all_index(i) < pre.all_demons().len() by {
            let a = self.all_demons();
            let pa = pre.all_demons();
            if i < s1.len() {
                assert(a[i] == s1[i]);
                assert(pa[old_index(i)] == s0[old_index(i)]);
            } else if i < a.len() - 1 {
                assert(a[i] == u1[i - s1.len()]);
                assert(u1[i - s1.len()] == pre.unranked_demons()[i - s1.len()]);
            } else {
                assert(a[i] == u1[i - s1.len()]);
                assert(u1[u1.len() - 1] == s0[from]);
                assert(pa[from] == s0[from]);
            }
        }

        assert forall|i: int, j: int|
            0 <= i < j < self.all_demons().len() implies (#[trigger] self.all_demons()[i]).base.id
            != (#[trigger] self.all_demons()[j]).base.id by {
            assert(old_all_index(i) != old_all_index(j));
        }

        assert forall|i: int| 0 <= i < self.all_demons().len() implies 0 < (
        #[trigger] self.all_demons()[i]).base.id < self.spec_next_id() by {}

        assert forall|j: int| 0 <= j < s1.len() implies (#[trigger] s1[j]).base.position == j
            + 1 by {
            if j < from {
                assert(s0[j].base.position == j + 1);
            }
        }

        // The appended entries are the last word on the demons they mention.
        assert forall|j: int| 0 <= j < s1.len() implies latest_position(
            self.log_entries(),
            (#[trigger] s1[j]).base.id,
        ) == Some(Some(s1[j].base.position)) by {
            let pa = pre.all_demons();
            if j < from {
                assert(s1[j] == s0[j]);
                assert(pa[j] == s0[j]);
                assert forall|m: int| 0 <= m < ext.len() implies (#[trigger] ext[m]).demon_id
                    != s1[j].base.id by {
                    if m < ev.len() {
                        assert(ext[m] == ev[m]);
                        assert(pa[from + 1 + m] == s0[from + 1 + m]);
                    } else {
                        assert(ext[m] == removal);
                        assert(pa[from] == s0[from]);
                    }
                }
                lemma_latest_event_append_other(pre.log_entries(), ext, s1[j].base.id);
                assert(s0[j].base.position == j + 1);
            } else {
                let k = j - from;
                assert(ext[k] == ev[k]);
                assert(ev[k].demon_id == s0[from + 1 + k].base.id && s0[from + 1 + k] == s0[j + 1]);
                assert(s1[j].base.id == s0[j + 1].base.id);
                assert forall|m: int| k < m < ext.len() implies (#[trigger] ext[m]).demon_id
                    != s1[j].base.id by {
                    assert(pa[j + 1] == s0[j + 1]);
                    if m < ev.len() {
                        assert(ext[m] == ev[m]);
                        assert(pa[from + 1 + m] == s0[from + 1 + m]);
                        assert(from + 1 + m != j + 1);
                    } else {
                        assert(ext[m] == removal);
                        assert(pa[from] == s0[from]);
                        assert(j + 1 != from);
                    }
                }
                lemma_latest_event_append_found(pre.log_entries(), ext, s1[j].base.id, k);
            }
        }

        assert forall|i: int| 0 <= i < u1.len() implies latest_position(
            self.log_entries(),
            (#[trigger] u1[i]).base.id,
        ) == Some(Option::<i16>::None) by {
            let pa = pre.all_demons();
            if i < u1.len() - 1 {
                assert(u1[i] == pre.unranked_demons()[i]);
                assert(pa[s0.len() + i] == u1[i]);
                assert forall|m: int| 0 <= m < ext.len() implies (#[trigger] ext[m]).demon_id
                    != u1[i].base.id by {
                    if m < ev.len() {
                        assert(ext[m] == ev[m]);
                        assert(pa[from + 1 + m] == s0[from + 1 + m]);
                    } else {
                        assert(ext[m] == removal);
                        assert(pa[from] == s0[from]);
                    }
                }
                lemma_latest_event_append_other(pre.log_entries(), ext, u1[i].base.id);
            } else {
                assert(u1[i] == s0[from]);
                lemma_latest_event_append_found(pre.log_entries(), ext, demon_id, ext.len() - 1);
            }
        }
    }
}

/// Whether some ranked demon of `l` holds position `p`.
pub open spec fn position_in_use(l: &PositionLedger, p: int) -> bool {
    exists|i: int|
        0 <= i < l.ranked_demons().len() && (#[trigger] l.ranked_demons()[i]).base.position == p
}

/// In a well-formed ledger — which every operation leaves behind — the
/// positions in use are exactly `1..=max_position`, with no gaps and no
/// duplicates.
pub proof fn lemma_positions_dense(l: &PositionLedger)
    requires
        l.wf(),
    ensures
        forall|i: int|
            0 <= i < l.ranked_demons().len() ==> 1 <= (
            #[trigger] l.ranked_demons()[i]).base.position <= l.ranked_demons().len(),
        forall|p: int| #![trigger position_in_use(l, p)]
            1 <= p <= l.ranked_demons().len() <==> position_in_use(l, p),
        forall|i: int, j: int|
            0 <= i < l.ranked_demons().len() && 0 <= j < l.ranked_demons().len() && (
            #[trigger] l.ranked_demons()[i]).base.position == (
            #[trigger] l.ranked_demons()[j]).base.position ==> i == j,
{
    assert forall|p: int| 1 <= p <= l.ranked_demons().len() implies position_in_use(l, p) by {
        assert(l.ranked_demons()[p - 1].base.position == p);
    }
}

/// Inserting at position `max + 1` — the end of the list — never shifts an
/// existing row: the new order is the old one with the new demon appended.
pub proof fn lemma_insert_at_end_shifts_nothing(s: Seq<Demon>, d: Demon)
    ensures
        inserted_ranked(s, s.len() as int + 1, d) == s.push(d),
        forall|i: int|
            0 <= i < s.len() ==> inserted_ranked(s, s.len() as int + 1, d)[i] == #[trigger] s[i],
{
    assert(inserted_ranked(s, s.len() as int + 1, d) =~= s.push(d));
}

} // verus!
