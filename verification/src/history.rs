//! The time machine: reading the list as it stood at any past instant,
//! replayed from the position log, plus the live reading it degenerates to.

use crate::demon::Demon;
use crate::ledger::{
    latest_event_at, lemma_latest_event_at_total, live_position, position_at, PositionLedger,
    PositionModification,
};
use vstd::prelude::*;

verus! {

/// One row of a list reading: a demon, the position it held at the chosen
/// instant, and — when that differs from today — where it stands now.
#[derive(Debug, PartialEq, Eq, Hash)]
pub struct OverviewDemon {
    pub id: i32,
    pub position: i16,
    pub name: String,
    pub publisher: String,
    pub video: Option<String>,
    /// The demon's live position, when it differs from `position`; `None`
    /// when nothing changed or the demon has since been removed.
    pub current_position: Option<i16>,
}

/// Whether the log places `id` on the list at instant `t`.
pub open spec fn ranked_at(l: &PositionLedger, t: i64, id: i32) -> bool {
    position_at(l.log_entries(), id, t) matches Some(Some(_))
}

/// The "Currently #N" annotation for a demon shown at position `p`: its live
/// position when that differs from `p`, and nothing otherwise.
pub open spec fn current_annotation(l: &PositionLedger, id: i32, p: i16) -> Option<i16> {
    if live_position(l, id) == Some(p) {
        None
    } else {
        live_position(l, id)
    }
}

/// Whether `row` is the reading of demon `d` at instant `t`.
pub open spec fn row_matches(l: &PositionLedger, t: i64, row: OverviewDemon, d: Demon) -> bool {
    &&& row.id == d.base.id
    &&& position_at(l.log_entries(), d.base.id, t) == Some(Some(row.position))
    &&& row.name == d.base.name
    &&& row.publisher == d.publisher.name
    &&& row.video == d.video
    &&& row.current_position == current_annotation(l, d.base.id, row.position)
}

/// Whether the rows are ordered by the position they show.
pub open spec fn sorted_by_position(out: Seq<OverviewDemon>) -> bool {
    forall|k1: int, k2: int| 0 <= k1 < k2 < out.len() ==> out[k1].position <= out[k2].position
}

/// Whether some row carries this id.
pub open spec fn contains_row_id(out: Seq<OverviewDemon>, id: i32) -> bool {
    exists|k: int| 0 <= k < out.len() && (#[trigger] out[k]).id == id
}

/// What holds of `out` once the first `processed` demons of the ledger have
/// been considered: the rows are sorted, each one reads some considered demon
/// at instant `t`, every considered demon that was on the list at `t` has a
/// row, and no id appears twice.
pub open spec fn reading_of(l: &PositionLedger, t: i64, out: Seq<OverviewDemon>, processed: int) -> bool {
    &&& sorted_by_position(out)
    &&& forall|k: int|
        0 <= k < out.len() ==> exists|q: int|
            0 <= q < processed && row_matches(l, t, #[trigger] out[k], l.all_demons()[q])
    &&& forall|q: int|
        0 <= q < processed && ranked_at(l, t, (#[trigger] l.all_demons()[q]).base.id)
            ==> contains_row_id(out, l.all_demons()[q].base.id)
    &&& forall|k1: int, k2: int| 0 <= k1 < k2 < out.len() ==> out[k1].id != out[k2].id
}

/// Whether `r` is the reconstruction of the whole ledger at instant `t`.
pub open spec fn is_reconstruction(l: &PositionLedger, t: i64, r: Seq<OverviewDemon>) -> bool {
    reading_of(l, t, r, l.all_demons().len() as int)
}

/// Whether `r` is the live reading of the ledger: one row per ranked demon, in
/// order, with no annotation.
pub open spec fn is_live_listing(l: &PositionLedger, r: Seq<OverviewDemon>) -> bool {
    &&& r.len() == l.ranked_demons().len()
    &&& forall|k: int|
        0 <= k < r.len() ==> {
            let d = l.ranked_demons()[k];
            #[trigger] r[k] == (OverviewDemon {
                id: d.base.id,
                position: d.base.position,
                name: d.base.name,
                publisher: d.publisher.name,
                video: d.video,
                current_position: None,
            })
        }
}

/// How a requested time-machine instant is interpreted: instants before the
/// earliest supported one are clamped up to it, and instants at or after `now`
/// mean the live list is read instead.
pub open spec fn resolved_timestamp(requested: i64, earliest: i64, now: i64) -> Option<i64> {
    if requested >= now {
        None
    } else if requested < earliest {
        Some(earliest)
    } else {
        Some(requested)
    }
}

/// Decides between the live list (`None`) and a reconstruction instant.
pub fn resolve_timestamp(requested: i64, earliest: i64, now: i64) -> (r: Option<i64>)
    ensures
        r == resolved_timestamp(requested, earliest, now),
{
    if requested >= now {
        None
    } else if requested < earliest {
        Some(earliest)
    } else {
        Some(requested)
    }
}

/// The position `id` held at instant `t` according to the log: `None` when the
/// log does not mention it by then, `Some(None)` when it had been removed.
fn find_position_at(log: &Vec<PositionModification>, id: i32, t: i64) -> (r: Option<Option<i16>>)
    ensures
        r == position_at(log@, id, t),
{
    let mut j: usize = log.len();
    proof {
        assert(log@.take(j as int) =~= log@);
    }
    while j > 0
        invariant
            j <= log@.len(),
            latest_event_at(log@, id, t) == latest_event_at(log@.take(j as int), id, t),
        decreases j,
    {
        j -= 1;
        let e = log[j];
        proof {
            assert(log@.take(j as int + 1).drop_last() =~= log@.take(j as int));
            assert(log@.take(j as int + 1).last() == log@[j as int]);
        }
        if e.demon_id == id && e.timestamp <= t {
            return Some(e.position);
        }
    }
    proof {
        assert(log@.take(0) =~= Seq::<PositionModification>::empty());
    }
    None
}

/// Puts `row` where it keeps the rows ordered by position (after any equal
/// positions already present).
fn insert_sorted(out: &mut Vec<OverviewDemon>, row: OverviewDemon)
    requires
        sorted_by_position(old(out)@),
    ensures
        sorted_by_position(final(out)@),
        exists|m: int| 0 <= m <= old(out)@.len() && final(out)@ == #[trigger] old(out)@.insert(
            m,
            row,
        ),
{
    let mut m: usize = 0;
    while m < out.len() && out[m].position <= row.position
        invariant
            m <= out@.len(),
            out@ == old(out)@,
            forall|q: int| 0 <= q < m ==> (#[trigger] out@[q]).position <= row.position,
        decreases out@.len() - m,
    {
        m += 1;
    }
    out.insert(m, row);
    proof {
        let s0 = old(out)@;
        let s1 = out@;
        assert(s1 == s0.insert(m as int, row));
        assert forall|k1: int, k2: int| 0 <= k1 < k2 < s1.len() implies s1[k1].position
            <= s1[k2].position by {
            if k1 < m && k2 < m {
            } else if k1 == m {
                assert(s1[k2] == s0[k2 - 1]);
                assert(s0[m as int].position > row.position);
                assert(s0[m as int].position <= s0[k2 - 1].position);
            } else if k2 == m {
                assert(s1[k1] == s0[k1]);
            } else if k1 > m {
                assert(s1[k1] == s0[k1 - 1] && s1[k2] == s0[k2 - 1]);
            } else {
                assert(s1[k1] == s0[k1] && s1[k2] == s0[k2 - 1]);
                if k2 - 1 >= m {
                    assert(s0[m as int].position > row.position);
                }
            }
        }
    }
}

/// Whether some row shows position `v`.
pub open spec fn shows_position(r: Seq<OverviewDemon>, v: int) -> bool {
    exists|m: int| 0 <= m < r.len() && (#[trigger] r[m]).position == v
}

/// Rows whose positions strictly increase and start at 1 or above sit at or
/// above their index plus one.
proof fn lemma_row_position_lower_bound(r: Seq<OverviewDemon>, k: int)
    requires
        forall|k1: int, k2: int|
            #![trigger r[k1], r[k2]]
            0 <= k1 < k2 < r.len() ==> r[k1].position < r[k2].position,
        forall|k1: int| 0 <= k1 < r.len() ==> (#[trigger] r[k1]).position >= 1,
        0 <= k < r.len(),
    ensures
        r[k].position >= k + 1,
    decreases k,
{
    if k > 0 {
        lemma_row_position_lower_bound(r, k - 1);
    }
}

/// Rows whose positions strictly increase, stay within `[1, n]` and attain
/// every value of `[1, n]` are exactly the positions `1..=n` in order.
proof fn lemma_rows_canonical(r: Seq<OverviewDemon>, n: int, k: int)
    requires
        forall|k1: int, k2: int|
            #![trigger r[k1], r[k2]]
            0 <= k1 < k2 < r.len() ==> r[k1].position < r[k2].position,
        forall|k1: int| 0 <= k1 < r.len() ==> 1 <= (#[trigger] r[k1]).position <= n,
        forall|v: int| 1 <= v <= n ==> #[trigger] shows_position(r, v),
        r.len() <= n,
        0 <= k < n,
    ensures
        k < r.len(),
        r[k].position == k + 1,
    decreases k,
{
    assert(shows_position(r, k + 1));
    let m = choose|m: int| 0 <= m < r.len() && (#[trigger] r[m]).position == k + 1;
    lemma_row_position_lower_bound(r, m);
    assert(m <= k);
    if k == 0 {
        assert(m == 0);
    } else {
        lemma_rows_canonical(r, n, k - 1);
        assert(r[k - 1].position == k);
        if m < k {
            if m < k - 1 {
                assert(r[m].position < r[k - 1].position);
            }
            assert(false);
        }
    }
}

/// Law: reconstructing the list at an instant at or after every logged change
/// yields exactly the live reading — the same demons, in the same order, at
/// the same positions.
pub proof fn lemma_round_trip(
    l: &PositionLedger,
    t: i64,
    r: Seq<OverviewDemon>,
    c: Seq<OverviewDemon>,
)
    requires
        l.wf(),
        forall|k: int|
            0 <= k < l.log_entries().len() ==> (#[trigger] l.log_entries()[k]).timestamp <= t,
        is_reconstruction(l, t, r),
        is_live_listing(l, c),
    ensures
        r.len() == c.len(),
        forall|k: int|
            0 <= k < r.len() ==> (#[trigger] r[k]).id == c[k].id && r[k].position == c[k].position,
{
    let log = l.log_entries();
    let s0 = l.ranked_demons();
    let n = s0.len() as int;

    // At such an instant the log's last word is the live state.
    assert forall|i: int| 0 <= i < n implies position_at(log, (#[trigger] s0[i]).base.id, t)
        == Some(Some(s0[i].base.position)) by {
        lemma_latest_event_at_total(log, s0[i].base.id, t);
    }
    assert forall|i: int| 0 <= i < l.unranked_demons().len() implies position_at(
        log,
        (#[trigger] l.unranked_demons()[i]).base.id,
        t,
    ) == Some(Option::<i16>::None) by {
        lemma_latest_event_at_total(log, l.unranked_demons()[i].base.id, t);
        assert(l.all_demons()[n + i] == l.unranked_demons()[i]);
    }

    // Each row reads a ranked demon, at its live position.
    assert forall|k: int| 0 <= k < r.len() implies exists|q: int|
        0 <= q < n && (#[trigger] r[k]).id == s0[q].base.id && r[k].position == (q + 1) as i16 by {
        let q = choose|q: int|
            0 <= q < l.all_demons().len() && row_matches(l, t, r[k], l.all_demons()[q]);
        if q >= n {
            assert(l.all_demons()[q] == l.unranked_demons()[q - n]);
            assert(false);
        } else {
            assert(l.all_demons()[q] == s0[q]);
            assert(s0[q].base.position == q + 1);
            assert(r[k].id == s0[q].base.id && r[k].position == (q + 1) as i16);
        }
    }

    // Distinct ids force strictly increasing positions.
    assert forall|k1: int, k2: int|
        #![trigger r[k1], r[k2]]
        0 <= k1 < k2 < r.len() implies r[k1].position < r[k2].position by {
        let q1 = choose|q: int|
            0 <= q < n && (#[trigger] r[k1]).id == s0[q].base.id && r[k1].position == (q
                + 1) as i16;
        let q2 = choose|q: int|
            0 <= q < n && (#[trigger] r[k2]).id == s0[q].base.id && r[k2].position == (q
                + 1) as i16;
        if r[k1].position == r[k2].position {
            assert(q1 == q2);
            assert(r[k1].id == r[k2].id);
            assert(false);
        }
    }
    assert forall|k: int| 0 <= k < r.len() implies 1 <= (#[trigger] r[k]).position <= n by {
        let q = choose|q: int|
            0 <= q < n && (#[trigger] r[k]).id == s0[q].base.id && r[k].position == (q + 1) as i16;
    }

    // Every live position is shown by some row.
    assert forall|v: int| 1 <= v <= n implies #[trigger] shows_position(r, v) by {
        let q = v - 1;
        assert(l.all_demons()[q] == s0[q]);
        assert(s0[q].base.position == q + 1);
        assert(ranked_at(l, t, l.all_demons()[q].base.id));
        assert(contains_row_id(r, s0[q].base.id));
        let k = choose|k: int| 0 <= k < r.len() && (#[trigger] r[k]).id == s0[q].base.id;
        let q2 = choose|q2: int|
            0 <= q2 < n && (#[trigger] r[k]).id == s0[q2].base.id && r[k].position == (q2
                + 1) as i16;
        if q2 != q {
            assert(l.all_demons()[q2] == s0[q2]);
            assert(false);
        }
        assert(r[k].position == v);
    }

    // Together: the rows are the positions 1..=n in order.
    if r.len() > n {
        lemma_row_position_lower_bound(r, r.len() - 1);
        assert(false);
    }
    if n > 0 {
        lemma_rows_canonical(r, n, n - 1);
    }
    assert(r.len() == n);

    assert forall|k: int| 0 <= k < r.len() implies (#[trigger] r[k]).id == c[k].id && r[k].position
        == c[k].position by {
        lemma_rows_canonical(r, n, k);
        let q = choose|q: int|
            0 <= q < n && (#[trigger] r[k]).id == s0[q].base.id && r[k].position == (q + 1) as i16;
        assert(s0[q].base.position == q + 1);
        assert(r[k].position == k + 1);
        assert(q == k);
        assert(c[k].id == s0[k].base.id && c[k].position == s0[k].base.position);
    }
}

/// Considers the `processed`-th demon of the ledger: when the log placed it on
/// the list at `timestamp`, its row is put into `out`, keeping `out` a sorted
/// reading of the demons considered so far.
fn consider_demon(
    l: &PositionLedger,
    out: &mut Vec<OverviewDemon>,
    d: &Demon,
    timestamp: i64,
    Ghost(processed): Ghost<int>,
)
    requires
        l.wf(),
        0 <= processed < l.all_demons().len(),
        l.all_demons()[processed] == *d,
        reading_of(l, timestamp, old(out)@, processed),
    ensures
        reading_of(l, timestamp, final(out)@, processed + 1),
{
    let id = d.base.id;
    let pos = find_position_at(l.log(), id, timestamp);
    match pos {
        Some(Some(p)) => {
            let live = l.current_position_of(id);
            let ann: Option<i16> = match live {
                Some(c) => if c == p {
                    None
                } else {
                    Some(c)
                },
                None => None,
            };
            let row = OverviewDemon {
                id,
                position: p,
                name: d.base.name.clone(),
                publisher: d.publisher.name.clone(),
                video: match &d.video {
                    Some(v) => Some(v.clone()),
                    None => None,
                },
                current_position: ann,
            };
            proof {
                assert(row_matches(l, timestamp, row, *d));
                // No earlier row can carry this id: each reads a demon
                // considered earlier, and ids are unique.
                assert forall|k: int| 0 <= k < out@.len() implies (#[trigger] out@[k]).id != id by {
                    let q = choose|q: int|
                        0 <= q < processed && row_matches(l, timestamp, out@[k], l.all_demons()[q]);
                    assert(out@[k].id == l.all_demons()[q].base.id);
                    assert(l.all_demons()[q].base.id != l.all_demons()[processed].base.id);
                }
            }
            let ghost pre = out@;
            insert_sorted(out, row);
            proof {
                let post = out@;
                let m = choose|m: int| 0 <= m <= pre.len() && post == #[trigger] pre.insert(m, row);
                assert(post.len() == pre.len() + 1);
                assert forall|k: int| 0 <= k < post.len() implies exists|q: int|
                    0 <= q < processed + 1 && row_matches(
                        l,
                        timestamp,
                        #[trigger] post[k],
                        l.all_demons()[q],
                    ) by {
                    if k == m {
                        assert(post[k] == row);
                        assert(row_matches(l, timestamp, post[k], l.all_demons()[processed]));
                    } else {
                        let ko = if k < m {
                            k
                        } else {
                            k - 1
                        };
                        assert(post[k] == pre[ko]);
                        let q = choose|q: int|
                            0 <= q < processed && row_matches(
                                l,
                                timestamp,
                                pre[ko],
                                l.all_demons()[q],
                            );
                        assert(row_matches(l, timestamp, post[k], l.all_demons()[q]));
                    }
                }
                assert forall|q: int|
                    0 <= q < processed + 1 && ranked_at(
                        l,
                        timestamp,
                        (#[trigger] l.all_demons()[q]).base.id,
                    ) implies contains_row_id(post, l.all_demons()[q].base.id) by {
                    if q == processed {
                        assert(post[m] == row);
                        assert(post[m].id == l.all_demons()[q].base.id);
                    } else {
                        let k = choose|k: int|
                            0 <= k < pre.len() && (#[trigger] pre[k]).id == l.all_demons()[
                                q
                            ].base.id;
                        let kn = if k < m {
                            k
                        } else {
                            k + 1
                        };
                        assert(post[kn] == pre[k]);
                        assert(post[kn].id == l.all_demons()[q].base.id);
                    }
                }
                assert forall|k1: int, k2: int| 0 <= k1 < k2 < post.len() implies post[k1].id
                    != post[k2].id by {
                    let o1 = if k1 < m {
                        k1
                    } else {
                        k1 - 1
                    };
                    let o2 = if k2 < m {
                        k2
                    } else {
                        k2 - 1
                    };
                    if k1 == m {
                        assert(post[k2] == pre[o2]);
                    } else if k2 == m {
                        assert(post[k1] == pre[o1]);
                    } else {
                        assert(post[k1] == pre[o1] && post[k2] == pre[o2]);
                    }
                }
            }
        },
        _ => {
            proof {
                assert(!ranked_at(l, timestamp, id));
                assert forall|k: int| 0 <= k < out@.len() implies exists|q: int|
                    0 <= q < processed + 1 && row_matches(
                        l,
                        timestamp,
                        #[trigger] out@[k],
                        l.all_demons()[q],
                    ) by {
                    let q = choose|q: int|
                        0 <= q < processed && row_matches(l, timestamp, out@[k], l.all_demons()[q]);
                    assert(row_matches(l, timestamp, out@[k], l.all_demons()[q]));
                }
            }
        },
    }
}

impl PositionLedger {
    /// The list as it stood at instant `timestamp`, replayed from the log:
    /// one row per demon that was on the list then, ordered by the position it
    /// held then, each annotated with its live position where that has since
    /// changed. Demons the log does not mention by `timestamp` did not exist
    /// yet and are omitted entirely.
    pub fn list_at(&self, timestamp: i64) -> (r: Vec<OverviewDemon>)
        requires
            self.wf(),
        ensures
            is_reconstruction(self, timestamp, r@),
    {
        let mut out: Vec<OverviewDemon> = Vec::new();
        let demons = self.demons();
        let n1 = demons.len();
        let mut i: usize = 0;
        while i < n1
            invariant
                self.wf(),
                demons@ == self.ranked_demons(),
                n1 == self.ranked_demons().len(),
                i <= n1,
                reading_of(self, timestamp, out@, i as int),
            decreases n1 - i,
        {
            proof {
                assert(self.all_demons()[i as int] == self.ranked_demons()[i as int]);
            }
            consider_demon(self, &mut out, &demons[i], timestamp, Ghost(i as int));
            i += 1;
        }
        let removed = self.removed_demons();
        let n2 = removed.len();
        let mut ii: usize = 0;
        while ii < n2
            invariant
                self.wf(),
                removed@ == self.unranked_demons(),
                n1 == self.ranked_demons().len(),
                n2 == self.unranked_demons().len(),
                ii <= n2,
                reading_of(self, timestamp, out@, n1 as int + ii as int),
            decreases n2 - ii,
        {
            proof {
                assert(self.all_demons()[n1 as int + ii as int] == self.unranked_demons()[
                    ii as int
                ]);
            }
            consider_demon(self, &mut out, &removed[ii], timestamp, Ghost(n1 as int + ii as int));
            ii += 1;
        }
        out
    }

    /// The position `demon_id` held at instant `timestamp`, according to the
    /// log: `None` when the log does not mention the demon by then,
    /// `Some(None)` when it had been removed from the list by then.
    pub fn position_at_instant(&self, demon_id: i32, timestamp: i64) -> (r: Option<Option<i16>>)
        ensures
            r == position_at(self.log_entries(), demon_id, timestamp),
    {
        find_position_at(self.log(), demon_id, timestamp)
    }

    /// The live list: one row per ranked demon, in position order, with no
    /// annotation.
    pub fn current_list(&self) -> (r: Vec<OverviewDemon>)
        requires
            self.wf(),
        ensures
            is_live_listing(self, r@),
    {
        let mut out: Vec<OverviewDemon> = Vec::new();
        let demons = self.demons();
        let mut i: usize = 0;
        while i < demons.len()
            invariant
                demons@ == self.ranked_demons(),
                i <= demons@.len(),
                out@.len() == i,
                forall|k: int|
                    0 <= k < i ==> {
                        let d = self.ranked_demons()[k];
                        #[trigger] out@[k] == (OverviewDemon {
                            id: d.base.id,
                            position: d.base.position,
                            name: d.base.name,
                            publisher: d.publisher.name,
                            video: d.video,
                            current_position: None,
                        })
                    },
            decreases demons@.len() - i,
        {
            let d = &demons[i];
            out.push(
                OverviewDemon {
                    id: d.base.id,
                    position: d.base.position,
                    name: d.base.name.clone(),
                    publisher: d.publisher.name.clone(),
                    video: match &d.video {
                        Some(v) => Some(v.clone()),
                        None => None,
                    },
                    current_position: None,
                },
            );
            i += 1;
        }
        out
    }
}

} // verus!
