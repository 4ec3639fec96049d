//! The scrapbook-advice ranking.
//!
//! A collector hands in the packed identifiers of the equipment already
//! in their scrapbook; the service ranks the server's players by how many
//! of their currently worn items the collector still misses, preferring
//! low-level, low-attribute targets among equal counts, and returns the
//! best few. Decoding a raw scrapbook into identifiers is the game
//! client library's job; this query takes the decoded identifiers.

use vstd::prelude::*;

use crate::api::ScrapBookAdvice;
use crate::store::{Db, EquipmentRow};

verus! {

/// How many ranked players one query returns at most.
pub const ADVICE_LIMIT: usize = 25;

/// An equipment row of the given player on the given server whose item
/// the collector does not own yet.
pub open spec fn wanted_row(e: EquipmentRow, sid: i64, pid: i64, collected: Seq<i32>) -> bool {
    e.server_id == sid && e.player_id == pid && !collected.contains(e.ident)
}

/// How many of the player's current items the collector still misses.
pub open spec fn spec_new_count(
    eq: Seq<EquipmentRow>,
    sid: i64,
    pid: i64,
    collected: Seq<i32>,
) -> int {
    eq.filter(|e: EquipmentRow| wanted_row(e, sid, pid, collected)).len() as int
}

/// Player row `i` qualifies for the ranking: below the level and
/// attribute caps, not removed, and wearing at least one wanted item.
pub open spec fn spec_candidate(
    db: Db,
    i: int,
    sid: i64,
    collected: Seq<i32>,
    max_level: i64,
    max_attrs: i64,
) -> bool {
    &&& 0 <= i < db.players@.len()
    &&& db.players@[i].level matches Option::Some(l) && l <= max_level
    &&& db.players@[i].attributes matches Option::Some(a) && a <= max_attrs
    &&& !db.players@[i].is_removed
    &&& spec_new_count(db.equipment@, sid, db.players@[i].player_id, collected) > 0
}

/// The ranking key of player row `i`: wanted-item count, level,
/// attributes.
pub open spec fn spec_key(db: Db, i: int, sid: i64, collected: Seq<i32>) -> (int, int, int) {
    (
        spec_new_count(db.equipment@, sid, db.players@[i].player_id, collected),
        db.players@[i].level.unwrap() as int,
        db.players@[i].attributes.unwrap() as int,
    )
}

/// Key `a` strictly outranks key `b`: more wanted items, then lower
/// level, then lower attributes.
pub open spec fn ranks_before(a: (int, int, int), b: (int, int, int)) -> bool {
    ||| a.0 > b.0
    ||| (a.0 == b.0 && a.1 < b.1)
    ||| (a.0 == b.0 && a.1 == b.1 && a.2 < b.2)
}

/// How many of the first `k` player rows qualify.
pub open spec fn candidate_count_upto(
    db: Db,
    sid: i64,
    collected: Seq<i32>,
    max_level: i64,
    max_attrs: i64,
    k: int,
) -> int
    decreases k,
{
    if k <= 0 {
        0
    } else {
        candidate_count_upto(db, sid, collected, max_level, max_attrs, k - 1) + if spec_candidate(
            db,
            k - 1,
            sid,
            collected,
            max_level,
            max_attrs,
        ) {
            1int
        } else {
            0int
        }
    }
}

/// Whether the collector already owns the packed identifier.
fn contains_ident(collected: &Vec<i32>, x: i32) -> (r: bool)
    ensures
        r == collected@.contains(x),
{
    let n = collected.len();
    let mut i: usize = 0;
    while i < n
        invariant
            i <= n == collected@.len(),
            forall|j: int| 0 <= j < i ==> collected@[j] != x,
        decreases n - i,
    {
        if collected[i] == x {
            return true;
        }
        i = i + 1;
    }
    false
}

/// Counts the player's wanted items.
#[verifier::loop_isolation(false)]
fn count_new(eq: &Vec<EquipmentRow>, sid: i64, pid: i64, collected: &Vec<i32>) -> (c: usize)
    ensures
        c == spec_new_count(eq@, sid, pid, collected@),
{
    let ghost pred = |e: EquipmentRow| wanted_row(e, sid, pid, collected@);
    let n = eq.len();
    let mut c: usize = 0;
    let mut i: usize = 0;
    proof {
        assert(eq@.subrange(0, 0).filter(pred) =~= Seq::<EquipmentRow>::empty());
    }
    while i < n
        invariant
            i <= n == eq@.len(),
            c == eq@.subrange(0, i as int).filter(pred).len(),
            c <= i,
        decreases n - i,
    {
        proof {
            assert(eq@.subrange(0, i + 1 as int).drop_last() =~= eq@.subrange(0, i as int));
            reveal(Seq::filter);
        }
        let e = eq[i];
        if e.server_id == sid && e.player_id == pid && !contains_ident(collected, e.ident) {
            c = c + 1;
        }
        i = i + 1;
    }
    proof {
        assert(eq@.subrange(0, n as int) =~= eq@);
    }
    c
}

/// One qualifying player while the ranking is being built.
struct Candidate {
    /// Index of the player row.
    idx: usize,
    /// The wanted-item count.
    count: i64,
    /// The player's level.
    level: i64,
    /// The player's summed attributes.
    attrs: i64,
}

impl Candidate {
    /// The candidate's fields agree with the player it names.
    spec fn tied(self, db: Db, sid: i64, collected: Seq<i32>) -> bool {
        &&& self.idx < db.players@.len()
        &&& (self.count as int, self.level as int, self.attrs as int) == spec_key(
            db,
            self.idx as int,
            sid,
            collected,
        )
    }
}

/// Ranks the server's qualifying players by how many of their worn items
/// the collector still misses (more first), breaking ties by lower level,
/// then lower attributes, and returns the best [`ADVICE_LIMIT`] of them:
/// every qualifying player left out ranks no better than any returned
/// one.
#[verifier::loop_isolation(false)]
pub fn scrapbook_advice(
    db: &Db,
    server_id: i64,
    collected: &Vec<i32>,
    max_level: i64,
    max_attrs: i64,
) -> (r: Vec<ScrapBookAdvice>)
    requires
        db.equipment@.len() <= crate::store::MAX_ROWS,
    ensures
        ({
            let total = candidate_count_upto(
                *db,
                server_id,
                collected@,
                max_level,
                max_attrs,
                db.players@.len() as int,
            );
            &&& r@.len() == if total <= ADVICE_LIMIT {
                total
            } else {
                ADVICE_LIMIT as int
            }
            &&& exists|picks: Seq<int>|
                #![trigger picks.len()]
                {
                    &&& picks.len() == r@.len()
                    &&& (forall|k: int|
                        0 <= k < picks.len() ==> spec_candidate(
                            *db,
                            #[trigger] picks[k],
                            server_id,
                            collected@,
                            max_level,
                            max_attrs,
                        ))
                    &&& (forall|a: int, b: int| 0 <= a < b < picks.len() ==> picks[a] != picks[b])
                    &&& (forall|k: int|
                        0 <= k < picks.len() ==> (#[trigger] r@[k]).player_name@
                            == db.players@[picks[k]].name@ && r@[k].new_count == spec_key(
                            *db,
                            picks[k],
                            server_id,
                            collected@,
                        ).0)
                    &&& (forall|a: int, b: int|
                        0 <= a < b < picks.len() ==> !ranks_before(
                            spec_key(*db, #[trigger] picks[b], server_id, collected@),
                            spec_key(*db, #[trigger] picks[a], server_id, collected@),
                        ))
                    &&& (forall|j: int, k: int|
                        spec_candidate(*db, j, server_id, collected@, max_level, max_attrs) && (
                        forall|t: int| 0 <= t < picks.len() ==> #[trigger] picks[t] != j) && 0 <= k
                            < picks.len() ==> !ranks_before(
                            #[trigger] spec_key(*db, j, server_id, collected@),
                            spec_key(*db, #[trigger] picks[k], server_id, collected@),
                        ))
                }
        }),
{
    let ghost g_sid = server_id;
    let ghost g_coll = collected@;

    // Gather the qualifying players with their ranking keys.
    let mut cands: Vec<Candidate> = Vec::new();
    let n = db.players.len();
    let mut i: usize = 0;
    while i < n
        invariant
            i <= n == db.players@.len(),
            cands@.len() == candidate_count_upto(*db, g_sid, g_coll, max_level, max_attrs, i as int),
            forall|t: int|
                0 <= t < cands@.len() ==> (#[trigger] cands@[t]).idx < i && cands@[t].tied(
                    *db,
                    g_sid,
                    g_coll,
                ) && spec_candidate(*db, cands@[t].idx as int, g_sid, g_coll, max_level, max_attrs),
            forall|t1: int, t2: int|
                0 <= t1 < t2 < cands@.len() ==> (#[trigger] cands@[t1]).idx < (#[trigger] cands@[t2]).idx,
            forall|j: int|
                0 <= j < i && spec_candidate(*db, j, g_sid, g_coll, max_level, max_attrs)
                    ==> exists|t: int| 0 <= t < cands@.len() && (#[trigger] cands@[t]).idx == j,
        decreases n - i,
    {
        let level_ok = match db.players[i].level {
            Some(l) => l <= max_level,
            None => false,
        };
        let attrs_ok = match db.players[i].attributes {
            Some(a) => a <= max_attrs,
            None => false,
        };
        let cnt = count_new(&db.equipment, server_id, db.players[i].player_id, collected);
        let is_cand = level_ok && attrs_ok && !db.players[i].is_removed && cnt > 0;
        proof {
            assert(is_cand == spec_candidate(*db, i as int, g_sid, g_coll, max_level, max_attrs));
        }
        if is_cand {
            let level = match db.players[i].level {
                Some(l) => l,
                None => 0,
            };
            let attrs = match db.players[i].attributes {
                Some(a) => a,
                None => 0,
            };
            // A table row count fits the count field.
            assert(cnt <= db.equipment@.len()) by {
                db.equipment@.lemma_filter_len(
                    |e: EquipmentRow| wanted_row(e, g_sid, db.players@[i as int].player_id, g_coll),
                );
            }
            let ghost prev = cands@;
            let cand = Candidate { idx: i, count: cnt as i64, level, attrs };
            cands.push(cand);
            proof {
                assert(cands@.last().tied(*db, g_sid, g_coll));
                assert forall|j: int|
                    0 <= j < i + 1 && spec_candidate(*db, j, g_sid, g_coll, max_level, max_attrs)
                        implies exists|t: int|
                    0 <= t < cands@.len() && (#[trigger] cands@[t]).idx == j by {
                    if j == i {
                        assert(cands@[cands@.len() - 1].idx == j);
                    } else {
                        let t = choose|t: int| 0 <= t < prev.len() && (#[trigger] prev[t]).idx == j;
                        assert(cands@[t] == prev[t]);
                        assert(cands@[t].idx == j);
                    }
                }
            }
        }
        i = i + 1;
    }
    let ghost total = candidate_count_upto(*db, g_sid, g_coll, max_level, max_attrs, n as int);

    // Repeatedly take the best remaining candidate.
    let mut out: Vec<ScrapBookAdvice> = Vec::new();
    let ghost picks: Seq<int> = Seq::empty();
    let mut taken: usize = 0;
    while taken < ADVICE_LIMIT && cands.len() > 0
        invariant
            taken == out@.len() == picks.len(),
            taken <= ADVICE_LIMIT,
            cands@.len() + picks.len() == total,
            forall|t: int|
                0 <= t < cands@.len() ==> (#[trigger] cands@[t]).tied(*db, g_sid, g_coll)
                    && spec_candidate(*db, cands@[t].idx as int, g_sid, g_coll, max_level, max_attrs),
            forall|t1: int, t2: int|
                0 <= t1 < t2 < cands@.len() ==> (#[trigger] cands@[t1]).idx != (#[trigger] cands@[t2]).idx,
            forall|t: int, k: int|
                0 <= t < cands@.len() && 0 <= k < picks.len() ==> (#[trigger] cands@[t]).idx as int
                    != #[trigger] picks[k],
            forall|j: int|
                spec_candidate(*db, j, g_sid, g_coll, max_level, max_attrs) ==> (exists|k: int|
                    0 <= k < picks.len() && #[trigger] picks[k] == j) || (exists|t: int|
                    0 <= t < cands@.len() && (#[trigger] cands@[t]).idx == j),
            forall|k: int|
                0 <= k < picks.len() ==> spec_candidate(
                    *db,
                    #[trigger] picks[k],
                    g_sid,
                    g_coll,
                    max_level,
                    max_attrs,
                ),
            forall|a: int, b: int| 0 <= a < b < picks.len() ==> picks[a] != picks[b],
            forall|k: int|
                0 <= k < picks.len() ==> (#[trigger] out@[k]).player_name@
                    == db.players@[picks[k]].name@ && out@[k].new_count == spec_key(
                    *db,
                    picks[k],
                    g_sid,
                    g_coll,
                ).0,
            forall|a: int, b: int|
                0 <= a < b < picks.len() ==> !ranks_before(
                    spec_key(*db, #[trigger] picks[b], g_sid, g_coll),
                    spec_key(*db, #[trigger] picks[a], g_sid, g_coll),
                ),
            forall|t: int, k: int|
                0 <= t < cands@.len() && 0 <= k < picks.len() ==> !ranks_before(
                    spec_key(*db, (#[trigger] cands@[t]).idx as int, g_sid, g_coll),
                    spec_key(*db, #[trigger] picks[k], g_sid, g_coll),
                ),
        decreases ADVICE_LIMIT - taken,
    {
        // Find the best remaining candidate.
        let m = cands.len();
        let mut best: usize = 0;
        let mut b: usize = 1;
        while b < m
            invariant
                1 <= b <= m == cands@.len(),
                best < b,
                forall|t: int|
                    0 <= t < b ==> !ranks_before(
                        spec_key(*db, (#[trigger] cands@[t]).idx as int, g_sid, g_coll),
                        spec_key(*db, cands@[best as int].idx as int, g_sid, g_coll),
                    ),
            decreases m - b,
        {
            let better = cands[b].count > cands[best].count || (cands[b].count == cands[best].count
                && (cands[b].level < cands[best].level || (cands[b].level == cands[best].level
                && cands[b].attrs < cands[best].attrs)));
            if better {
                best = b;
            }
            b = b + 1;
        }
        let ghost prev_cands = cands@;
        let ghost prev_picks = picks;
        let chosen = cands.remove(best);
        proof {
            picks = picks.push(chosen.idx as int);
            assert(chosen == prev_cands[best as int]);
            // Each remaining candidate is one of the previous ones.
            assert forall|t: int|
                0 <= t < cands@.len() implies #[trigger] cands@[t] == (if t < best {
                prev_cands[t]
            } else {
                prev_cands[t + 1]
            }) by {
                assert(cands@ =~= prev_cands.subrange(0, best as int) + prev_cands.subrange(
                    best + 1,
                    prev_cands.len() as int,
                ));
            }
        }
        out.push(
            ScrapBookAdvice { player_name: db.players[chosen.idx].name.clone(), new_count: chosen.count },
        );
        proof {
            // Everyone qualifying is still picked or still waiting.
            assert forall|j: int|
                spec_candidate(*db, j, g_sid, g_coll, max_level, max_attrs) implies (exists|k: int|
                0 <= k < picks.len() && #[trigger] picks[k] == j) || (exists|t: int|
                0 <= t < cands@.len() && (#[trigger] cands@[t]).idx == j) by {
                if j == chosen.idx {
                    assert(picks[picks.len() - 1] == j);
                } else if exists|k: int| 0 <= k < prev_picks.len() && #[trigger] prev_picks[k] == j {
                    let k = choose|k: int| 0 <= k < prev_picks.len() && #[trigger] prev_picks[k] == j;
                    assert(picks[k] == j);
                } else {
                    let t = choose|t: int|
                        0 <= t < prev_cands.len() && (#[trigger] prev_cands[t]).idx == j;
                    if t < best {
                        assert(cands@[t].idx == j);
                    } else if t > best {
                        assert(cands@[t - 1].idx == j);
                    }
                }
            }
        }
        taken = taken + 1;
    }
    proof {
        if taken == ADVICE_LIMIT {
            assert(out@.len() == if total <= ADVICE_LIMIT {
                total
            } else {
                ADVICE_LIMIT as int
            });
        } else {
            assert(cands@.len() == 0);
            assert(out@.len() == total);
        }
        assert forall|j: int, k: int|
            spec_candidate(*db, j, g_sid, g_coll, max_level, max_attrs) && (forall|t: int|
                0 <= t < picks.len() ==> #[trigger] picks[t] != j) && 0 <= k
                < picks.len() implies !ranks_before(
            #[trigger] spec_key(*db, j, g_sid, g_coll),
            spec_key(*db, #[trigger] picks[k], g_sid, g_coll),
        ) by {
            let t = choose|t: int| 0 <= t < cands@.len() && (#[trigger] cands@[t]).idx == j;
            assert(cands@[t].idx as int == j);
        }
    }
    out
}

} // verus!
