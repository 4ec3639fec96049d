//! The player recrawl scheduler.
//!
//! A player row is due once its `next_report_attempt` lies in the past.
//! One claim call selects up to `limit` due rows of a server, in table
//! order, pushes each selected row's deadline forward by the lease window,
//! and returns the selected names. Pushing the deadline at claim time is
//! what keeps two claim calls from handing out the same row.

use vstd::prelude::*;

use crate::api::GetCharactersArgs;
use crate::error::MFBotError;
use crate::resolver::{ServerCache, canon_of_raw, resolve_rel, get_server_id};
use crate::store::{Db, PlayerRow, players_wf, MAX_ROWS};
use crate::time::{minutes, valid_time};

verus! {

/// The lease window of the player recrawl queue, in seconds.
pub const PLAYER_LEASE_SECS: i64 = 1800;

/// Cap on how many players one claim call may hand out.
pub const PLAYER_CLAIM_CAP: u64 = 500;

/// The row is due work for `sid` at `now`.
pub open spec fn player_due(p: PlayerRow, sid: i64, now: i64) -> bool {
    p.server_id == sid && p.next_report_attempt < now && !p.is_removed
}

/// How many of the first `k` rows are due.
pub open spec fn due_count_upto(s: Seq<PlayerRow>, sid: i64, now: i64, k: int) -> int
    decreases k,
{
    if k <= 0 {
        0
    } else {
        due_count_upto(s, sid, now, k - 1) + if player_due(s[k - 1], sid, now) {
            1int
        } else {
            0int
        }
    }
}

/// Row `i` is among the first `limit` due rows, so a claim call with that
/// limit selects it.
pub open spec fn claims_row(s: Seq<PlayerRow>, sid: i64, now: i64, limit: int, i: int) -> bool {
    player_due(s[i], sid, now) && due_count_upto(s, sid, now, i) < limit
}

/// The names of the selected rows among the first `k`, in table order.
pub open spec fn claimed_names_upto(
    s: Seq<PlayerRow>,
    sid: i64,
    now: i64,
    limit: int,
    k: int,
) -> Seq<Seq<char>>
    decreases k,
{
    if k <= 0 {
        Seq::empty()
    } else {
        claimed_names_upto(s, sid, now, limit, k - 1) + if claims_row(s, sid, now, limit, k - 1) {
            seq![s[k - 1].name@]
        } else {
            Seq::empty()
        }
    }
}

/// The selected row with its deadline pushed to the end of the lease
/// window; everything else is untouched.
pub open spec fn lease_pushed(pre: PlayerRow, post: PlayerRow, now: i64) -> bool {
    &&& post.player_id == pre.player_id
    &&& post.server_id == pre.server_id
    &&& post.name@ == pre.name@
    &&& post.level == pre.level
    &&& post.attributes == pre.attributes
    &&& post.xp == pre.xp
    &&& post.honor == pre.honor
    &&& post.equip_count == pre.equip_count
    &&& post.next_report_attempt == now + PLAYER_LEASE_SECS
    &&& post.last_reported == pre.last_reported
    &&& post.last_changed == pre.last_changed
    &&& post.is_removed == pre.is_removed
}

/// How one claim call changes the player table and what it returns: the
/// first `limit` due rows get their deadline pushed forward, no other row
/// moves, and exactly the selected names come back, in table order.
pub open spec fn claim_players_rel(
    pre: Seq<PlayerRow>,
    post: Seq<PlayerRow>,
    sid: i64,
    now: i64,
    limit: int,
    names: Seq<Seq<char>>,
) -> bool {
    &&& post.len() == pre.len()
    &&& forall|i: int|
        0 <= i < pre.len() ==> if claims_row(pre, sid, now, limit, i) {
            lease_pushed(pre[i], #[trigger] post[i], now)
        } else {
            post[i] == pre[i]
        }
    &&& names == claimed_names_upto(pre, sid, now, limit, pre.len() as int)
}

/// Claims up to `limit` due players of `server_id`: pushes each selected
/// row's deadline to `now` plus the lease window and returns the selected
/// names.
#[verifier::loop_isolation(false)]
pub fn claim_players(db: &mut Db, server_id: i64, limit: u64, now: i64) -> (names: Vec<String>)
    requires
        old(db).wf(),
        valid_time(now),
        limit <= PLAYER_CLAIM_CAP,
    ensures
        final(db).wf(),
        final(db).servers@ == old(db).servers@,
        final(db).player_infos@ == old(db).player_infos@,
        final(db).guilds@ == old(db).guilds@,
        final(db).descriptions@ == old(db).descriptions@,
        final(db).blobs@ == old(db).blobs@,
        final(db).equipment@ == old(db).equipment@,
        final(db).todo_hof_pages@ == old(db).todo_hof_pages@,
        claim_players_rel(
            old(db).players@,
            final(db).players@,
            server_id,
            now,
            limit as int,
            names.deep_view(),
        ),
{
    let ghost pre = db.players@;
    let deadline: i64 = now + minutes(30);
    let n = db.players.len();
    let mut names: Vec<String> = Vec::new();
    let mut claimed: u64 = 0;
    let mut i: usize = 0;
    while i < n
        invariant
            i <= n,
            n == db.players@.len() == pre.len(),
            claimed <= limit,
            claimed < limit ==> claimed == due_count_upto(pre, server_id, now, i as int),
            claimed == limit ==> due_count_upto(pre, server_id, now, i as int) >= limit,
            forall|j: int|
                0 <= j < i ==> if claims_row(pre, server_id, now, limit as int, j) {
                    lease_pushed(pre[j], #[trigger] db.players@[j], now)
                } else {
                    db.players@[j] == pre[j]
                },
            forall|j: int| i <= j < n ==> #[trigger] db.players@[j] == pre[j],
            names.deep_view() == claimed_names_upto(pre, server_id, now, limit as int, i as int),
            db.servers@ == old(db).servers@,
            db.player_infos@ == old(db).player_infos@,
            db.guilds@ == old(db).guilds@,
            db.descriptions@ == old(db).descriptions@,
            db.blobs@ == old(db).blobs@,
            db.equipment@ == old(db).equipment@,
            db.todo_hof_pages@ == old(db).todo_hof_pages@,
        decreases n - i,
    {
        let due = claimed < limit && db.players[i].server_id == server_id
            && db.players[i].next_report_attempt < now && !db.players[i].is_removed;
        if due {
            let row = PlayerRow {
                player_id: db.players[i].player_id,
                server_id: db.players[i].server_id,
                name: db.players[i].name.clone(),
                level: db.players[i].level,
                attributes: db.players[i].attributes,
                xp: db.players[i].xp,
                honor: db.players[i].honor,
                equip_count: db.players[i].equip_count,
                next_report_attempt: deadline,
                last_reported: db.players[i].last_reported,
                last_changed: db.players[i].last_changed,
                is_removed: db.players[i].is_removed,
            };
            names.push(db.players[i].name.clone());
            db.players.set(i, row);
            claimed = claimed + 1;
        }
        i = i + 1;
    }
    proof {
        lemma_claim_preserves_wf(pre, db.players@, server_id, now, limit as int);
        lemma_infos_still_ok(*old(db), *db);
    }
    names
}

/// Pushing deadlines keeps the player table well-formed: ids, names and
/// bounded stamps are untouched, and the new deadline is itself bounded.
proof fn lemma_claim_preserves_wf(
    pre: Seq<PlayerRow>,
    post: Seq<PlayerRow>,
    sid: i64,
    now: i64,
    limit: int,
)
    requires
        players_wf(pre),
        valid_time(now),
        post.len() == pre.len(),
        forall|i: int|
            0 <= i < pre.len() ==> if claims_row(pre, sid, now, limit, i) {
                lease_pushed(pre[i], #[trigger] post[i], now)
            } else {
                post[i] == pre[i]
            },
    ensures
        players_wf(post),
{
    assert forall|i: int| 0 <= i < post.len() implies (#[trigger] post[i]).player_id == i + 1
        && crate::store::stored_time(post[i].next_report_attempt) && crate::store::stored_time_opt(
        post[i].last_reported,
    ) && crate::store::stored_time_opt(post[i].last_changed) by {
        assert(pre[i].player_id == i + 1);
    }
    assert forall|i: int, j: int| 0 <= i < j < post.len() implies !((#[trigger] post[i]).server_id
        == (#[trigger] post[j]).server_id && post[i].name@ == post[j].name@) by {
        assert(!(pre[i].server_id == pre[j].server_id && pre[i].name@ == pre[j].name@));
    }
}

/// A change that keeps every player's id, `last_reported` and the table's
/// length keeps the snapshot history well-formed.
proof fn lemma_infos_still_ok(pre: Db, post: Db)
    requires
        crate::store::infos_wf(pre.player_infos@, pre.players@),
        post.player_infos@ == pre.player_infos@,
        post.players@.len() == pre.players@.len(),
        forall|i: int|
            0 <= i < pre.players@.len() ==> (#[trigger] post.players@[i]).last_reported
                == pre.players@[i].last_reported,
    ensures
        crate::store::infos_wf(post.player_infos@, post.players@),
{
    assert forall|k: int| 0 <= k < post.player_infos@.len() implies {
        let pid = (#[trigger] post.player_infos@[k]).player_id;
        &&& 1 <= pid <= post.players@.len()
        &&& post.players@[pid - 1].last_reported matches Option::Some(lr)
            && post.player_infos@[k].fetch_time <= lr
        &&& crate::store::stored_time(post.player_infos@[k].fetch_time)
    } by {
        let pid = post.player_infos@[k].player_id;
        assert(pre.player_infos@[k] == post.player_infos@[k]);
        assert(post.players@[pid - 1].last_reported == pre.players@[pid - 1].last_reported);
    }
}

/// Due counts grow with the prefix.
proof fn lemma_due_count_monotone(s: Seq<PlayerRow>, sid: i64, now: i64, j: int, k: int)
    requires
        j <= k,
    ensures
        due_count_upto(s, sid, now, j) <= due_count_upto(s, sid, now, k),
    decreases k - j,
{
    if j < k {
        lemma_due_count_monotone(s, sid, now, j, k - 1);
    }
}

/// A name comes back from a claim exactly when some selected row in the
/// prefix carries it.
proof fn lemma_claimed_names_membership(
    s: Seq<PlayerRow>,
    sid: i64,
    now: i64,
    limit: int,
    k: int,
    n: Seq<char>,
)
    requires
        k <= s.len(),
    ensures
        claimed_names_upto(s, sid, now, limit, k).contains(n) <==> exists|i: int|
            0 <= i < k && claims_row(s, sid, now, limit, i) && s[i].name@ == n,
    decreases k,
{
    if k > 0 {
        lemma_claimed_names_membership(s, sid, now, limit, k - 1, n);
        let prefix = claimed_names_upto(s, sid, now, limit, k - 1);
        let whole = claimed_names_upto(s, sid, now, limit, k);
        if claims_row(s, sid, now, limit, k - 1) {
            assert(whole == prefix + seq![s[k - 1].name@]);
            if whole.contains(n) {
                let w = choose|w: int| 0 <= w < whole.len() && whole[w] == n;
                if w < prefix.len() {
                    assert(prefix[w] == n);
                    assert(prefix.contains(n));
                } else {
                    assert(s[k - 1].name@ == n);
                }
            }
            if prefix.contains(n) {
                let w = choose|w: int| 0 <= w < prefix.len() && prefix[w] == n;
                assert(whole[w] == n);
                assert(whole.contains(n));
            }
            if s[k - 1].name@ == n {
                assert(whole[whole.len() - 1] == n);
                assert(whole.contains(n));
            }
        } else {
            assert(whole =~= prefix);
        }
    }
}

/// When no row in the prefix is selected, nothing comes back.
proof fn lemma_no_claims_empty(s: Seq<PlayerRow>, sid: i64, now: i64, limit: int, k: int)
    requires
        forall|j: int| 0 <= j < k ==> !claims_row(s, sid, now, limit, j),
    ensures
        claimed_names_upto(s, sid, now, limit, k).len() == 0,
    decreases k,
{
    if k > 0 {
        lemma_no_claims_empty(s, sid, now, limit, k - 1);
    }
}

/// Lease exclusivity: two claim calls against the same server at the same
/// time never hand out a name twice; and when the first call's limit
/// covers the whole due set, the first call returns exactly the due names
/// and the second returns nothing.
pub proof fn lemma_lease_exclusivity(
    pre: Seq<PlayerRow>,
    mid: Seq<PlayerRow>,
    post: Seq<PlayerRow>,
    sid: i64,
    now: i64,
    l1: int,
    l2: int,
    names1: Seq<Seq<char>>,
    names2: Seq<Seq<char>>,
)
    requires
        players_wf(pre),
        claim_players_rel(pre, mid, sid, now, l1, names1),
        claim_players_rel(mid, post, sid, now, l2, names2),
    ensures
        forall|n: Seq<char>| !(names1.contains(n) && names2.contains(n)),
        l1 >= due_count_upto(pre, sid, now, pre.len() as int) ==> names2.len() == 0,
        l1 >= due_count_upto(pre, sid, now, pre.len() as int) ==> forall|n: Seq<char>|
            names1.contains(n) <==> exists|i: int|
                0 <= i < pre.len() && player_due(#[trigger] pre[i], sid, now) && pre[i].name@ == n,
{
    let len = pre.len() as int;
    let total = due_count_upto(pre, sid, now, len);

    // A row the second call selects was left untouched by the first call.
    assert forall|j: int| 0 <= j < len && claims_row(mid, sid, now, l2, j) implies mid[j] == pre[j]
        && player_due(pre[j], sid, now) && !claims_row(pre, sid, now, l1, j) by {
        assert(player_due(mid[j], sid, now));
        if claims_row(pre, sid, now, l1, j) {
            assert(lease_pushed(pre[j], mid[j], now));
            assert(mid[j].next_report_attempt == now + PLAYER_LEASE_SECS);
            assert(!player_due(mid[j], sid, now));
        }
    }

    // Disjointness of the two result sets.
    assert forall|n: Seq<char>| !(names1.contains(n) && names2.contains(n)) by {
        lemma_claimed_names_membership(pre, sid, now, l1, len, n);
        lemma_claimed_names_membership(mid, sid, now, l2, len, n);
        if names1.contains(n) && names2.contains(n) {
            let i = choose|i: int|
                0 <= i < len && claims_row(pre, sid, now, l1, i) && pre[i].name@ == n;
            let j = choose|j: int|
                0 <= j < len && claims_row(mid, sid, now, l2, j) && mid[j].name@ == n;
            assert(mid[j] == pre[j]);
            assert(pre[i].server_id == sid && pre[j].server_id == sid);
            assert(pre[i].name@ == pre[j].name@);
            if i != j {
                assert(!(pre[i].server_id == pre[j].server_id && pre[i].name@ == pre[j].name@));
            }
            assert(i == j);
            assert(false);
        }
    }

    // With a covering limit, the first call takes the whole due set and
    // the second finds nothing due.
    if l1 >= total {
        assert forall|j: int| 0 <= j < len implies !claims_row(mid, sid, now, l2, j) by {
            if claims_row(mid, sid, now, l2, j) {
                assert(due_count_upto(pre, sid, now, j) >= l1);
                assert(player_due(pre[j], sid, now));
                assert(due_count_upto(pre, sid, now, j + 1) == due_count_upto(pre, sid, now, j)
                    + 1);
                lemma_due_count_monotone(pre, sid, now, j + 1, len);
                assert(false);
            }
        }
        lemma_no_claims_empty(mid, sid, now, l2, len);
        assert(names2.len() == 0);

        assert forall|i: int|
            0 <= i < len && player_due(#[trigger] pre[i], sid, now) implies claims_row(
            pre,
            sid,
            now,
            l1,
            i,
        ) by {
            assert(due_count_upto(pre, sid, now, i + 1) == due_count_upto(pre, sid, now, i) + 1);
            lemma_due_count_monotone(pre, sid, now, i + 1, len);
        }
        assert forall|n: Seq<char>|
            names1.contains(n) <==> exists|i: int|
                0 <= i < pre.len() && player_due(#[trigger] pre[i], sid, now) && pre[i].name@
                    == n by {
            lemma_claimed_names_membership(pre, sid, now, l1, len, n);
        }
    }
}

/// The claim limit after the server-side cap.
pub open spec fn spec_capped_limit(limit: u64) -> int {
    if limit > PLAYER_CLAIM_CAP {
        PLAYER_CLAIM_CAP as int
    } else {
        limit as int
    }
}

/// The player recrawl claim endpoint: resolves the server and claims up
/// to the capped limit of due players, pushing each claimed row's lease
/// forward.
pub fn get_characters_to_crawl(
    db: &mut Db,
    cache: &mut ServerCache,
    args: &GetCharactersArgs,
    now: i64,
) -> (r: Result<Vec<String>, MFBotError>)
    requires
        old(db).wf(),
        old(cache).consistent(old(db).servers@),
        valid_time(now),
    ensures
        final(db).wf(),
        final(cache).consistent(final(db).servers@),
        match r {
            Result::Ok(names) => exists|sid: i64, mid: Db|
                {
                    &&& #[trigger] resolve_rel(*old(db), mid, args.server@, Result::Ok(sid))
                    &&& mid.players@ == old(db).players@
                    &&& final(db).servers@ == mid.servers@
                    &&& claim_players_rel(
                        old(db).players@,
                        final(db).players@,
                        sid,
                        now,
                        spec_capped_limit(args.limit),
                        names.deep_view(),
                    )
                },
            Result::Err(e) => {
                &&& final(db).players@ == old(db).players@
                &&& match e {
                    MFBotError::InvalidServer => canon_of_raw(args.server@) is None,
                    MFBotError::DBError(_) => old(db).servers@.len() >= MAX_ROWS,
                    _ => false,
                }
            },
        },
        final(db).player_infos@ == old(db).player_infos@,
        final(db).guilds@ == old(db).guilds@,
        final(db).descriptions@ == old(db).descriptions@,
        final(db).blobs@ == old(db).blobs@,
        final(db).equipment@ == old(db).equipment@,
        final(db).todo_hof_pages@ == old(db).todo_hof_pages@,
{
    let sid = match get_server_id(db, cache, &args.server, now) {
        Ok(s) => s,
        Err(e) => {
            return Err(e);
        },
    };
    let ghost mid = *db;
    let limit = if args.limit > PLAYER_CLAIM_CAP {
        PLAYER_CLAIM_CAP
    } else {
        args.limit
    };
    let names = claim_players(db, sid, limit, now);
    proof {
        assert(resolve_rel(*old(db), mid, args.server@, Result::Ok(sid)));
    }
    Ok(names)
}

} // verus!
