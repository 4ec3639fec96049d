//! The hall-of-fame page scheduler.
//!
//! Per server the page queue is either idle (no work rows) or active.
//! A claim call first checks whether the server's last crawl cycle is
//! older than the cycle TTL; if so it wins the reseed: the server's
//! `last_hof_crawl` moves to now (the conditional update that keeps two
//! callers from reseeding twice), all work rows of the server are dropped,
//! and one immediately-due row per page of the current listing is
//! inserted. Claiming then follows the same lease pattern as the player
//! queue, with a shorter window.

use vstd::prelude::*;

use crate::api::{GetHofArgs, ReportHofArgs};
use crate::error::MFBotError;
use crate::resolver::{ServerCache, canon_of_raw, resolve_rel, server_with_url_id, get_server_id};
use crate::store::{
    Db, PlayerRow, ServerRow, TodoHofPageRow, players_wf, todo_wf, stored_time, MAX_ROWS,
};
use crate::text::{spec_split, spec_trim, spec_ends_with, split_str, trim_sep, str_ends_with};
use crate::time::{minutes, valid_time};
use crate::wire::{HofEntry, spec_hof_entry, parse_hof_entry};

verus! {

/// The lease window of the page queue, in seconds.
pub const HOF_LEASE_SECS: i64 = 900;

/// Cap on how many pages one claim call may hand out.
pub const HOF_CLAIM_CAP: u64 = 100;

/// Age of a crawl cycle after which the next claim starts a new one:
/// three days, in seconds.
pub const HOF_CYCLE_TTL_SECS: i64 = 259_200;

/// Players per listing page of the external game.
pub const HOF_PAGE_SIZE: u64 = 51;

/// The page row is due work for `sid` at `now`.
pub open spec fn page_due(t: TodoHofPageRow, sid: i64, now: i64) -> bool {
    t.server_id == sid && t.next_report_attempt < now
}

/// How many of the first `k` page rows are due.
pub open spec fn page_due_count_upto(s: Seq<TodoHofPageRow>, sid: i64, now: i64, k: int) -> int
    decreases k,
{
    if k <= 0 {
        0
    } else {
        page_due_count_upto(s, sid, now, k - 1) + if page_due(s[k - 1], sid, now) {
            1int
        } else {
            0int
        }
    }
}

/// Page row `i` is among the first `limit` due rows.
pub open spec fn claims_page(s: Seq<TodoHofPageRow>, sid: i64, now: i64, limit: int, i: int) -> bool {
    page_due(s[i], sid, now) && page_due_count_upto(s, sid, now, i) < limit
}

/// The indices of the selected page rows among the first `k`, in table
/// order.
pub open spec fn claimed_pages_upto(
    s: Seq<TodoHofPageRow>,
    sid: i64,
    now: i64,
    limit: int,
    k: int,
) -> Seq<i64>
    decreases k,
{
    if k <= 0 {
        Seq::empty()
    } else {
        claimed_pages_upto(s, sid, now, limit, k - 1) + if claims_page(s, sid, now, limit, k - 1) {
            seq![s[k - 1].idx]
        } else {
            Seq::empty()
        }
    }
}

/// How one claim pass changes the page queue and what it returns.
pub open spec fn claim_pages_rel(
    pre: Seq<TodoHofPageRow>,
    post: Seq<TodoHofPageRow>,
    sid: i64,
    now: i64,
    limit: int,
    pages: Seq<i64>,
) -> bool {
    &&& post.len() == pre.len()
    &&& forall|i: int|
        0 <= i < pre.len() ==> if claims_page(pre, sid, now, limit, i) {
            #[trigger] post[i] == (TodoHofPageRow {
                server_id: pre[i].server_id,
                idx: pre[i].idx,
                next_report_attempt: (now + HOF_LEASE_SECS) as i64,
            })
        } else {
            post[i] == pre[i]
        }
    &&& pages == claimed_pages_upto(pre, sid, now, limit, pre.len() as int)
}

/// The number of listing pages: the player count divided by the page
/// size, rounded up.
pub open spec fn spec_total_pages(player_count: u32) -> int {
    ((player_count as int) + (HOF_PAGE_SIZE as int) - 1) / (HOF_PAGE_SIZE as int)
}

/// The freshly seeded work rows of a new crawl cycle: one immediately-due
/// row per page.
pub open spec fn new_cycle_pages(sid: i64, total: int) -> Seq<TodoHofPageRow> {
    Seq::new(total as nat, |i: int| TodoHofPageRow { server_id: sid, idx: i as i64, next_report_attempt: 0 })
}

/// Whether a claim at `now` starts a new crawl cycle for this server.
pub open spec fn cycle_expired(server: ServerRow, now: i64) -> bool {
    server.last_hof_crawl < now - HOF_CYCLE_TTL_SECS
}

/// The page queue as it stands after the reseed check: on an expired
/// cycle the server's rows are replaced by the fresh page list, otherwise
/// nothing moves.
pub open spec fn seeded_todos(
    pre: Seq<TodoHofPageRow>,
    server: ServerRow,
    sid: i64,
    now: i64,
    player_count: u32,
) -> Seq<TodoHofPageRow> {
    if cycle_expired(server, now) {
        pre.filter(|t: TodoHofPageRow| t.server_id != sid) + new_cycle_pages(
            sid,
            spec_total_pages(player_count),
        )
    } else {
        pre
    }
}

/// How one page-claim call moves the server row and the page queue: the
/// crawl stamp moves forward exactly when the cycle expired (the
/// conditional update that arbitrates the reseed race), the queue is
/// reseeded in that case, and the lease pass runs over the seeded queue.
pub open spec fn hof_claim_rel(
    pre: Db,
    post: Db,
    sid: i64,
    player_count: u32,
    limit: int,
    now: i64,
    pages: Seq<i64>,
) -> bool {
    &&& post.servers@.len() == pre.servers@.len()
    &&& forall|i: int|
        0 <= i < pre.servers@.len() && i != sid - 1 ==> post.servers@[i] == pre.servers@[i]
    &&& ({
        let pre_row = pre.servers@[sid - 1];
        let post_row = post.servers@[sid - 1];
        &&& post_row.server_id == pre_row.server_id
        &&& post_row.url@ == pre_row.url@
        &&& post_row.last_hof_crawl == if cycle_expired(pre_row, now) {
            now as int
        } else {
            pre_row.last_hof_crawl as int
        }
    })
    &&& claim_pages_rel(
        seeded_todos(pre.todo_hof_pages@, pre.servers@[sid - 1], sid, now, player_count),
        post.todo_hof_pages@,
        sid,
        now,
        limit,
        pages,
    )
}

/// Claims up to `limit` due hall-of-fame pages of `server_id`, reseeding
/// the page list first when the server's crawl cycle has expired. Returns
/// the claimed page indices.
#[verifier::loop_isolation(false)]
pub fn claim_hof_pages(db: &mut Db, server_id: i64, player_count: u32, limit: u64, now: i64) -> (pages: Vec<i64>)
    requires
        old(db).wf(),
        valid_time(now),
        limit <= HOF_CLAIM_CAP,
        1 <= server_id <= old(db).servers@.len(),
    ensures
        final(db).wf(),
        final(db).players@ == old(db).players@,
        final(db).player_infos@ == old(db).player_infos@,
        final(db).guilds@ == old(db).guilds@,
        final(db).descriptions@ == old(db).descriptions@,
        final(db).blobs@ == old(db).blobs@,
        final(db).equipment@ == old(db).equipment@,
        hof_claim_rel(*old(db), *final(db), server_id, player_count, limit as int, now, pages@),
{
    let ns = db.servers.len();
    assert(ns == old(db).servers@.len() && 0 <= server_id - 1 < ns);
    let sidx: usize = (server_id - 1) as usize;
    let ghost pre_server = db.servers@[server_id - 1];
    if db.servers[sidx].last_hof_crawl < now - HOF_CYCLE_TTL_SECS {
        // This caller wins the reseed: move the crawl stamp forward and
        // regenerate the page list.
        let srow = ServerRow {
            server_id: db.servers[sidx].server_id,
            url: db.servers[sidx].url.clone(),
            last_hof_crawl: now,
        };
        db.servers.set(sidx, srow);

        let mut kept: Vec<TodoHofPageRow> = Vec::new();
        let n = db.todo_hof_pages.len();
        let mut i: usize = 0;
        while i < n
            invariant
                i <= n == db.todo_hof_pages@.len(),
                kept@ == db.todo_hof_pages@.subrange(0, i as int).filter(
                    |t: TodoHofPageRow| t.server_id != server_id,
                ),
            decreases n - i,
        {
            proof {
                assert(db.todo_hof_pages@.subrange(0, i + 1 as int).drop_last()
                    =~= db.todo_hof_pages@.subrange(0, i as int));
                reveal(Seq::filter);
            }
            let t = db.todo_hof_pages[i];
            if t.server_id != server_id {
                kept.push(t);
            }
            i = i + 1;
        }
        proof {
            assert(db.todo_hof_pages@.subrange(0, n as int) =~= db.todo_hof_pages@);
        }

        let total: u64 = ((player_count as u64) + (HOF_PAGE_SIZE - 1)) / HOF_PAGE_SIZE;
        let ghost kept_len = kept@.len();
        let mut p: u64 = 0;
        while p < total
            invariant
                p <= total,
                kept@.len() == kept_len + p,
                kept@.subrange(0, kept_len as int) == db.todo_hof_pages@.filter(
                    |t: TodoHofPageRow| t.server_id != server_id,
                ),
                forall|j: int|
                    kept_len <= j < kept@.len() ==> #[trigger] kept@[j] == (TodoHofPageRow {
                        server_id,
                        idx: (j - kept_len) as i64,
                        next_report_attempt: 0,
                    }),
            decreases total - p,
        {
            kept.push(TodoHofPageRow { server_id, idx: p as i64, next_report_attempt: 0 });
            p = p + 1;
        }
        proof {
            assert(total as int == spec_total_pages(player_count));
            let seeded = seeded_todos(
                old(db).todo_hof_pages@,
                pre_server,
                server_id,
                now,
                player_count,
            );
            let fresh = new_cycle_pages(server_id, spec_total_pages(player_count));
            assert(cycle_expired(pre_server, now));
            assert(kept@.len() == seeded.len());
            assert forall|j: int| 0 <= j < kept@.len() implies kept@[j] == seeded[j] by {
                if j < kept_len {
                    assert(kept@[j] == kept@.subrange(0, kept_len as int)[j]);
                } else {
                    assert(seeded[j] == fresh[j - kept_len]);
                    assert(fresh[j - kept_len].idx == (j - kept_len) as i64);
                }
            }
            assert(kept@ =~= seeded);
        }
        db.todo_hof_pages = kept;
        proof {
            lemma_seeded_wf(
                old(db).todo_hof_pages@,
                db.todo_hof_pages@,
                server_id,
                spec_total_pages(player_count),
            );
        }
    }

    claim_pages(db, server_id, limit, now)
}

/// Every filtered element is one of the source's elements.
proof fn lemma_filter_membership<A>(s: Seq<A>, pred: spec_fn(A) -> bool)
    ensures
        forall|i: int|
            0 <= i < s.filter(pred).len() ==> exists|w: int|
                0 <= w < s.len() && s[w] == #[trigger] s.filter(pred)[i],
    decreases s.len(),
{
    reveal(Seq::filter);
    if s.len() > 0 {
        let sub = s.drop_last();
        lemma_filter_membership(sub, pred);
        assert forall|i: int| 0 <= i < s.filter(pred).len() implies exists|w: int|
            0 <= w < s.len() && s[w] == #[trigger] s.filter(pred)[i] by {
            if i < sub.filter(pred).len() {
                let w = choose|w: int| 0 <= w < sub.len() && sub[w] == sub.filter(pred)[i];
                assert(s[w] == s.filter(pred)[i]);
            } else {
                assert(s.filter(pred)[i] == s[s.len() - 1]);
            }
        }
    }
}

/// Dropping rows keeps the page queue's key uniqueness and its stamp
/// bounds.
proof fn lemma_filter_todo_wf(s: Seq<TodoHofPageRow>, pred: spec_fn(TodoHofPageRow) -> bool)
    requires
        todo_wf(s),
    ensures
        todo_wf(s.filter(pred)),
    decreases s.len(),
{
    reveal(Seq::filter);
    if s.len() > 0 {
        let sub = s.drop_last();
        assert(todo_wf(sub));
        lemma_filter_todo_wf(sub, pred);
        let subf = sub.filter(pred);
        let f = s.filter(pred);
        lemma_filter_membership(sub, pred);
        if pred(s.last()) {
            assert(f == subf.push(s.last()));
            assert forall|a: int, b: int| 0 <= a < b < f.len() implies !((#[trigger] f[a]).server_id
                == (#[trigger] f[b]).server_id && f[a].idx == f[b].idx) by {
                if b == f.len() - 1 {
                    assert(f[a] == subf[a]);
                    let w = choose|w: int| 0 <= w < sub.len() && sub[w] == subf[a];
                    assert(s[w] == f[a] && s[s.len() - 1] == f[b]);
                    assert(!(s[w].server_id == s[s.len() - 1].server_id && s[w].idx == s[s.len()
                        - 1].idx));
                }
            }
            assert forall|a: int| 0 <= a < f.len() implies stored_time(
                (#[trigger] f[a]).next_report_attempt,
            ) by {
                if a < subf.len() {
                    assert(f[a] == subf[a]);
                } else {
                    assert(f[a] == s[s.len() - 1]);
                }
            }
        } else {
            assert(f == subf);
        }
    }
}

/// The reseeded queue is well-formed: kept rows belong to other servers,
/// fresh rows have distinct indices, and fresh stamps are the epoch.
proof fn lemma_seeded_wf(pre: Seq<TodoHofPageRow>, post: Seq<TodoHofPageRow>, sid: i64, total: int)
    requires
        todo_wf(pre),
        0 <= total < 0x1_0000_0000,
        post == pre.filter(|t: TodoHofPageRow| t.server_id != sid) + new_cycle_pages(sid, total),
    ensures
        todo_wf(post),
{
    let pred = |t: TodoHofPageRow| t.server_id != sid;
    let kept = pre.filter(pred);
    let fresh = new_cycle_pages(sid, total);
    lemma_filter_todo_wf(pre, pred);
    assert forall|i: int| 0 <= i < kept.len() implies (#[trigger] kept[i]).server_id != sid by {
        pre.lemma_filter_pred(pred, i);
    }
    assert forall|a: int, b: int| 0 <= a < b < post.len() implies !((#[trigger] post[a]).server_id
        == (#[trigger] post[b]).server_id && post[a].idx == post[b].idx) by {
        if a < kept.len() && b < kept.len() {
            assert(post[a] == kept[a] && post[b] == kept[b]);
        } else if a < kept.len() {
            assert(post[a] == kept[a] && post[b] == fresh[b - kept.len()]);
            assert(post[b].server_id == sid && post[a].server_id != sid);
        } else {
            assert(post[a] == fresh[a - kept.len()] && post[b] == fresh[b - kept.len()]);
            assert(post[a].idx == a - kept.len() && post[b].idx == b - kept.len());
        }
    }
    assert forall|a: int| 0 <= a < post.len() implies stored_time(
        (#[trigger] post[a]).next_report_attempt,
    ) by {
        if a < kept.len() {
            assert(post[a] == kept[a]);
        } else {
            assert(post[a] == fresh[a - kept.len()]);
        }
    }
}

/// The lease pass over the page queue: claims up to `limit` due rows of
/// `server_id` and returns their page indices.
#[verifier::loop_isolation(false)]
fn claim_pages(db: &mut Db, server_id: i64, limit: u64, now: i64) -> (pages: Vec<i64>)
    requires
        old(db).wf(),
        valid_time(now),
        limit <= HOF_CLAIM_CAP,
    ensures
        final(db).wf(),
        final(db).servers@ == old(db).servers@,
        final(db).players@ == old(db).players@,
        final(db).player_infos@ == old(db).player_infos@,
        final(db).guilds@ == old(db).guilds@,
        final(db).descriptions@ == old(db).descriptions@,
        final(db).blobs@ == old(db).blobs@,
        final(db).equipment@ == old(db).equipment@,
        claim_pages_rel(
            old(db).todo_hof_pages@,
            final(db).todo_hof_pages@,
            server_id,
            now,
            limit as int,
            pages@,
        ),
{
    let ghost pre = db.todo_hof_pages@;
    let deadline: i64 = now + minutes(15);
    let n = db.todo_hof_pages.len();
    let mut pages: Vec<i64> = Vec::new();
    let mut claimed: u64 = 0;
    let mut i: usize = 0;
    while i < n
        invariant
            i <= n,
            n == db.todo_hof_pages@.len() == pre.len(),
            claimed <= limit,
            claimed < limit ==> claimed == page_due_count_upto(pre, server_id, now, i as int),
            claimed == limit ==> page_due_count_upto(pre, server_id, now, i as int) >= limit,
            forall|j: int|
                0 <= j < i ==> if claims_page(pre, server_id, now, limit as int, j) {
                    #[trigger] db.todo_hof_pages@[j] == (TodoHofPageRow {
                        server_id: pre[j].server_id,
                        idx: pre[j].idx,
                        next_report_attempt: (now + HOF_LEASE_SECS) as i64,
                    })
                } else {
                    db.todo_hof_pages@[j] == pre[j]
                },
            forall|j: int| i <= j < n ==> #[trigger] db.todo_hof_pages@[j] == pre[j],
            pages@ == claimed_pages_upto(pre, server_id, now, limit as int, i as int),
            db.servers@ == old(db).servers@,
            db.players@ == old(db).players@,
            db.player_infos@ == old(db).player_infos@,
            db.guilds@ == old(db).guilds@,
            db.descriptions@ == old(db).descriptions@,
            db.blobs@ == old(db).blobs@,
            db.equipment@ == old(db).equipment@,
        decreases n - i,
    {
        let due = claimed < limit && db.todo_hof_pages[i].server_id == server_id
            && db.todo_hof_pages[i].next_report_attempt < now;
        if due {
            let row = TodoHofPageRow {
                server_id: db.todo_hof_pages[i].server_id,
                idx: db.todo_hof_pages[i].idx,
                next_report_attempt: deadline,
            };
            pages.push(db.todo_hof_pages[i].idx);
            db.todo_hof_pages.set(i, row);
            claimed = claimed + 1;
        }
        i = i + 1;
    }
    proof {
        assert forall|a: int, b: int| 0 <= a < b < db.todo_hof_pages@.len() implies !((
        #[trigger] db.todo_hof_pages@[a]).server_id == (#[trigger] db.todo_hof_pages@[b]).server_id
            && db.todo_hof_pages@[a].idx == db.todo_hof_pages@[b].idx) by {
            assert(!(pre[a].server_id == pre[b].server_id && pre[a].idx == pre[b].idx));
        }
    }
    pages
}

/// The trailing values of an empty listing slot; a page's entries end at
/// the first entry carrying it.
pub open spec fn empty_slot_suffix() -> Seq<char> {
    seq![',', ',', ',', '0', ',', '0', ',', '0', ',']
}

/// The (name, level) records a run of listing entries yields: entries are
/// read in order up to the first empty-slot sentinel, and entries that do
/// not parse are skipped.
pub open spec fn collect_entries(es: Seq<Seq<char>>) -> Seq<(Seq<char>, u64)>
    decreases es.len(),
{
    if es.len() == 0 {
        Seq::empty()
    } else if spec_ends_with(es[0], empty_slot_suffix()) {
        Seq::empty()
    } else {
        (match spec_hof_entry(es[0]) {
            Option::Some(p) => seq![p],
            Option::None => Seq::empty(),
        }) + collect_entries(es.drop_first())
    }
}

/// A run of entries yields at most one record per entry.
proof fn lemma_collect_entries_len(es: Seq<Seq<char>>)
    ensures
        collect_entries(es).len() <= es.len(),
    decreases es.len(),
{
    if es.len() > 0 && !spec_ends_with(es[0], empty_slot_suffix()) {
        lemma_collect_entries_len(es.drop_first());
    }
}

/// Splitting yields one more part than there are separators, so never
/// more than the text's length plus one.
proof fn lemma_split_len(s: Seq<char>, sep: char)
    ensures
        spec_split(s, sep).len() <= s.len() + 1,
    decreases s.len(),
{
    if s.len() > 0 {
        lemma_split_len(s.drop_first(), sep);
    }
}

/// Trimming never lengthens text.
proof fn lemma_trim_len(s: Seq<char>, p: spec_fn(char) -> bool)
    ensures
        crate::text::spec_trim(s, p).len() <= s.len(),
{
    lemma_trim_front_len(s, p);
    lemma_trim_back_len(crate::text::spec_trim_front(s, p), p);
}

proof fn lemma_trim_front_len(s: Seq<char>, p: spec_fn(char) -> bool)
    ensures
        crate::text::spec_trim_front(s, p).len() <= s.len(),
    decreases s.len(),
{
    if s.len() > 0 && p(s[0]) {
        lemma_trim_front_len(s.drop_first(), p);
    }
}

proof fn lemma_trim_back_len(s: Seq<char>, p: spec_fn(char) -> bool)
    ensures
        crate::text::spec_trim_back(s, p).len() <= s.len(),
    decreases s.len(),
{
    if s.len() > 0 && p(s.last()) {
        lemma_trim_back_len(s.drop_last(), p);
    }
}

/// The records one raw page text yields: the page is trimmed of outer
/// semicolons, split on semicolons, and read entry by entry.
pub open spec fn spec_page_entries(info: Seq<char>) -> Seq<(Seq<char>, u64)> {
    collect_entries(spec_split(spec_trim(info, |c: char| c == ';'), ';'))
}

/// A page yields fewer records than the text has characters, plus one.
pub proof fn lemma_page_entries_len(info: Seq<char>)
    ensures
        spec_page_entries(info).len() <= info.len() + 1,
{
    let trimmed = spec_trim(info, |c: char| c == ';');
    lemma_collect_entries_len(spec_split(trimmed, ';'));
    lemma_split_len(trimmed, ';');
    lemma_trim_len(info, |c: char| c == ';');
}

/// Parses one raw page text into its (name, level) records.
#[verifier::loop_isolation(false)]
pub fn parse_hof_page(info: &str) -> (entries: Vec<HofEntry>)
    ensures
        entries@.len() == spec_page_entries(info@).len(),
        forall|i: int|
            0 <= i < entries@.len() ==> ((#[trigger] entries@[i]).name@, entries@[i].level)
                == spec_page_entries(info@)[i] && entries@[i].level <= u32::MAX,
{
    let trimmed = trim_sep(info, ';');
    let parts = split_str(trimmed.as_str(), ';');
    let ghost es = spec_split(spec_trim(info@, |c: char| c == ';'), ';');
    let sentinel = ",,,0,0,0,";
    proof {
        reveal_strlit(",,,0,0,0,");
        assert(sentinel@ =~= empty_slot_suffix());
    }
    let mut entries: Vec<HofEntry> = Vec::new();
    proof {
        assert(es.subrange(0, es.len() as int) =~= es);
        assert(collect_entries(es) =~= Seq::new(0nat, |k: int| ((entries@[k].name@, entries@[k].level)))
            + collect_entries(es.subrange(0, es.len() as int)));
    }
    let n = parts.len();
    let mut i: usize = 0;
    while i < n
        invariant
            i <= n == parts@.len(),
            parts.deep_view() == es,
            sentinel@ == empty_slot_suffix(),
            entries@.len() == collect_entries(es).len() - collect_entries(
                es.subrange(i as int, es.len() as int),
            ).len(),
            collect_entries(es) =~= Seq::new(
                entries@.len() as nat,
                |k: int| ((entries@[k].name@, entries@[k].level)),
            ) + collect_entries(es.subrange(i as int, es.len() as int)),
            forall|k: int| 0 <= k < entries@.len() ==> (#[trigger] entries@[k]).level <= u32::MAX,
        decreases n - i,
    {
        proof {
            assert(parts@[i as int]@ == es[i as int]);
            assert(es.subrange(i as int, es.len() as int)[0] == es[i as int]);
            assert(es.subrange(i as int, es.len() as int).drop_first() =~= es.subrange(
                i + 1,
                es.len() as int,
            ));
        }
        if str_ends_with(parts[i].as_str(), sentinel) {
            proof {
                assert(collect_entries(es.subrange(i as int, es.len() as int)) =~= Seq::<(
                    Seq<char>,
                    u64,
                )>::empty());
            }
            break ;
        }
        match parse_hof_entry(parts[i].as_str()) {
            Some(e) => {
                let ghost prev = entries@;
                entries.push(e);
                proof {
                    assert(collect_entries(es.subrange(i as int, es.len() as int)) =~= seq![
                        (
                            entries@[prev.len() as int].name@,
                            entries@[prev.len() as int].level,
                        ),
                    ] + collect_entries(es.subrange(i + 1, es.len() as int)));
                    assert(collect_entries(es) =~= Seq::new(
                        entries@.len() as nat,
                        |k: int| ((entries@[k].name@, entries@[k].level)),
                    ) + collect_entries(es.subrange(i + 1, es.len() as int)));
                }
            },
            None => {
                proof {
                    assert(collect_entries(es.subrange(i as int, es.len() as int))
                        =~= collect_entries(es.subrange(i + 1, es.len() as int)));
                }
            },
        }
        i = i + 1;
    }
    proof {
        if i == n {
            assert(collect_entries(es.subrange(n as int, es.len() as int)) =~= Seq::<(
                Seq<char>,
                u64,
            )>::empty());
        }
        assert(collect_entries(es) =~= Seq::new(
            entries@.len() as nat,
            |k: int| ((entries@[k].name@, entries@[k].level)),
        ));
        assert forall|k: int| 0 <= k < entries@.len() implies ((#[trigger] entries@[k]).name@,
        entries@[k].level) == spec_page_entries(info@)[k] by {
            assert(spec_page_entries(info@)[k] == Seq::new(
                entries@.len() as nat,
                |j: int| ((entries@[j].name@, entries@[j].level)),
            )[k]);
        }
    }
    entries
}

/// A player row as hall-of-fame discovery creates it: name and level
/// only, immediately due for a first crawl, everything else unknown.
pub open spec fn hof_row_matches(
    row: PlayerRow,
    pid: int,
    sid: i64,
    name: Seq<char>,
    level: u64,
) -> bool {
    &&& row.player_id == pid
    &&& row.server_id == sid
    &&& row.name@ == name
    &&& row.level == Option::Some(level as i64)
    &&& row.attributes is None
    &&& row.xp is None
    &&& row.honor is None
    &&& row.equip_count is None
    &&& row.next_report_attempt == 0
    &&& row.last_reported is None
    &&& row.last_changed is None
    &&& !row.is_removed
}

/// One first-seen-wins insert: a known (server, name) identity is left
/// alone, a new one is appended as a fresh discovery row.
pub open spec fn hof_step(
    mid: Seq<PlayerRow>,
    post: Seq<PlayerRow>,
    sid: i64,
    e: (Seq<char>, u64),
) -> bool {
    if crate::store::has_player_key(mid, sid, e.0) {
        post == mid
    } else {
        &&& post.len() == mid.len() + 1
        &&& post.drop_last() == mid
        &&& hof_row_matches(post.last(), (mid.len() + 1) as int, sid, e.0, e.1)
    }
}

/// How a run of discovered records changes the player table: each record
/// in order is inserted first-seen-wins.
pub open spec fn hof_insert_rel(
    pre: Seq<PlayerRow>,
    post: Seq<PlayerRow>,
    sid: i64,
    entries: Seq<(Seq<char>, u64)>,
) -> bool
    decreases entries.len(),
{
    if entries.len() == 0 {
        post == pre
    } else if crate::store::has_player_key(pre, sid, entries[0].0) {
        hof_insert_rel(pre, post, sid, entries.drop_first())
    } else {
        exists|mid: Seq<PlayerRow>|
            {
                &&& mid.len() == pre.len() + 1
                &&& #[trigger] mid.drop_last() == pre
                &&& hof_row_matches(mid.last(), (pre.len() + 1) as int, sid, entries[0].0, entries[0].1)
                &&& hof_insert_rel(mid, post, sid, entries.drop_first())
            }
    }
}

/// Extending a run of inserts by one more record.
proof fn lemma_hof_insert_snoc(
    pre: Seq<PlayerRow>,
    mid: Seq<PlayerRow>,
    post: Seq<PlayerRow>,
    sid: i64,
    entries: Seq<(Seq<char>, u64)>,
    e: (Seq<char>, u64),
)
    requires
        hof_insert_rel(pre, mid, sid, entries),
        hof_step(mid, post, sid, e),
    ensures
        hof_insert_rel(pre, post, sid, entries.push(e)),
    decreases entries.len(),
{
    let snoc = entries.push(e);
    assert(snoc[0] == if entries.len() == 0 {
        e
    } else {
        entries[0]
    });
    if entries.len() == 0 {
        assert(mid == pre);
        if crate::store::has_player_key(pre, sid, e.0) {
            assert(post == mid);
            assert(snoc.drop_first() =~= Seq::<(Seq<char>, u64)>::empty());
        } else {
            assert(snoc.drop_first() =~= Seq::<(Seq<char>, u64)>::empty());
            assert(post.drop_last() == pre && hof_insert_rel(post, post, sid, snoc.drop_first()));
        }
    } else {
        assert(snoc.drop_first() =~= entries.drop_first().push(e));
        if crate::store::has_player_key(pre, sid, entries[0].0) {
            lemma_hof_insert_snoc(pre, mid, post, sid, entries.drop_first(), e);
        } else {
            let m1 = choose|m1: Seq<PlayerRow>|
                {
                    &&& m1.len() == pre.len() + 1
                    &&& #[trigger] m1.drop_last() == pre
                    &&& hof_row_matches(m1.last(), (pre.len() + 1) as int, sid, entries[0].0, entries[0].1)
                    &&& hof_insert_rel(m1, mid, sid, entries.drop_first())
                };
            lemma_hof_insert_snoc(m1, mid, post, sid, entries.drop_first(), e);
        }
    }
}

/// The pairs a parsed entry list denotes.
pub open spec fn entries_view(entries: Seq<HofEntry>) -> Seq<(Seq<char>, u64)> {
    Seq::new(entries.len(), |i: int| ((entries[i].name@, entries[i].level)))
}

/// Inserts the discovered players of one page, first-seen-wins.
#[verifier::loop_isolation(false)]
fn insert_hof_players(db: &mut Db, server_id: i64, entries: &Vec<HofEntry>)
    requires
        old(db).wf(),
        old(db).players@.len() + entries@.len() <= MAX_ROWS,
        forall|k: int| 0 <= k < entries@.len() ==> (#[trigger] entries@[k]).level <= u32::MAX,
    ensures
        final(db).wf(),
        final(db).servers@ == old(db).servers@,
        final(db).player_infos@ == old(db).player_infos@,
        final(db).guilds@ == old(db).guilds@,
        final(db).descriptions@ == old(db).descriptions@,
        final(db).blobs@ == old(db).blobs@,
        final(db).equipment@ == old(db).equipment@,
        final(db).todo_hof_pages@ == old(db).todo_hof_pages@,
        hof_insert_rel(old(db).players@, final(db).players@, server_id, entries_view(entries@)),
{
    let ghost pre = db.players@;
    let ghost ev = entries_view(entries@);
    proof {
        assert(ev.subrange(0, 0) =~= Seq::<(Seq<char>, u64)>::empty());
    }
    let n = entries.len();
    let mut i: usize = 0;
    while i < n
        invariant
            i <= n == entries@.len(),
            db.wf(),
            pre.len() <= db.players@.len() <= pre.len() + i,
            hof_insert_rel(pre, db.players@, server_id, ev.subrange(0, i as int)),
            db.servers@ == old(db).servers@,
            db.player_infos@ == old(db).player_infos@,
            db.guilds@ == old(db).guilds@,
            db.descriptions@ == old(db).descriptions@,
            db.blobs@ == old(db).blobs@,
            db.equipment@ == old(db).equipment@,
            db.todo_hof_pages@ == old(db).todo_hof_pages@,
        decreases n - i,
    {
        let ghost cur = db.players@;
        match crate::store::find_player(&db.players, server_id, &entries[i].name) {
            Some(_) => {
                proof {
                    assert(crate::store::has_player_key(cur, server_id, ev[i as int].0));
                    assert(hof_step(cur, db.players@, server_id, ev[i as int]));
                }
            },
            None => {
                let pid: i64 = (db.players.len() as i64) + 1;
                let row = PlayerRow {
                    player_id: pid,
                    server_id,
                    name: entries[i].name.clone(),
                    level: Some(entries[i].level as i64),
                    attributes: None,
                    xp: None,
                    honor: None,
                    equip_count: None,
                    next_report_attempt: 0,
                    last_reported: None,
                    last_changed: None,
                    is_removed: false,
                };
                db.players.push(row);
                proof {
                    assert(db.players@.drop_last() =~= cur);
                    assert(hof_row_matches(
                        db.players@.last(),
                        (cur.len() + 1) as int,
                        server_id,
                        ev[i as int].0,
                        ev[i as int].1,
                    ));
                    assert(hof_step(cur, db.players@, server_id, ev[i as int]));
                    assert forall|a: int, b: int|
                        0 <= a < b < db.players@.len() implies !((#[trigger] db.players@[a]).server_id
                        == (#[trigger] db.players@[b]).server_id && db.players@[a].name@
                        == db.players@[b].name@) by {
                        if b < cur.len() {
                            assert(db.players@[a] == cur[a] && db.players@[b] == cur[b]);
                        } else {
                            assert(db.players@[a] == cur[a]);
                            assert(!crate::store::has_player_key(cur, server_id, db.players@[b].name@));
                        }
                    }
                    assert(crate::store::players_wf(db.players@));
                    assert forall|k: int| 0 <= k < db.player_infos@.len() implies {
                        let qid = (#[trigger] db.player_infos@[k]).player_id;
                        &&& 1 <= qid <= db.players@.len()
                        &&& db.players@[qid - 1].last_reported matches Option::Some(lr)
                            && db.player_infos@[k].fetch_time <= lr
                        &&& crate::store::stored_time(db.player_infos@[k].fetch_time)
                    } by {
                        let qid = db.player_infos@[k].player_id;
                        assert(db.players@[qid - 1] == cur[qid - 1]);
                    }
                }
            },
        }
        proof {
            lemma_hof_insert_snoc(
                pre,
                cur,
                db.players@,
                server_id,
                ev.subrange(0, i as int),
                ev[i as int],
            );
            assert(ev.subrange(0, i + 1 as int) =~= ev.subrange(0, i as int).push(ev[i as int]));
        }
        i = i + 1;
    }
    proof {
        assert(ev.subrange(0, n as int) =~= ev);
    }
}

/// Retires a page: removes its work row, whether or not it is leased.
#[verifier::loop_isolation(false)]
fn remove_todo_page(db: &mut Db, server_id: i64, page: i64)
    requires
        old(db).wf(),
    ensures
        final(db).wf(),
        final(db).servers@ == old(db).servers@,
        final(db).players@ == old(db).players@,
        final(db).player_infos@ == old(db).player_infos@,
        final(db).guilds@ == old(db).guilds@,
        final(db).descriptions@ == old(db).descriptions@,
        final(db).blobs@ == old(db).blobs@,
        final(db).equipment@ == old(db).equipment@,
        final(db).todo_hof_pages@ == old(db).todo_hof_pages@.filter(
            |t: TodoHofPageRow| !(t.server_id == server_id && t.idx == page),
        ),
{
    let mut kept: Vec<TodoHofPageRow> = Vec::new();
    let n = db.todo_hof_pages.len();
    let mut i: usize = 0;
    while i < n
        invariant
            i <= n == db.todo_hof_pages@.len(),
            kept@ == db.todo_hof_pages@.subrange(0, i as int).filter(
                |t: TodoHofPageRow| !(t.server_id == server_id && t.idx == page),
            ),
        decreases n - i,
    {
        proof {
            assert(db.todo_hof_pages@.subrange(0, i + 1 as int).drop_last() =~= db.todo_hof_pages@.subrange(
                0,
                i as int,
            ));
            reveal(Seq::filter);
        }
        let t = db.todo_hof_pages[i];
        if !(t.server_id == server_id && t.idx == page) {
            kept.push(t);
        }
        i = i + 1;
    }
    proof {
        assert(db.todo_hof_pages@.subrange(0, n as int) =~= db.todo_hof_pages@);
        lemma_filter_todo_wf(
            db.todo_hof_pages@,
            |t: TodoHofPageRow| !(t.server_id == server_id && t.idx == page),
        );
    }
    db.todo_hof_pages = kept;
}

/// Absorbs one reported hall-of-fame page: parses its entries up to the
/// empty-slot sentinel, inserts the discovered players first-seen-wins,
/// and retires the page's work row.
pub fn ingest_hof_page(db: &mut Db, server_id: i64, page: i64, info: &String)
    requires
        old(db).wf(),
        old(db).players@.len() + info@.len() + 1 <= MAX_ROWS,
    ensures
        final(db).wf(),
        final(db).servers@ == old(db).servers@,
        final(db).player_infos@ == old(db).player_infos@,
        final(db).guilds@ == old(db).guilds@,
        final(db).descriptions@ == old(db).descriptions@,
        final(db).blobs@ == old(db).blobs@,
        final(db).equipment@ == old(db).equipment@,
        hof_insert_rel(
            old(db).players@,
            final(db).players@,
            server_id,
            spec_page_entries(info@),
        ),
        final(db).todo_hof_pages@ == old(db).todo_hof_pages@.filter(
            |t: TodoHofPageRow| !(t.server_id == server_id && t.idx == page),
        ),
{
    let entries = parse_hof_page(info.as_str());
    proof {
        lemma_page_entries_len(info@);
        assert(entries_view(entries@) =~~= spec_page_entries(info@));
    }
    insert_hof_players(db, server_id, &entries);
    remove_todo_page(db, server_id, page);
}

/// The page-claim limit after the server-side cap.
pub open spec fn spec_capped_hof_limit(limit: u64) -> int {
    if limit > HOF_CLAIM_CAP {
        HOF_CLAIM_CAP as int
    } else {
        limit as int
    }
}

/// The hall-of-fame claim endpoint: resolves the server, starts a new
/// crawl cycle when the previous one has expired, and claims up to the
/// capped limit of due pages.
pub fn get_hof_pages_to_crawl(db: &mut Db, cache: &mut ServerCache, args: &GetHofArgs, now: i64) -> (r: Result<Vec<i64>, MFBotError>)
    requires
        old(db).wf(),
        old(cache).consistent(old(db).servers@),
        valid_time(now),
    ensures
        final(db).wf(),
        final(cache).consistent(final(db).servers@),
        match r {
            Result::Ok(pages) => exists|sid: i64, mid: Db|
                {
                    &&& #[trigger] resolve_rel(*old(db), mid, args.server@, Result::Ok(sid))
                    &&& mid.todo_hof_pages@ == old(db).todo_hof_pages@
                    &&& hof_claim_rel(
                        mid,
                        *final(db),
                        sid,
                        args.player_count,
                        spec_capped_hof_limit(args.limit),
                        now,
                        pages@,
                    )
                },
            Result::Err(e) => {
                &&& final(db).todo_hof_pages@ == old(db).todo_hof_pages@
                &&& match e {
                    MFBotError::InvalidServer => canon_of_raw(args.server@) is None,
                    MFBotError::DBError(_) => old(db).servers@.len() >= MAX_ROWS,
                    _ => false,
                }
            },
        },
        final(db).players@ == old(db).players@,
        final(db).player_infos@ == old(db).player_infos@,
        final(db).guilds@ == old(db).guilds@,
        final(db).descriptions@ == old(db).descriptions@,
        final(db).blobs@ == old(db).blobs@,
        final(db).equipment@ == old(db).equipment@,
{
    let sid = match get_server_id(db, cache, &args.server, now) {
        Ok(s) => s,
        Err(e) => {
            return Err(e);
        },
    };
    let ghost mid = *db;
    proof {
        let c = canon_of_raw(args.server@).unwrap();
        let i = choose|i: int|
            0 <= i < db.servers@.len() && (#[trigger] db.servers@[i]).url@ == c
                && db.servers@[i].server_id == sid;
        assert(db.servers@[i].server_id == i + 1);
    }
    let limit = if args.limit > HOF_CLAIM_CAP {
        HOF_CLAIM_CAP
    } else {
        args.limit
    };
    let pages = claim_hof_pages(db, sid, args.player_count, limit, now);
    proof {
        assert(resolve_rel(*old(db), mid, args.server@, Result::Ok(sid)));
        lemma_cache_consistent_after_stamp(*cache, mid.servers@, db.servers@);
    }
    Ok(pages)
}

/// Moving a crawl stamp keeps every cached resolution valid: ids and URLs
/// are untouched.
proof fn lemma_cache_consistent_after_stamp(
    cache: ServerCache,
    pre: Seq<ServerRow>,
    post: Seq<ServerRow>,
)
    requires
        cache.consistent(pre),
        post.len() == pre.len(),
        forall|i: int|
            0 <= i < pre.len() ==> (#[trigger] post[i]).server_id == pre[i].server_id && post[i].url@
                == pre[i].url@,
    ensures
        cache.consistent(post),
{
    assert forall|k: int| 0 <= k < cache.entries@.len() implies server_with_url_id(
        post,
        (#[trigger] cache.entries@[k]).url@,
        cache.entries@[k].server_id,
    ) by {
        let c = cache.entries@[k].url@;
        let id = cache.entries@[k].server_id;
        let i = choose|i: int| 0 <= i < pre.len() && (#[trigger] pre[i]).url@ == c && pre[i].server_id
            == id;
        assert(post[i].url@ == c && post[i].server_id == id);
    }
}

/// The page queue without one page's row.
pub open spec fn spec_remove_page(
    todos: Seq<TodoHofPageRow>,
    sid: i64,
    page: i64,
) -> Seq<TodoHofPageRow> {
    todos.filter(|t: TodoHofPageRow| !(t.server_id == sid && t.idx == page))
}

/// The reported pages as (index, text) pairs.
pub open spec fn pages_view(pages: Seq<(i64, String)>) -> Seq<(i64, Seq<char>)> {
    Seq::new(pages.len(), |i: int| ((pages[i].0, pages[i].1@)))
}

/// How a reported batch of pages moves the player table and the page
/// queue: page by page, each page's discovered players are inserted
/// first-seen-wins and its work row is retired.
pub open spec fn hof_report_rel(
    p0: Seq<PlayerRow>,
    t0: Seq<TodoHofPageRow>,
    p1: Seq<PlayerRow>,
    t1: Seq<TodoHofPageRow>,
    sid: i64,
    pages: Seq<(i64, Seq<char>)>,
) -> bool
    decreases pages.len(),
{
    if pages.len() == 0 {
        p1 == p0 && t1 == t0
    } else {
        exists|pm: Seq<PlayerRow>, tm: Seq<TodoHofPageRow>|
            {
                &&& hof_report_rel(p0, t0, pm, tm, sid, pages.drop_last())
                &&& #[trigger] hof_insert_rel(pm, p1, sid, spec_page_entries(pages.last().1))
                &&& t1 == #[trigger] spec_remove_page(tm, sid, pages.last().0)
            }
    }
}

/// The hall-of-fame report endpoint: resolves the server and absorbs the
/// reported pages in order, each in its own transaction; a page that
/// would push the store past capacity fails the call, and the pages
/// before it stay absorbed.
#[verifier::loop_isolation(false)]
pub fn report_hof_pages(db: &mut Db, cache: &mut ServerCache, args: &ReportHofArgs, now: i64) -> (r:
    Result<(), MFBotError>)
    requires
        old(db).wf(),
        old(cache).consistent(old(db).servers@),
        valid_time(now),
    ensures
        final(db).wf(),
        final(cache).consistent(final(db).servers@),
        final(db).player_infos@ == old(db).player_infos@,
        final(db).guilds@ == old(db).guilds@,
        final(db).descriptions@ == old(db).descriptions@,
        final(db).blobs@ == old(db).blobs@,
        final(db).equipment@ == old(db).equipment@,
        match r {
            Result::Ok(u) => exists|sid: i64, mid: Db|
                {
                    &&& #[trigger] resolve_rel(*old(db), mid, args.server@, Result::Ok(sid))
                    &&& final(db).servers@ == mid.servers@
                    &&& hof_report_rel(
                        old(db).players@,
                        old(db).todo_hof_pages@,
                        final(db).players@,
                        final(db).todo_hof_pages@,
                        sid,
                        pages_view(args.pages@),
                    )
                },
            Result::Err(e) => match e {
                MFBotError::InvalidServer => {
                    &&& canon_of_raw(args.server@) is None
                    &&& final(db).players@ == old(db).players@
                    &&& final(db).todo_hof_pages@ == old(db).todo_hof_pages@
                },
                MFBotError::DBError(_) => (final(db).players@ == old(db).players@
                    && final(db).todo_hof_pages@ == old(db).todo_hof_pages@
                    && old(db).servers@.len() >= MAX_ROWS)
                    || exists|sid: i64, mid: Db, k: int|
                    {
                        &&& #[trigger] resolve_rel(*old(db), mid, args.server@, Result::Ok(sid))
                        &&& final(db).servers@ == mid.servers@
                        &&& 0 <= k < args.pages@.len()
                        &&& hof_report_rel(
                            old(db).players@,
                            old(db).todo_hof_pages@,
                            final(db).players@,
                            final(db).todo_hof_pages@,
                            sid,
                            #[trigger] pages_view(args.pages@).subrange(0, k),
                        )
                        // Page k is the one that did not fit: absorbing it
                        // could push the player table past capacity.
                        &&& final(db).players@.len() + args.pages@[k].1@.len() + 1 > MAX_ROWS
                    },
                _ => false,
            },
        },
{
    let sid = match get_server_id(db, cache, &args.server, now) {
        Ok(s) => s,
        Err(e) => {
            return Err(e);
        },
    };
    let ghost mid = *db;
    let ghost pv = pages_view(args.pages@);
    let ghost p0 = db.players@;
    let ghost t0 = db.todo_hof_pages@;
    proof {
        assert(resolve_rel(*old(db), mid, args.server@, Result::Ok(sid)));
        assert(pv.subrange(0, 0) =~= Seq::<(i64, Seq<char>)>::empty());
    }
    let n = args.pages.len();
    let mut i: usize = 0;
    while i < n
        invariant
            i <= n == args.pages@.len(),
            db.wf(),
            db.servers@ == mid.servers@,
            db.player_infos@ == old(db).player_infos@,
            db.guilds@ == old(db).guilds@,
            db.descriptions@ == old(db).descriptions@,
            db.blobs@ == old(db).blobs@,
            db.equipment@ == old(db).equipment@,
            cache.consistent(db.servers@),
            hof_report_rel(p0, t0, db.players@, db.todo_hof_pages@, sid, pv.subrange(0, i as int)),
        decreases n - i,
    {
        let page = args.pages[i].0;
        let players_now = db.players.len() as u64;
        let text_len = args.pages[i].1.as_str().unicode_len() as u64;
        let room = players_now < (MAX_ROWS as u64) && text_len < (MAX_ROWS as u64) && players_now
            + text_len + 1 <= (MAX_ROWS as u64);
        if !room {
            proof {
                assert(hof_report_rel(
                    p0,
                    t0,
                    db.players@,
                    db.todo_hof_pages@,
                    sid,
                    pv.subrange(0, i as int),
                ));
            }
            return Err(MFBotError::DBError(String::from_str("player table is full")));
        }
        let ghost pm = db.players@;
        let ghost tm = db.todo_hof_pages@;
        ingest_hof_page(db, sid, page, &args.pages[i].1);
        proof {
            assert(pv.subrange(0, i + 1 as int).drop_last() =~= pv.subrange(0, i as int));
            assert(pv.subrange(0, i + 1 as int).last() == pv[i as int]);
            assert(pv[i as int].1 == args.pages@[i as int].1@ && pv[i as int].0 == args.pages@[i as int].0);
            assert(hof_insert_rel(pm, db.players@, sid, spec_page_entries(pv[i as int].1)));
            assert(db.todo_hof_pages@ == spec_remove_page(tm, sid, pv[i as int].0));
            assert(hof_report_rel(
                p0,
                t0,
                db.players@,
                db.todo_hof_pages@,
                sid,
                pv.subrange(0, i + 1 as int),
            ));
        }
        i = i + 1;
    }
    proof {
        assert(pv.subrange(0, n as int) =~= pv);
    }
    Ok(())
}

} // verus!
