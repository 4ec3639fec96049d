//! The player-report ingestion pipeline.
//!
//! A raw report passes through parsing and validation, server identity
//! resolution, change detection against the stored player row, adaptive
//! backoff for the next recrawl, deduplicated storage of guild,
//! description and payload blob, one appended snapshot row, and the
//! recency-guarded replacement of the player's current equipment set.
//! A report whose fetch time is not newer than the player's
//! `last_reported` is discarded without any write.

use vstd::prelude::*;

use crate::api::RawOtherPlayer;
use crate::dedup::{
    zstd_of, md5_hex_of, desc_upsert_rel, guild_upsert_rel, blob_store_rel, store_description,
    store_blob_bytes, upsert_guild, zstd_compress, md5_hex,
};
use crate::error::MFBotError;
use crate::resolver::{ServerCache, canon_of_raw, resolve_rel, get_server_id};
use crate::store::{
    Db, EquipmentRow, PlayerInfoRow, PlayerRow, has_player_key, find_player, stored_time,
    stored_time_opt, MAX_ROWS,
};
use crate::time::{days, hours, minutes, valid_time};
use crate::wire::{
    PlayerFacts, spec_info_values, spec_report_valid, spec_attr_sum, equip_count_upto,
    slot_has_real_ident, strictly_sorted, parse_info_values, extract_player_facts, SLOT_COUNT,
    IDX_LEVEL, IDX_EXPERIENCE, IDX_HONOR,
};

verus! {

/// What RFC 3339 parsing returns for the given text: the denoted UTC
/// timestamp in whole seconds for well-formed timestamps, nothing
/// otherwise. The result depends on the text alone.
pub uninterp spec fn rfc3339_secs_of(s: Seq<char>) -> Option<i64>;

/// Relies on `chrono::DateTime::parse_from_rfc3339` and
/// `chrono::DateTime::timestamp`: parses an RFC 3339 timestamp and
/// returns its UTC value in whole seconds. The representable calendar
/// range spans roughly 262,000 years around the epoch, which keeps every
/// returned value within the library's timestamp bound.
#[verifier::external_body]
fn parse_rfc3339_secs(s: &str) -> (r: Option<i64>)
    ensures
        r == rfc3339_secs_of(s@),
        r matches Option::Some(t) ==> valid_time(t),
{
    chrono::DateTime::parse_from_rfc3339(s).ok().map(|d| d.to_utc().timestamp())
}

/// Relies on `fastrand::u64`: returns a value drawn from the inclusive
/// range, and panics only on an empty range, which the contract rules
/// out.
#[verifier::external_body]
fn rand_between(lo: u64, hi: u64) -> (r: u64)
    requires
        lo <= hi,
    ensures
        lo <= r <= hi,
{
    fastrand::u64(lo..=hi)
}

/// The random draws one ingestion may consume, drawn up front so the rest
/// of the pipeline is a function of its inputs.
pub struct Jitter {
    /// Minutes of jitter, every tier.
    pub minute: u64,
    /// Hours for the short recheck after an observed change.
    pub changed_hours: u64,
    /// Hours for the one-day tier.
    pub t1_hours: u64,
    /// Days for the middle tier.
    pub t2_days: u64,
    /// Hours for the middle tier.
    pub t2_hours: u64,
    /// Days for the long tier.
    pub t3_days: u64,
    /// Hours for the long tier.
    pub t3_hours: u64,
}

impl Jitter {
    /// The ranges the backoff rules draw from.
    pub open spec fn valid(self) -> bool {
        &&& self.minute <= 59
        &&& 11 <= self.changed_hours <= 13
        &&& self.t1_hours <= 11
        &&& 2 <= self.t2_days <= 4
        &&& self.t2_hours <= 22
        &&& 10 <= self.t3_days <= 14
        &&& self.t3_hours <= 23
    }
}

/// Draws one ingestion's worth of randomness.
pub fn draw_jitter() -> (j: Jitter)
    ensures
        j.valid(),
{
    Jitter {
        minute: rand_between(0, 59),
        changed_hours: rand_between(11, 13),
        t1_hours: rand_between(0, 11),
        t2_days: rand_between(2, 4),
        t2_hours: rand_between(0, 22),
        t3_days: rand_between(10, 14),
        t3_hours: rand_between(0, 23),
    }
}

/// Whether the report shows a change against the stored row; a stored
/// value that was never reported counts as changed.
pub open spec fn spec_has_changed(row: PlayerRow, attributes: i64, xp: i64, level: i64) -> bool {
    ||| row.attributes != Option::Some(attributes)
    ||| row.xp != Option::Some(xp)
    ||| row.level != Option::Some(level)
}

/// The adaptive backoff: a short randomized recheck after an observed
/// change, else one of three tiers by how long the player has been
/// unchanged at fetch time.
pub open spec fn spec_backoff(
    fetch_time: i64,
    has_changed: bool,
    last_changed: Option<i64>,
    j: Jitter,
) -> int {
    if has_changed {
        fetch_time + 3600 * j.changed_hours + 60 * j.minute
    } else {
        match last_changed {
            Option::Some(x) => if x + 259_200 > fetch_time {
                fetch_time + 86_400 + 3600 * j.t1_hours + 60 * j.minute
            } else if x + 604_800 > fetch_time {
                fetch_time + 86_400 * j.t2_days + 3600 * j.t2_hours + 60 * j.minute
            } else {
                fetch_time + 86_400 * j.t3_days + 3600 * j.t3_hours + 60 * j.minute
            },
            Option::None => fetch_time + 86_400 * j.t3_days + 3600 * j.t3_hours + 60 * j.minute,
        }
    }
}

/// Computes the next recrawl deadline.
fn compute_backoff(fetch_time: i64, has_changed: bool, last_changed: Option<i64>, j: &Jitter) -> (r:
    i64)
    requires
        valid_time(fetch_time),
        stored_time_opt(last_changed),
        j.valid(),
    ensures
        r == spec_backoff(fetch_time, has_changed, last_changed, *j),
        stored_time(r),
        r > fetch_time,
{
    let minute_secs: i64 = minutes(j.minute as i64);
    if has_changed {
        fetch_time + hours(j.changed_hours as i64) + minute_secs
    } else {
        let in_three_days = match last_changed {
            Some(x) => x + days(3) > fetch_time,
            None => false,
        };
        let in_seven_days = match last_changed {
            Some(x) => x + days(7) > fetch_time,
            None => false,
        };
        if in_three_days {
            fetch_time + days(1) + hours(j.t1_hours as i64) + minute_secs
        } else if in_seven_days {
            fetch_time + days(j.t2_days as i64) + hours(j.t2_hours as i64) + minute_secs
        } else {
            fetch_time + days(j.t3_days as i64) + hours(j.t3_hours as i64) + minute_secs
        }
    }
}

/// A report after parsing and validation: everything the transaction
/// writes, as plain values.
pub struct ParsedReport {
    /// The player's name.
    pub name: String,
    /// The resolved server id.
    pub server_id: i64,
    /// The report's fetch time, clamped to the service's clock.
    pub fetch_time: i64,
    /// The reported level.
    pub level: i64,
    /// The reported experience.
    pub experience: i64,
    /// The reported honor.
    pub honor: i64,
    /// The reported summed attributes.
    pub attributes: i64,
    /// The reported number of equipped items.
    pub equip_count: i64,
    /// The packed identifiers of the real wearable items, ascending.
    pub equip_idents: Vec<i32>,
    /// The guild name, if the player is in one.
    pub guild: Option<String>,
    /// The description text; a report without one stores the empty text.
    pub description: String,
    /// The raw encoded payload, stored content-addressed.
    pub info: String,
    /// Suggested soldier count, if any.
    pub soldier_advice: Option<i64>,
}

impl ParsedReport {
    /// What the transaction relies on.
    pub open spec fn wf(self) -> bool {
        &&& valid_time(self.fetch_time)
        &&& strictly_sorted(self.equip_idents@)
        &&& self.equip_idents@.len() <= SLOT_COUNT
    }
}

/// A parsed report carries exactly what the raw report denotes.
pub open spec fn parsed_from(p: ParsedReport, rep: RawOtherPlayer, sid: i64, now: i64) -> bool {
    &&& spec_info_values(rep.info@) matches Option::Some(data) && {
        &&& spec_report_valid(data)
        &&& p.level == data[IDX_LEVEL as int]
        &&& p.experience == data[IDX_EXPERIENCE as int]
        &&& p.honor == data[IDX_HONOR as int]
        &&& p.attributes == spec_attr_sum(data)
        &&& p.equip_count == equip_count_upto(data, SLOT_COUNT as int)
        &&& forall|x: i32|
            p.equip_idents@.contains(x) <==> exists|k: int|
                0 <= k < SLOT_COUNT && slot_has_real_ident(data, k, x)
    }
    &&& rfc3339_secs_of(rep.fetch_date@) matches Option::Some(t) && p.fetch_time == if t > now {
        now
    } else {
        t
    }
    &&& p.name@ == rep.name@
    &&& p.server_id == sid
    &&& match (p.guild, rep.guild) {
        (Option::Some(a), Option::Some(b)) => a@ == b@,
        (Option::None, Option::None) => true,
        _ => false,
    }
    &&& p.description@ == match rep.description {
        Option::Some(d) => d@,
        Option::None => Seq::<char>::empty(),
    }
    &&& p.info@ == rep.info@
    &&& p.soldier_advice == rep.soldier_advice
    &&& p.wf()
}

/// The raw report passes the wire grammar: the payload denotes a valid
/// player encoding and the fetch date denotes a timestamp.
pub open spec fn report_parses(rep: RawOtherPlayer) -> bool {
    &&& spec_info_values(rep.info@) matches Option::Some(d) && spec_report_valid(d)
    &&& rfc3339_secs_of(rep.fetch_date@) is Some
}

/// Parses and validates a raw report against the wire grammar: the
/// payload must be a well-formed player encoding and the fetch date a
/// well-formed timestamp, which is clamped to the service's clock against
/// client clock skew.
pub fn parse_report(rep: &RawOtherPlayer, server_id: i64, now: i64) -> (r: Result<
    ParsedReport,
    MFBotError,
>)
    requires
        valid_time(now),
    ensures
        match r {
            Result::Ok(p) => parsed_from(p, *rep, server_id, now),
            Result::Err(e) => e matches MFBotError::InvalidPlayer(_),
        },
        r is Err <==> !report_parses(*rep),
{
    let data = match parse_info_values(rep.info.as_str()) {
        Some(d) => d,
        None => {
            return Err(MFBotError::InvalidPlayer(String::from_str("unparseable player encoding")));
        },
    };
    let facts: PlayerFacts = match extract_player_facts(&data) {
        Some(f) => f,
        None => {
            return Err(MFBotError::InvalidPlayer(String::from_str("rejected player encoding")));
        },
    };
    let t = match parse_rfc3339_secs(rep.fetch_date.as_str()) {
        Some(t) => t,
        None => {
            return Err(MFBotError::InvalidPlayer(String::from_str("unparseable fetch date")));
        },
    };
    let fetch_time: i64 = if t > now {
        now
    } else {
        t
    };
    let guild: Option<String> = match &rep.guild {
        Some(g) => Some(g.clone()),
        None => None,
    };
    let description: String = match &rep.description {
        Some(d) => d.clone(),
        None => String::new(),
    };
    let p = ParsedReport {
        name: rep.name.clone(),
        server_id,
        fetch_time,
        level: facts.level,
        experience: facts.experience,
        honor: facts.honor,
        attributes: facts.attributes,
        equip_count: facts.equip_count,
        equip_idents: facts.equip_idents,
        guild,
        description,
        info: rep.info.clone(),
        soldier_advice: rep.soldier_advice,
    };
    proof {
        let sdata = spec_info_values(rep.info@).unwrap();
        assert(sdata == data@);
        assert(forall|x: i32|
            p.equip_idents@.contains(x) <==> exists|k: int|
                0 <= k < SLOT_COUNT && slot_has_real_ident(sdata, k, x));
        assert(p.wf());
        assert(parsed_from(p, *rep, server_id, now));
    }
    Ok(p)
}

/// The terminal outcome of one ingested report.
#[derive(Debug, Clone, Copy, PartialEq, Eq)]
pub enum IngestOutcome {
    /// The report was absorbed: the player row moved forward and a
    /// snapshot was written.
    Accepted,
    /// The report was not newer than what the store already absorbed and
    /// was discarded without a write.
    Stale,
}

/// The store already absorbed a report of this player at least as new as
/// `ft`.
pub open spec fn stale_in(players: Seq<PlayerRow>, sid: i64, name: Seq<char>, ft: i64) -> bool {
    exists|i: int|
        0 <= i < players.len() && (#[trigger] players[i]).server_id == sid && players[i].name@
            == name && (players[i].last_reported matches Option::Some(lr) && lr >= ft)
}

/// An existing player row after absorbing the report: fresh values, the
/// recrawl deadline from the backoff rule, `last_reported` at the fetch
/// time, and `last_changed` moved only when a change was observed (or
/// when it was never set).
pub open spec fn updated_row_matches(
    pre_row: PlayerRow,
    post_row: PlayerRow,
    p: ParsedReport,
    j: Jitter,
) -> bool {
    let changed = spec_has_changed(pre_row, p.attributes, p.experience, p.level);
    &&& post_row.player_id == pre_row.player_id
    &&& post_row.server_id == pre_row.server_id
    &&& post_row.name@ == pre_row.name@
    &&& post_row.level == Option::Some(p.level)
    &&& post_row.attributes == Option::Some(p.attributes)
    &&& post_row.xp == Option::Some(p.experience)
    &&& post_row.honor == Option::Some(p.honor)
    &&& post_row.equip_count == Option::Some(p.equip_count)
    &&& post_row.next_report_attempt == spec_backoff(p.fetch_time, changed, pre_row.last_changed, j)
    &&& post_row.last_reported == Option::Some(p.fetch_time)
    &&& post_row.last_changed == (if changed {
        Option::Some(p.fetch_time)
    } else {
        match pre_row.last_changed {
            Option::Some(x) => Option::Some(x),
            Option::None => Option::Some(p.fetch_time),
        }
    })
    &&& post_row.is_removed == pre_row.is_removed
}

/// A player row created by a first report: everything set, due again in
/// one day.
pub open spec fn inserted_row_matches(row: PlayerRow, pid: i64, p: ParsedReport) -> bool {
    &&& row.player_id == pid
    &&& row.server_id == p.server_id
    &&& row.name@ == p.name@
    &&& row.level == Option::Some(p.level)
    &&& row.attributes == Option::Some(p.attributes)
    &&& row.xp == Option::Some(p.experience)
    &&& row.honor == Option::Some(p.honor)
    &&& row.equip_count == Option::Some(p.equip_count)
    &&& row.next_report_attempt == p.fetch_time + 86_400
    &&& row.last_reported == Option::Some(p.fetch_time)
    &&& row.last_changed == Option::Some(p.fetch_time)
    &&& !row.is_removed
}

/// The player-table half of an accepted report, determining which id the
/// snapshot is written under.
pub open spec fn accepted_players_rel(
    pre: Seq<PlayerRow>,
    post: Seq<PlayerRow>,
    p: ParsedReport,
    j: Jitter,
    pid: i64,
) -> bool {
    if has_player_key(pre, p.server_id, p.name@) {
        exists|i: int|
            {
                &&& 0 <= i < pre.len()
                &&& (#[trigger] pre[i]).server_id == p.server_id
                &&& pre[i].name@ == p.name@
                &&& pid == i + 1
                &&& post.len() == pre.len()
                &&& updated_row_matches(pre[i], post[i], p, j)
                &&& forall|k: int| 0 <= k < pre.len() && k != i ==> post[k] == pre[k]
            }
    } else {
        &&& pid == pre.len() + 1
        &&& post.len() == pre.len() + 1
        &&& post.drop_last() == pre
        &&& inserted_row_matches(post.last(), pid, p)
    }
}

/// Everything an accepted report writes, in one transaction: the player
/// row, the guild, description and blob dedup rows, one appended snapshot,
/// and the replaced equipment set of the player.
pub open spec fn accepted_rel(pre: Db, post: Db, p: ParsedReport, j: Jitter) -> bool {
    exists|pid: i64, gid: Option<i64>, did: i64, rid: i64|
        {
            &&& accepted_players_rel(pre.players@, post.players@, p, j, pid)
            &&& match (p.guild, gid) {
                (Option::Some(g), Option::Some(id)) => guild_upsert_rel(
                    pre.guilds@,
                    post.guilds@,
                    p.server_id,
                    g@,
                    id,
                ),
                (Option::None, Option::None) => post.guilds@ == pre.guilds@,
                _ => false,
            }
            &&& desc_upsert_rel(pre.descriptions@, post.descriptions@, p.description@, did)
            &&& zstd_of(p.info@) matches Option::Some(zb) && blob_store_rel(
                pre.blobs@,
                post.blobs@,
                md5_hex_of(zb),
                zb,
                Result::Ok(rid),
            )
            &&& post.player_infos@ == #[trigger] pre.player_infos@.push(
                PlayerInfoRow {
                    player_id: pid,
                    fetch_time: p.fetch_time,
                    xp: p.experience,
                    level: p.level,
                    honor: p.honor,
                    soldier_advice: p.soldier_advice,
                    description_id: did,
                    guild_id: gid,
                    response_id: rid,
                },
            )
            &&& post.equipment@ == pre.equipment@.filter(
                |e: EquipmentRow| e.player_id != pid,
            ) + Seq::new(
                p.equip_idents@.len(),
                |i: int| EquipmentRow { server_id: p.server_id, player_id: pid, ident: p.equip_idents@[i] },
            )
        }
}

/// How one report moves the store: a stale report changes nothing, an
/// accepted one writes the whole transaction, and the transaction aborts,
/// with nothing written, exactly when the compressor fails on the
/// payload.
pub open spec fn ingest_apply_rel(
    pre: Db,
    post: Db,
    p: ParsedReport,
    j: Jitter,
    r: Result<IngestOutcome, MFBotError>,
) -> bool {
    match r {
        Result::Ok(IngestOutcome::Stale) => {
            &&& stale_in(pre.players@, p.server_id, p.name@, p.fetch_time)
            &&& post == pre
        },
        Result::Ok(IngestOutcome::Accepted) => {
            &&& !stale_in(pre.players@, p.server_id, p.name@, p.fetch_time)
            &&& accepted_rel(pre, post, p, j)
        },
        Result::Err(MFBotError::Internal) => {
            &&& post == pre
            &&& zstd_of(p.info@) is None
        },
        _ => false,
    }
}

/// Runs one parsed report's transaction against the store.
#[verifier::loop_isolation(false)]
#[verifier::rlimit(30)]
pub fn apply_report(db: &mut Db, p: &ParsedReport, j: &Jitter) -> (r: Result<
    IngestOutcome,
    MFBotError,
>)
    requires
        old(db).wf(),
        p.wf(),
        j.valid(),
        old(db).players@.len() < MAX_ROWS,
        old(db).guilds@.len() < MAX_ROWS,
        old(db).descriptions@.len() < MAX_ROWS,
        old(db).blobs@.len() < MAX_ROWS,
    ensures
        final(db).wf(),
        final(db).servers@ == old(db).servers@,
        final(db).todo_hof_pages@ == old(db).todo_hof_pages@,
        ingest_apply_rel(*old(db), *final(db), *p, *j, r),
{
    // Compress first: a failing compressor aborts the whole transaction
    // before anything is written.
    let compressed = match zstd_compress(p.info.as_str()) {
        Some(c) => c,
        None => {
            return Err(MFBotError::Internal);
        },
    };
    let hash = md5_hex(&compressed);

    // Change detection and the player row.
    let pid: i64;
    let ghost changed_g: bool;
    match find_player(&db.players, p.server_id, &p.name) {
        Some(i) => {
            let stale = match db.players[i].last_reported {
                Some(lr) => lr >= p.fetch_time,
                None => false,
            };
            if stale {
                proof {
                    assert(stale_in(db.players@, p.server_id, p.name@, p.fetch_time));
                }
                return Ok(IngestOutcome::Stale);
            }
            let changed = (match db.players[i].attributes {
                Some(a) => a != p.attributes,
                None => true,
            }) || (match db.players[i].xp {
                Some(x) => x != p.experience,
                None => true,
            }) || (match db.players[i].level {
                Some(l) => l != p.level,
                None => true,
            });
            proof {
                changed_g = changed;
            }
            let next = compute_backoff(p.fetch_time, changed, db.players[i].last_changed, j);
            let last_changed: Option<i64> = if changed {
                Some(p.fetch_time)
            } else {
                match db.players[i].last_changed {
                    Some(x) => Some(x),
                    None => Some(p.fetch_time),
                }
            };
            let row = PlayerRow {
                player_id: db.players[i].player_id,
                server_id: db.players[i].server_id,
                name: db.players[i].name.clone(),
                level: Some(p.level),
                attributes: Some(p.attributes),
                xp: Some(p.experience),
                honor: Some(p.honor),
                equip_count: Some(p.equip_count),
                next_report_attempt: next,
                last_reported: Some(p.fetch_time),
                last_changed,
                is_removed: db.players[i].is_removed,
            };
            db.players.set(i, row);
            pid = (i as i64) + 1;
            proof {
                assert(db.players@[i as int].player_id == i + 1);
                assert(updated_row_matches(old(db).players@[i as int], db.players@[i as int], *p, *j));
                assert(accepted_players_rel(old(db).players@, db.players@, *p, *j, pid));
            }
        },
        None => {
            pid = (db.players.len() as i64) + 1;
            let row = PlayerRow {
                player_id: pid,
                server_id: p.server_id,
                name: p.name.clone(),
                level: Some(p.level),
                attributes: Some(p.attributes),
                xp: Some(p.experience),
                honor: Some(p.honor),
                equip_count: Some(p.equip_count),
                next_report_attempt: p.fetch_time + days(1),
                last_reported: Some(p.fetch_time),
                last_changed: Some(p.fetch_time),
                is_removed: false,
            };
            db.players.push(row);
            proof {
                assert(db.players@.drop_last() =~= old(db).players@);
                assert(inserted_row_matches(db.players@.last(), pid, *p));
                assert(accepted_players_rel(old(db).players@, db.players@, *p, *j, pid));
            }
        },
    }
    proof {
        lemma_players_wf_after_report(old(db).players@, db.players@, *p, *j, pid);
        lemma_infos_wf_after_report(*old(db), *db, *p, pid);
    }
    let ghost db_after_player = *db;

    // Guild, description and blob dedup rows. The dedup tables are below
    // capacity, so each upsert is owed success; the error arms are dead.
    let gid: Option<i64> = match &p.guild {
        Some(g) => {
            match upsert_guild(db, p.server_id, g) {
                Ok(id) => Some(id),
                Err(_) => {
                    proof {
                        assert(false);
                    }
                    return Err(MFBotError::Internal);
                },
            }
        },
        None => None,
    };
    let did: i64 = match store_description(db, &p.description) {
        Ok(id) => id,
        Err(_) => {
            proof {
                assert(false);
            }
            return Err(MFBotError::Internal);
        },
    };
    let rid: i64 = match store_blob_bytes(db, compressed, hash) {
        Ok(id) => id,
        Err(_) => {
            proof {
                assert(false);
            }
            return Err(MFBotError::Internal);
        },
    };

    // The snapshot-recency guard: the snapshot about to be written must be
    // the newest one of this player before the equipment view may move.
    let mut newest = true;
    let n_infos = db.player_infos.len();
    let mut k: usize = 0;
    while k < n_infos
        invariant
            k <= n_infos == db.player_infos@.len(),
            newest <==> forall|t: int|
                0 <= t < k ==> !((#[trigger] db.player_infos@[t]).player_id == pid
                    && db.player_infos@[t].fetch_time >= p.fetch_time),
        decreases n_infos - k,
    {
        if db.player_infos[k].player_id == pid && db.player_infos[k].fetch_time >= p.fetch_time {
            newest = false;
        }
        k = k + 1;
    }

    // The snapshot row itself.
    let info_row = PlayerInfoRow {
        player_id: pid,
        fetch_time: p.fetch_time,
        xp: p.experience,
        level: p.level,
        honor: p.honor,
        soldier_advice: p.soldier_advice,
        description_id: did,
        guild_id: gid,
        response_id: rid,
    };
    let ghost infos_pre = db.player_infos@;
    db.player_infos.push(info_row);
    proof {
        assert(db.player_infos@.drop_last() =~= infos_pre);
        assert(infos_pre == db_after_player.player_infos@);
        lemma_infos_wf_after_push(db_after_player, *db, pid, p.fetch_time);
    }

    if newest {
        // Replace the player's current equipment set.
        let mut kept: Vec<EquipmentRow> = Vec::new();
        let n_eq = db.equipment.len();
        let mut e: usize = 0;
        while e < n_eq
            invariant
                e <= n_eq == db.equipment@.len(),
                kept@ == db.equipment@.subrange(0, e as int).filter(
                    |q: EquipmentRow| q.player_id != pid,
                ),
            decreases n_eq - e,
        {
            proof {
                assert(db.equipment@.subrange(0, e + 1 as int).drop_last() =~= db.equipment@.subrange(
                    0,
                    e as int,
                ));
                reveal(Seq::filter);
            }
            let q = db.equipment[e];
            if q.player_id != pid {
                kept.push(q);
            }
            e = e + 1;
        }
        proof {
            assert(db.equipment@.subrange(0, n_eq as int) =~= db.equipment@);
        }
        let ghost kept_len = kept@.len();
        let n_id = p.equip_idents.len();
        let mut w: usize = 0;
        while w < n_id
            invariant
                w <= n_id == p.equip_idents@.len(),
                kept@.len() == kept_len + w,
                kept@.subrange(0, kept_len as int) == db.equipment@.filter(
                    |q: EquipmentRow| q.player_id != pid,
                ),
                forall|t: int|
                    kept_len <= t < kept@.len() ==> #[trigger] kept@[t] == (EquipmentRow {
                        server_id: p.server_id,
                        player_id: pid,
                        ident: p.equip_idents@[t - kept_len],
                    }),
            decreases n_id - w,
        {
            kept.push(EquipmentRow { server_id: p.server_id, player_id: pid, ident: p.equip_idents[w] });
            w = w + 1;
        }
        proof {
            assert(kept@ =~= db.equipment@.filter(|q: EquipmentRow| q.player_id != pid) + Seq::new(
                p.equip_idents@.len(),
                |i: int| EquipmentRow { server_id: p.server_id, player_id: pid, ident: p.equip_idents@[i] },
            ));
        }
        db.equipment = kept;
    } else {
        // The guard can only fail for a snapshot older than one already
        // recorded, and the staleness check has ruled that out.
        proof {
            let t = choose|t: int|
                0 <= t < infos_pre.len() && (#[trigger] infos_pre[t]).player_id == pid
                    && infos_pre[t].fetch_time >= p.fetch_time;
            assert(false);
        }
        return Err(MFBotError::Internal);
    }

    proof {
        assert(accepted_rel(*old(db), *db, *p, *j));
        assert(!stale_in(old(db).players@, p.server_id, p.name@, p.fetch_time));
    }
    Ok(IngestOutcome::Accepted)
}

/// The player table stays well-formed through one report: ids and names
/// are untouched or fresh, and every written stamp is bounded.
proof fn lemma_players_wf_after_report(
    pre: Seq<PlayerRow>,
    post: Seq<PlayerRow>,
    p: ParsedReport,
    j: Jitter,
    pid: i64,
)
    requires
        crate::store::players_wf(pre),
        p.wf(),
        j.valid(),
        pre.len() < MAX_ROWS,
        accepted_players_rel(pre, post, p, j, pid),
    ensures
        crate::store::players_wf(post),
        1 <= pid <= post.len(),
        post[pid - 1].last_reported == Option::Some(p.fetch_time),
        forall|k: int|
            0 <= k < post.len() && k != pid - 1 ==> #[trigger] post[k] == pre[k],
        forall|k: int|
            0 <= k < pre.len() ==> (#[trigger] post[k]).player_id == pre[k].player_id,
{
    if has_player_key(pre, p.server_id, p.name@) {
        let i = choose|i: int|
            {
                &&& 0 <= i < pre.len()
                &&& (#[trigger] pre[i]).server_id == p.server_id
                &&& pre[i].name@ == p.name@
                &&& pid == i + 1
                &&& post.len() == pre.len()
                &&& updated_row_matches(pre[i], post[i], p, j)
                &&& forall|k: int| 0 <= k < pre.len() && k != i ==> post[k] == pre[k]
            };
        assert(stored_time(post[i].next_report_attempt)) by {
            lemma_backoff_bounded(p.fetch_time, spec_has_changed(pre[i], p.attributes, p.experience, p.level), pre[i].last_changed, j);
        }
        assert forall|k: int| 0 <= k < post.len() implies (#[trigger] post[k]).player_id == k + 1
            && stored_time(post[k].next_report_attempt) && stored_time_opt(post[k].last_reported)
            && stored_time_opt(post[k].last_changed) by {
            if k != i {
                assert(post[k] == pre[k]);
            } else {
                assert(post[k].player_id == pre[k].player_id);
            }
        }
        assert forall|a: int, b: int| 0 <= a < b < post.len() implies !((#[trigger] post[a]).server_id
            == (#[trigger] post[b]).server_id && post[a].name@ == post[b].name@) by {
            assert(!(pre[a].server_id == pre[b].server_id && pre[a].name@ == pre[b].name@));
        }
    } else {
        assert forall|k: int| 0 <= k < post.len() implies (#[trigger] post[k]).player_id == k + 1
            && stored_time(post[k].next_report_attempt) && stored_time_opt(post[k].last_reported)
            && stored_time_opt(post[k].last_changed) by {
            if k < pre.len() {
                assert(post[k] == pre[k]);
            }
        }
        assert forall|a: int, b: int| 0 <= a < b < post.len() implies !((#[trigger] post[a]).server_id
            == (#[trigger] post[b]).server_id && post[a].name@ == post[b].name@) by {
            if b < pre.len() {
                assert(post[a] == pre[a] && post[b] == pre[b]);
            } else {
                assert(post[a] == pre[a]);
                assert(!has_player_key(pre, p.server_id, post[b].name@));
            }
        }
    }
}

/// The backoff always lands within the stored-stamp bound.
proof fn lemma_backoff_bounded(ft: i64, changed: bool, last_changed: Option<i64>, j: Jitter)
    requires
        valid_time(ft),
        j.valid(),
    ensures
        stored_time(spec_backoff(ft, changed, last_changed, j) as i64),
        ft < spec_backoff(ft, changed, last_changed, j) <= ft + 1_300_000,
{
}

/// The snapshot history stays consistent when one player's
/// `last_reported` moves forward to a strictly newer fetch time.
proof fn lemma_infos_wf_after_report(pre: Db, post: Db, p: ParsedReport, pid: i64)
    requires
        pre.wf(),
        post.player_infos@ == pre.player_infos@,
        1 <= pid <= post.players@.len(),
        pre.players@.len() <= post.players@.len(),
        forall|k: int|
            0 <= k < post.players@.len() && k != pid - 1 ==> #[trigger] post.players@[k]
                == pre.players@[k],
        post.players@[pid - 1].last_reported == Option::Some(p.fetch_time),
        pid - 1 < pre.players@.len() ==> !(pre.players@[pid - 1].last_reported matches Option::Some(
            lr,
        ) && lr >= p.fetch_time),
    ensures
        crate::store::infos_wf(post.player_infos@, post.players@),
        forall|t: int|
            0 <= t < post.player_infos@.len() ==> !((#[trigger] post.player_infos@[t]).player_id
                == pid && post.player_infos@[t].fetch_time >= p.fetch_time),
{
    assert forall|k: int| 0 <= k < post.player_infos@.len() implies {
        let qid = (#[trigger] post.player_infos@[k]).player_id;
        &&& 1 <= qid <= post.players@.len()
        &&& post.players@[qid - 1].last_reported matches Option::Some(lr)
            && post.player_infos@[k].fetch_time <= lr
        &&& stored_time(post.player_infos@[k].fetch_time)
    } by {
        let qid = post.player_infos@[k].player_id;
        if qid == pid {
            assert(pre.players@[qid - 1].last_reported matches Option::Some(lr)
                && pre.player_infos@[k].fetch_time <= lr);
            assert(post.player_infos@[k].fetch_time < p.fetch_time);
        } else {
            assert(post.players@[qid - 1] == pre.players@[qid - 1]);
        }
    }
}

/// Appending the snapshot of the fetch time the player row now carries
/// keeps the history consistent.
proof fn lemma_infos_wf_after_push(pre: Db, post: Db, pid: i64, ft: i64)
    requires
        crate::store::infos_wf(pre.player_infos@, pre.players@),
        post.players@ == pre.players@,
        1 <= pid <= post.players@.len(),
        post.players@[pid - 1].last_reported == Option::Some(ft),
        stored_time(ft),
        post.player_infos@.len() == pre.player_infos@.len() + 1,
        post.player_infos@.drop_last() == pre.player_infos@,
        post.player_infos@.last().player_id == pid,
        post.player_infos@.last().fetch_time == ft,
    ensures
        crate::store::infos_wf(post.player_infos@, post.players@),
{
    assert forall|k: int| 0 <= k < post.player_infos@.len() implies {
        let qid = (#[trigger] post.player_infos@[k]).player_id;
        &&& 1 <= qid <= post.players@.len()
        &&& post.players@[qid - 1].last_reported matches Option::Some(lr)
            && post.player_infos@[k].fetch_time <= lr
        &&& stored_time(post.player_infos@[k].fetch_time)
    } by {
        if k < pre.player_infos@.len() {
            assert(post.player_infos@[k] == pre.player_infos@[k]);
        }
    }
}

/// Staleness discard: a report whose fetch time is not newer than the
/// player's `last_reported` leaves the whole store exactly as it was.
pub proof fn lemma_stale_discard(
    pre: Db,
    post: Db,
    p: ParsedReport,
    j: Jitter,
    r: Result<IngestOutcome, MFBotError>,
)
    requires
        ingest_apply_rel(pre, post, p, j, r),
        stale_in(pre.players@, p.server_id, p.name@, p.fetch_time),
    ensures
        post == pre,
        !(r == Result::<IngestOutcome, MFBotError>::Ok(IngestOutcome::Accepted)),
{
}

/// Keeping only the elements a predicate rejects leaves nothing.
proof fn lemma_filter_none<A>(s: Seq<A>, pred: spec_fn(A) -> bool)
    requires
        forall|i: int| 0 <= i < s.len() ==> !pred(#[trigger] s[i]),
    ensures
        s.filter(pred) == Seq::<A>::empty(),
    decreases s.len(),
{
    reveal(Seq::filter);
    if s.len() > 0 {
        lemma_filter_none(s.drop_last(), pred);
    }
}

/// Keeping everything a predicate accepts changes nothing.
proof fn lemma_filter_all<A>(s: Seq<A>, pred: spec_fn(A) -> bool)
    requires
        forall|i: int| 0 <= i < s.len() ==> pred(#[trigger] s[i]),
    ensures
        s.filter(pred) =~= s,
    decreases s.len(),
{
    reveal(Seq::filter);
    if s.len() > 0 {
        lemma_filter_all(s.drop_last(), pred);
    }
}

/// The equipment rows of player `pid` after an accepted report are
/// exactly the report's ident set.
proof fn lemma_equipment_of_pid(pre_eq: Seq<EquipmentRow>, post_eq: Seq<EquipmentRow>, p: ParsedReport, pid: i64)
    requires
        post_eq == pre_eq.filter(|e: EquipmentRow| e.player_id != pid) + Seq::new(
            p.equip_idents@.len(),
            |i: int| EquipmentRow { server_id: p.server_id, player_id: pid, ident: p.equip_idents@[i] },
        ),
    ensures
        post_eq.filter(|e: EquipmentRow| e.player_id == pid) == Seq::new(
            p.equip_idents@.len(),
            |i: int| EquipmentRow { server_id: p.server_id, player_id: pid, ident: p.equip_idents@[i] },
        ),
{
    let keep = |e: EquipmentRow| e.player_id == pid;
    let kept = pre_eq.filter(|e: EquipmentRow| e.player_id != pid);
    let fresh = Seq::new(
        p.equip_idents@.len(),
        |i: int| EquipmentRow { server_id: p.server_id, player_id: pid, ident: p.equip_idents@[i] },
    );
    Seq::filter_distributes_over_add(kept, fresh, keep);
    assert forall|i: int| 0 <= i < kept.len() implies !keep(#[trigger] kept[i]) by {
        pre_eq.lemma_filter_pred(|e: EquipmentRow| e.player_id != pid, i);
    }
    lemma_filter_none(kept, keep);
    lemma_filter_all(fresh, keep);
    assert(post_eq.filter(keep) =~= fresh);
}

/// Snapshot recency: when two reports of the same player, both newer than
/// anything the store had absorbed for that player, arrive in either
/// order, the equipment view ends on the ident set of the report with the
/// newer fetch time.
pub proof fn lemma_snapshot_recency(
    db0: Db,
    db1: Db,
    db2: Db,
    a: ParsedReport,
    b: ParsedReport,
    ja: Jitter,
    jb: Jitter,
    oa: IngestOutcome,
    ob: IngestOutcome,
)
    requires
        db0.wf(),
        db1.wf(),
        db2.wf(),
        ingest_apply_rel(db0, db1, a, ja, Result::Ok(oa)),
        ingest_apply_rel(db1, db2, b, jb, Result::Ok(ob)),
        a.server_id == b.server_id,
        a.name@ == b.name@,
        a.fetch_time != b.fetch_time,
        !stale_in(db0.players@, a.server_id, a.name@, a.fetch_time),
        !stale_in(db0.players@, b.server_id, b.name@, b.fetch_time),
    ensures
        ({
            let w = if a.fetch_time > b.fetch_time {
                a
            } else {
                b
            };
            exists|pid: i64|
                {
                    &&& 1 <= pid <= db2.players@.len()
                    &&& (#[trigger] db2.players@[pid - 1]).server_id == a.server_id
                    &&& db2.players@[pid - 1].name@ == a.name@
                    &&& db2.equipment@.filter(|e: EquipmentRow| e.player_id == pid) == Seq::new(
                        w.equip_idents@.len(),
                        |i: int| EquipmentRow {
                            server_id: w.server_id,
                            player_id: pid,
                            ident: w.equip_idents@[i],
                        },
                    )
                }
        }),
{
    let sid = a.server_id;
    let name = a.name@;
    // The first report cannot be stale, so it was accepted.
    assert(oa == IngestOutcome::Accepted);
    let (pid, gid, did, rid) = choose|pid: i64, gid: Option<i64>, did: i64, rid: i64|
        {
            &&& accepted_players_rel(db0.players@, db1.players@, a, ja, pid)
            &&& match (a.guild, gid) {
                (Option::Some(g), Option::Some(id)) => guild_upsert_rel(
                    db0.guilds@,
                    db1.guilds@,
                    a.server_id,
                    g@,
                    id,
                ),
                (Option::None, Option::None) => db1.guilds@ == db0.guilds@,
                _ => false,
            }
            &&& desc_upsert_rel(db0.descriptions@, db1.descriptions@, a.description@, did)
            &&& zstd_of(a.info@) matches Option::Some(zb) && blob_store_rel(
                db0.blobs@,
                db1.blobs@,
                md5_hex_of(zb),
                zb,
                Result::Ok(rid),
            )
            &&& db1.player_infos@ == #[trigger] db0.player_infos@.push(
                PlayerInfoRow {
                    player_id: pid,
                    fetch_time: a.fetch_time,
                    xp: a.experience,
                    level: a.level,
                    honor: a.honor,
                    soldier_advice: a.soldier_advice,
                    description_id: did,
                    guild_id: gid,
                    response_id: rid,
                },
            )
            &&& db1.equipment@ == db0.equipment@.filter(|e: EquipmentRow| e.player_id != pid)
                + Seq::new(
                a.equip_idents@.len(),
                |i: int| EquipmentRow { server_id: a.server_id, player_id: pid, ident: a.equip_idents@[i] },
            )
        };
    // Identify the player's row in the table after the first report.
    assert(1 <= pid <= db1.players@.len() && db1.players@[pid - 1].server_id == sid
        && db1.players@[pid - 1].name@ == name && db1.players@[pid - 1].last_reported
        == Option::Some(a.fetch_time)) by {
        if has_player_key(db0.players@, sid, name) {
            let i = choose|i: int|
                {
                    &&& 0 <= i < db0.players@.len()
                    &&& (#[trigger] db0.players@[i]).server_id == sid
                    &&& db0.players@[i].name@ == name
                    &&& pid == i + 1
                    &&& db1.players@.len() == db0.players@.len()
                    &&& updated_row_matches(db0.players@[i], db1.players@[i], a, ja)
                    &&& forall|k: int|
                        0 <= k < db0.players@.len() && k != i ==> db1.players@[k]
                            == db0.players@[k]
                };
        }
    }
    // Any row matching the identity in the new table is that row.
    assert forall|k: int|
        0 <= k < db1.players@.len() && (#[trigger] db1.players@[k]).server_id == sid
            && db1.players@[k].name@ == name implies k == pid - 1 by {
        if k != pid - 1 {
            assert(!(db1.players@[k].server_id == db1.players@[pid - 1].server_id
                && db1.players@[k].name@ == db1.players@[pid - 1].name@));
        }
    }

    if b.fetch_time < a.fetch_time {
        // The second report arrives late and is discarded.
        assert(stale_in(db1.players@, sid, name, b.fetch_time));
        lemma_stale_discard(db1, db2, b, jb, Result::Ok(ob));
        lemma_equipment_of_pid(db0.equipment@, db1.equipment@, a, pid);
        assert(db2.equipment@.filter(|e: EquipmentRow| e.player_id == pid) == Seq::new(
            a.equip_idents@.len(),
            |i: int| EquipmentRow { server_id: a.server_id, player_id: pid, ident: a.equip_idents@[i] },
        ));
    } else {
        // The second report is the newer one and replaces the view.
        assert(!stale_in(db1.players@, sid, name, b.fetch_time));
        assert(ob == IngestOutcome::Accepted);
        let (pid2, gid2, did2, rid2) = choose|pid2: i64, gid2: Option<i64>, did2: i64, rid2: i64|
            {
                &&& accepted_players_rel(db1.players@, db2.players@, b, jb, pid2)
                &&& match (b.guild, gid2) {
                    (Option::Some(g), Option::Some(id)) => guild_upsert_rel(
                        db1.guilds@,
                        db2.guilds@,
                        b.server_id,
                        g@,
                        id,
                    ),
                    (Option::None, Option::None) => db2.guilds@ == db1.guilds@,
                    _ => false,
                }
                &&& desc_upsert_rel(db1.descriptions@, db2.descriptions@, b.description@, did2)
                &&& zstd_of(b.info@) matches Option::Some(zb2) && blob_store_rel(
                    db1.blobs@,
                    db2.blobs@,
                    md5_hex_of(zb2),
                    zb2,
                    Result::Ok(rid2),
                )
                &&& db2.player_infos@ == #[trigger] db1.player_infos@.push(
                    PlayerInfoRow {
                        player_id: pid2,
                        fetch_time: b.fetch_time,
                        xp: b.experience,
                        level: b.level,
                        honor: b.honor,
                        soldier_advice: b.soldier_advice,
                        description_id: did2,
                        guild_id: gid2,
                        response_id: rid2,
                    },
                )
                &&& db2.equipment@ == db1.equipment@.filter(|e: EquipmentRow| e.player_id != pid2)
                    + Seq::new(
                    b.equip_idents@.len(),
                    |i: int| EquipmentRow { server_id: b.server_id, player_id: pid2, ident: b.equip_idents@[i] },
                )
            };
        assert(has_player_key(db1.players@, sid, name));
        assert(pid2 == pid) by {
            let i2 = choose|i2: int|
                {
                    &&& 0 <= i2 < db1.players@.len()
                    &&& (#[trigger] db1.players@[i2]).server_id == sid
                    &&& db1.players@[i2].name@ == name
                    &&& pid2 == i2 + 1
                    &&& db2.players@.len() == db1.players@.len()
                    &&& updated_row_matches(db1.players@[i2], db2.players@[i2], b, jb)
                    &&& forall|k: int|
                        0 <= k < db1.players@.len() && k != i2 ==> db2.players@[k]
                            == db1.players@[k]
                };
            assert(i2 == pid - 1);
        }
        // Rows keep their identity through the second update.
        assert(1 <= pid <= db2.players@.len() && db2.players@[pid - 1].server_id == sid
            && db2.players@[pid - 1].name@ == name) by {
            let i2 = choose|i2: int|
                {
                    &&& 0 <= i2 < db1.players@.len()
                    &&& (#[trigger] db1.players@[i2]).server_id == sid
                    &&& db1.players@[i2].name@ == name
                    &&& pid2 == i2 + 1
                    &&& db2.players@.len() == db1.players@.len()
                    &&& updated_row_matches(db1.players@[i2], db2.players@[i2], b, jb)
                    &&& forall|k: int|
                        0 <= k < db1.players@.len() && k != i2 ==> db2.players@[k]
                            == db1.players@[k]
                };
        }
        lemma_equipment_of_pid(db1.equipment@, db2.equipment@, b, pid);
        assert(db2.equipment@.filter(|e: EquipmentRow| e.player_id == pid) == Seq::new(
            b.equip_idents@.len(),
            |i: int| EquipmentRow { server_id: b.server_id, player_id: pid, ident: b.equip_idents@[i] },
        ));
    }
}

/// How one whole report moves the store, resolution included: the server
/// table may gain the report's server, and on success some parsed form of
/// the report and some drawn jitter ran the transaction. On failure
/// nothing but the server table has moved, and the error names why: an
/// unresolvable server URL, a malformed payload or date, a table at
/// capacity, or a failing compressor.
pub open spec fn insert_player_rel(
    pre: Db,
    post: Db,
    rep: RawOtherPlayer,
    now: i64,
    r: Result<IngestOutcome, MFBotError>,
) -> bool {
    match r {
        Result::Ok(out) => exists|sid: i64, p: ParsedReport, j: Jitter, mid: Db|
            {
                &&& #[trigger] resolve_rel(pre, mid, rep.server@, Result::Ok(sid))
                &&& mid.players@ == pre.players@
                &&& mid.player_infos@ == pre.player_infos@
                &&& mid.guilds@ == pre.guilds@
                &&& mid.descriptions@ == pre.descriptions@
                &&& mid.blobs@ == pre.blobs@
                &&& mid.equipment@ == pre.equipment@
                &&& mid.todo_hof_pages@ == pre.todo_hof_pages@
                &&& #[trigger] parsed_from(p, rep, sid, now)
                &&& j.valid()
                &&& #[trigger] ingest_apply_rel(mid, post, p, j, Result::Ok(out))
                &&& post.servers@ == mid.servers@
                &&& post.todo_hof_pages@ == mid.todo_hof_pages@
            },
        Result::Err(e) => {
            &&& post.players@ == pre.players@
            &&& post.player_infos@ == pre.player_infos@
            &&& post.guilds@ == pre.guilds@
            &&& post.descriptions@ == pre.descriptions@
            &&& post.blobs@ == pre.blobs@
            &&& post.equipment@ == pre.equipment@
            &&& post.todo_hof_pages@ == pre.todo_hof_pages@
            &&& pre.servers@.len() <= post.servers@.len() <= pre.servers@.len() + 1
            &&& post.servers@.subrange(0, pre.servers@.len() as int) == pre.servers@
            &&& match e {
                MFBotError::InvalidServer => canon_of_raw(rep.server@) is None,
                MFBotError::InvalidPlayer(_) => canon_of_raw(rep.server@) is Some
                    && !report_parses(rep),
                MFBotError::DBError(_) => canon_of_raw(rep.server@) is Some && (pre.servers@.len()
                    >= MAX_ROWS || (report_parses(rep) && (pre.players@.len() >= MAX_ROWS
                    || pre.guilds@.len() >= MAX_ROWS || pre.descriptions@.len() >= MAX_ROWS
                    || pre.blobs@.len() >= MAX_ROWS))),
                MFBotError::Internal => canon_of_raw(rep.server@) is Some && report_parses(rep)
                    && zstd_of(rep.info@) is None,
                _ => false,
            }
        },
    }
}

/// Absorbs one raw report: resolves the server, parses and validates the
/// payload, and runs the ingestion transaction.
pub fn insert_player(db: &mut Db, cache: &mut ServerCache, rep: &RawOtherPlayer, now: i64) -> (r:
    Result<IngestOutcome, MFBotError>)
    requires
        old(db).wf(),
        old(cache).consistent(old(db).servers@),
        valid_time(now),
    ensures
        final(db).wf(),
        final(cache).consistent(final(db).servers@),
        insert_player_rel(*old(db), *final(db), *rep, now, r),
{
    let sid = match get_server_id(db, cache, &rep.server, now) {
        Ok(s) => s,
        Err(e) => {
            return Err(e);
        },
    };
    let ghost mid = *db;
    let p = match parse_report(rep, sid, now) {
        Ok(p) => p,
        Err(e) => {
            return Err(e);
        },
    };
    if db.players.len() >= MAX_ROWS || db.guilds.len() >= MAX_ROWS || db.descriptions.len()
        >= MAX_ROWS || db.blobs.len() >= MAX_ROWS {
        return Err(MFBotError::DBError(String::from_str("store is at capacity")));
    }
    let j = draw_jitter();
    let r = apply_report(db, &p, &j);
    proof {
        lemma_cache_survives(*cache, mid.servers@, db.servers@);
        match r {
            Result::Ok(out) => {
                assert(resolve_rel(*old(db), mid, rep.server@, Result::Ok(sid)));
                assert(parsed_from(p, *rep, sid, now));
                assert(ingest_apply_rel(mid, *db, p, j, Result::Ok(out)));
            },
            Result::Err(_) => {},
        }
    }
    r
}

/// A cache stays consistent with an unchanged server table.
proof fn lemma_cache_survives(
    cache: ServerCache,
    pre: Seq<crate::store::ServerRow>,
    post: Seq<crate::store::ServerRow>,
)
    requires
        cache.consistent(pre),
        post == pre,
    ensures
        cache.consistent(post),
{
}

/// How a batch of reports moves the store: each report runs in order, and
/// one report's failure neither stops the batch nor touches what earlier
/// reports wrote.
pub open spec fn report_batch_rel(
    pre: Db,
    post: Db,
    reps: Seq<RawOtherPlayer>,
    now: i64,
    results: Seq<Result<IngestOutcome, MFBotError>>,
) -> bool
    decreases reps.len(),
{
    if reps.len() == 0 {
        &&& post == pre
        &&& results.len() == 0
    } else {
        &&& results.len() == reps.len()
        &&& exists|mid: Db|
            {
                &&& #[trigger] insert_player_rel(pre, mid, reps[0], now, results[0])
                &&& report_batch_rel(mid, post, reps.drop_first(), now, results.drop_first())
            }
    }
}

/// Extending a batch by one more report.
proof fn lemma_report_batch_snoc(
    pre: Db,
    mid: Db,
    post: Db,
    reps: Seq<RawOtherPlayer>,
    now: i64,
    results: Seq<Result<IngestOutcome, MFBotError>>,
    rep: RawOtherPlayer,
    r: Result<IngestOutcome, MFBotError>,
)
    requires
        report_batch_rel(pre, mid, reps, now, results),
        insert_player_rel(mid, post, rep, now, r),
    ensures
        report_batch_rel(pre, post, reps.push(rep), now, results.push(r)),
    decreases reps.len(),
{
    let sreps = reps.push(rep);
    let sres = results.push(r);
    if reps.len() == 0 {
        assert(mid == pre);
        assert(sreps[0] == rep && sres[0] == r);
        assert(sreps.drop_first() =~= Seq::<RawOtherPlayer>::empty());
        assert(sres.drop_first() =~= Seq::<Result<IngestOutcome, MFBotError>>::empty());
        assert(report_batch_rel(post, post, sreps.drop_first(), now, sres.drop_first()));
    } else {
        assert(sreps[0] == reps[0] && sres[0] == results[0]);
        assert(sreps.drop_first() =~= reps.drop_first().push(rep));
        assert(sres.drop_first() =~= results.drop_first().push(r));
        let m1 = choose|m1: Db|
            {
                &&& #[trigger] insert_player_rel(pre, m1, reps[0], now, results[0])
                &&& report_batch_rel(m1, mid, reps.drop_first(), now, results.drop_first())
            };
        lemma_report_batch_snoc(m1, mid, post, reps.drop_first(), now, results.drop_first(), rep, r);
    }
}

/// Absorbs a batch of raw reports, one transaction per report; a failing
/// report is recorded in its slot and the batch goes on.
#[verifier::loop_isolation(false)]
pub fn report_players(db: &mut Db, cache: &mut ServerCache, reports: &Vec<RawOtherPlayer>, now: i64) -> (results: Vec<Result<IngestOutcome, MFBotError>>)
    requires
        old(db).wf(),
        old(cache).consistent(old(db).servers@),
        valid_time(now),
    ensures
        final(db).wf(),
        final(cache).consistent(final(db).servers@),
        report_batch_rel(*old(db), *final(db), reports@, now, results@),
{
    let ghost pre = *db;
    let mut results: Vec<Result<IngestOutcome, MFBotError>> = Vec::new();
    let n = reports.len();
    let mut i: usize = 0;
    proof {
        assert(reports@.subrange(0, 0) =~= Seq::<RawOtherPlayer>::empty());
    }
    while i < n
        invariant
            i <= n == reports@.len(),
            results@.len() == i,
            db.wf(),
            cache.consistent(db.servers@),
            report_batch_rel(pre, *db, reports@.subrange(0, i as int), now, results@),
        decreases n - i,
    {
        let ghost cur = *db;
        let ghost cur_results = results@;
        let r = insert_player(db, cache, &reports[i], now);
        results.push(r);
        proof {
            lemma_report_batch_snoc(
                pre,
                cur,
                *db,
                reports@.subrange(0, i as int),
                now,
                cur_results,
                reports@[i as int],
                r,
            );
            assert(reports@.subrange(0, i + 1 as int) =~= reports@.subrange(0, i as int).push(
                reports@[i as int],
            ));
        }
        i = i + 1;
    }
    proof {
        assert(reports@.subrange(0, n as int) =~= reports@);
    }
    results
}

} // verus!
