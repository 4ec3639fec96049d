//! The relational store, modelled in memory.
//!
//! One `Db` value holds every table the service works over. Row ids are
//! assigned densely: the row with id `k` sits at index `k - 1` of its
//! table, which makes id uniqueness structural. The store's
//! well-formedness predicate [`Db::wf`] carries the schema-level
//! invariants: unique canonical server URLs, one player row per
//! (server, name) identity, deduplicated description texts and blob
//! hashes, unique (server, name) guilds, unique (server, page) work rows,
//! bounded timestamps, and the recency link between snapshot history and
//! each player's `last_reported` mark.

use vstd::prelude::*;

use crate::time::MAX_TIME;

verus! {

/// Cap on the number of rows of any id-carrying table; an insert beyond
/// it fails rather than risking id arithmetic overflowing.
pub const MAX_ROWS: usize = 0x4000_0000;

/// Bound on every timestamp held in a row: a calendar timestamp plus at
/// most a month of scheduling headroom.
pub const STORE_TIME_BOUND: i64 = 9_100_000_000_000;

/// A timestamp as rows may hold it.
pub open spec fn stored_time(t: i64) -> bool {
    -STORE_TIME_BOUND <= t <= STORE_TIME_BOUND
}

/// A nullable timestamp as rows may hold it.
pub open spec fn stored_time_opt(t: Option<i64>) -> bool {
    match t {
        Option::None => true,
        Option::Some(v) => stored_time(v),
    }
}

/// A tracked game server.
pub struct ServerRow {
    /// Dense id; the row sits at index `server_id - 1`.
    pub server_id: i64,
    /// Canonical URL: secure scheme, host (and port), no path.
    pub url: String,
    /// When the last hall-of-fame crawl cycle for this server started.
    pub last_hof_crawl: i64,
}

/// A tracked player; one row per (server, name) identity.
pub struct PlayerRow {
    /// Dense id; the row sits at index `player_id - 1`.
    pub player_id: i64,
    /// The server this player lives on.
    pub server_id: i64,
    /// The player's name, the identity key within a server.
    pub name: String,
    /// Last reported level, unknown until first full report.
    pub level: Option<i64>,
    /// Last reported summed attributes.
    pub attributes: Option<i64>,
    /// Last reported experience.
    pub xp: Option<i64>,
    /// Last reported honor.
    pub honor: Option<i64>,
    /// Last reported number of equipped items.
    pub equip_count: Option<i64>,
    /// The recrawl lease deadline: the row is due once this lies in the
    /// past. Newly discovered players are due immediately.
    pub next_report_attempt: i64,
    /// Fetch time of the newest absorbed report.
    pub last_reported: Option<i64>,
    /// Fetch time of the most recent observed change in level, xp or
    /// attributes; the basis for backoff tiering.
    pub last_changed: Option<i64>,
    /// Soft-delete mark; removed players are never handed out as work.
    pub is_removed: bool,
}

/// One immutable snapshot of a player's reported state.
pub struct PlayerInfoRow {
    /// The player this snapshot belongs to.
    pub player_id: i64,
    /// When the crawler fetched the data.
    pub fetch_time: i64,
    /// Experience at fetch time.
    pub xp: i64,
    /// Level at fetch time.
    pub level: i64,
    /// Honor at fetch time.
    pub honor: i64,
    /// Suggested soldier count, if the report carried one.
    pub soldier_advice: Option<i64>,
    /// Reference into the description dedup table.
    pub description_id: i64,
    /// Reference into the guild table, if the player is in a guild.
    pub guild_id: Option<i64>,
    /// Reference into the blob store.
    pub response_id: i64,
}

/// A guild, unique per (server, name).
pub struct GuildRow {
    /// Dense id; the row sits at index `guild_id - 1`.
    pub guild_id: i64,
    /// The server the guild lives on.
    pub server_id: i64,
    /// The guild's name.
    pub name: String,
    /// Soft-delete mark; re-sighting a removed guild clears it.
    pub is_removed: bool,
}

/// A deduplicated free-text description.
pub struct DescriptionRow {
    /// Dense id; the row sits at index `description_id - 1`.
    pub description_id: i64,
    /// The text itself, the dedup key.
    pub text: String,
}

/// A content-addressed compressed report payload.
pub struct BlobRow {
    /// Dense id; the row sits at index `response_id - 1`.
    pub response_id: i64,
    /// Hex digest of the compressed bytes, the dedup key.
    pub hash: String,
    /// The compressed payload.
    pub bytes: Vec<u8>,
}

/// One currently equipped item of a player.
#[derive(Clone, Copy)]
pub struct EquipmentRow {
    /// The server the owning player lives on.
    pub server_id: i64,
    /// The owning player.
    pub player_id: i64,
    /// The packed equipment identifier.
    pub ident: i32,
}

/// One lease-able hall-of-fame page of a server's active crawl cycle.
#[derive(Clone, Copy)]
pub struct TodoHofPageRow {
    /// The server whose listing the page belongs to.
    pub server_id: i64,
    /// The page index.
    pub idx: i64,
    /// The lease deadline; the page is due once this lies in the past.
    pub next_report_attempt: i64,
}

/// The whole store.
pub struct Db {
    /// Tracked servers.
    pub servers: Vec<ServerRow>,
    /// Tracked players.
    pub players: Vec<PlayerRow>,
    /// Append-only snapshot history.
    pub player_infos: Vec<PlayerInfoRow>,
    /// Guilds.
    pub guilds: Vec<GuildRow>,
    /// Deduplicated descriptions.
    pub descriptions: Vec<DescriptionRow>,
    /// Content-addressed blobs.
    pub blobs: Vec<BlobRow>,
    /// Current equipped-item sets.
    pub equipment: Vec<EquipmentRow>,
    /// Live hall-of-fame page work rows.
    pub todo_hof_pages: Vec<TodoHofPageRow>,
}

/// Servers: dense ids, unique canonical URLs, bounded crawl stamps.
pub open spec fn servers_wf(s: Seq<ServerRow>) -> bool {
    &&& forall|i: int|
        0 <= i < s.len() ==> (#[trigger] s[i]).server_id == i + 1 && stored_time(s[i].last_hof_crawl)
    &&& forall|i: int, j: int|
        0 <= i < j < s.len() ==> (#[trigger] s[i]).url@ != (#[trigger] s[j]).url@
}

/// Players: dense ids, one row per (server, name), bounded stamps.
pub open spec fn players_wf(s: Seq<PlayerRow>) -> bool {
    &&& forall|i: int|
        0 <= i < s.len() ==> (#[trigger] s[i]).player_id == i + 1 && stored_time(
            s[i].next_report_attempt,
        ) && stored_time_opt(s[i].last_reported) && stored_time_opt(s[i].last_changed)
    &&& forall|i: int, j: int|
        0 <= i < j < s.len() ==> !((#[trigger] s[i]).server_id == (#[trigger] s[j]).server_id && s[i].name@
            == s[j].name@)
}

/// Guilds: dense ids, one row per (server, name).
pub open spec fn guilds_wf(s: Seq<GuildRow>) -> bool {
    &&& forall|i: int| 0 <= i < s.len() ==> (#[trigger] s[i]).guild_id == i + 1
    &&& forall|i: int, j: int|
        0 <= i < j < s.len() ==> !((#[trigger] s[i]).server_id == (#[trigger] s[j]).server_id && s[i].name@
            == s[j].name@)
}

/// Descriptions: dense ids, unique texts.
pub open spec fn descriptions_wf(s: Seq<DescriptionRow>) -> bool {
    &&& forall|i: int| 0 <= i < s.len() ==> (#[trigger] s[i]).description_id == i + 1
    &&& forall|i: int, j: int|
        0 <= i < j < s.len() ==> (#[trigger] s[i]).text@ != (#[trigger] s[j]).text@
}

/// Blobs: dense ids, unique hashes.
pub open spec fn blobs_wf(s: Seq<BlobRow>) -> bool {
    &&& forall|i: int| 0 <= i < s.len() ==> (#[trigger] s[i]).response_id == i + 1
    &&& forall|i: int, j: int|
        0 <= i < j < s.len() ==> (#[trigger] s[i]).hash@ != (#[trigger] s[j]).hash@
}

/// Work rows: at most one per (server, page), bounded lease stamps.
pub open spec fn todo_wf(s: Seq<TodoHofPageRow>) -> bool {
    &&& forall|i: int| 0 <= i < s.len() ==> stored_time((#[trigger] s[i]).next_report_attempt)
    &&& forall|i: int, j: int|
        0 <= i < j < s.len() ==> !((#[trigger] s[i]).server_id == (#[trigger] s[j]).server_id && s[i].idx
            == s[j].idx)
}

/// Snapshot history against the player table: every snapshot belongs to
/// an existing player whose `last_reported` is at least as new as the
/// snapshot. This is what lets the pipeline's recency guard keep the
/// equipment view on the newest snapshot.
pub open spec fn infos_wf(infos: Seq<PlayerInfoRow>, players: Seq<PlayerRow>) -> bool {
    forall|k: int|
        0 <= k < infos.len() ==> {
            let pid = (#[trigger] infos[k]).player_id;
            &&& 1 <= pid <= players.len()
            &&& players[pid - 1].last_reported matches Option::Some(lr) && infos[k].fetch_time <= lr
            &&& stored_time(infos[k].fetch_time)
        }
}

impl Db {
    /// The store's schema-level invariants.
    pub open spec fn wf(self) -> bool {
        &&& servers_wf(self.servers@)
        &&& players_wf(self.players@)
        &&& guilds_wf(self.guilds@)
        &&& descriptions_wf(self.descriptions@)
        &&& blobs_wf(self.blobs@)
        &&& todo_wf(self.todo_hof_pages@)
        &&& infos_wf(self.player_infos@, self.players@)
    }

    /// An empty store, well-formed by construction.
    pub fn new() -> (db: Db)
        ensures
            db.wf(),
            db.servers@.len() == 0,
            db.players@.len() == 0,
            db.player_infos@.len() == 0,
            db.guilds@.len() == 0,
            db.descriptions@.len() == 0,
            db.blobs@.len() == 0,
            db.equipment@.len() == 0,
            db.todo_hof_pages@.len() == 0,
    {
        Db {
            servers: Vec::new(),
            players: Vec::new(),
            player_infos: Vec::new(),
            guilds: Vec::new(),
            descriptions: Vec::new(),
            blobs: Vec::new(),
            equipment: Vec::new(),
            todo_hof_pages: Vec::new(),
        }
    }
}

/// The player table has a row for the (server, name) identity.
pub open spec fn has_player_key(s: Seq<PlayerRow>, sid: i64, name: Seq<char>) -> bool {
    exists|i: int| 0 <= i < s.len() && (#[trigger] s[i]).server_id == sid && s[i].name@ == name
}

/// Looks the (server, name) identity up in the player table.
pub fn find_player(players: &Vec<PlayerRow>, server_id: i64, name: &String) -> (r: Option<usize>)
    ensures
        match r {
            Option::Some(i) => i < players@.len() && players@[i as int].server_id == server_id
                && players@[i as int].name@ == name@,
            Option::None => !has_player_key(players@, server_id, name@),
        },
{
    let n = players.len();
    let mut i: usize = 0;
    while i < n
        invariant
            i <= n == players@.len(),
            forall|j: int|
                0 <= j < i ==> !((#[trigger] players@[j]).server_id == server_id
                    && players@[j].name@ == name@),
        decreases n - i,
    {
        if players[i].server_id == server_id && players[i].name == *name {
            return Some(i);
        }
        i = i + 1;
    }
    None
}

} // verus!
