//! Server identity resolution.
//!
//! A reported server URL is normalized to a canonical form (secure scheme
//! forced, path, query and fragment stripped) and mapped to a stable
//! integer id. The store keeps one row per canonical URL; an in-process
//! cache short-circuits repeated lookups and is never invalidated, since
//! the canonical URL to id mapping is permanent.

use vstd::prelude::*;

use crate::error::MFBotError;
use crate::store::{Db, ServerRow, servers_wf, MAX_ROWS};
use crate::time::{days, valid_time};

verus! {

/// What URL normalization returns: the canonical text for inputs the URL
/// parser accepts and whose scheme can be forced to https, nothing
/// otherwise. The result depends on the input text alone.
pub uninterp spec fn canon_url_of(s: Seq<char>) -> Option<Seq<char>>;

/// Relies on `url::Url::parse`, `url::Url::set_scheme`,
/// `url::Url::set_path`, `url::Url::set_query`, `url::Url::set_fragment`
/// and the `Display`-based serialization of `url::Url`: parses the input,
/// forces the scheme to https, strips path, query and fragment, and
/// serializes what is left (scheme, host, port). Fails exactly when the
/// input is not a parseable URL or its scheme cannot be replaced.
#[verifier::external_body]
fn canonicalize_url(s: &String) -> (r: Option<String>)
    ensures
        match r {
            Option::Some(c) => canon_url_of(s@) == Option::Some(c@),
            Option::None => canon_url_of(s@) is None,
        },
{
    let Ok(mut u) = url::Url::parse(s) else {
        return None;
    };
    if u.set_scheme("https").is_err() {
        return None;
    }
    u.set_path("");
    u.set_query(None);
    u.set_fragment(None);
    Some(u.to_string())
}

/// Whether the raw text already names a scheme the game clients use; only
/// then is no default scheme prepended.
pub open spec fn starts_http(s: Seq<char>) -> bool {
    s.len() >= 4 && s[0] == 'h' && s[1] == 't' && s[2] == 't' && s[3] == 'p'
}

/// The raw URL with the default scheme prepended when none of the
/// expected ones is present.
pub open spec fn with_scheme(s: Seq<char>) -> Seq<char> {
    if starts_http(s) {
        s
    } else {
        "https://"@ + s
    }
}

/// The canonical form of a raw reported URL, if it has one.
pub open spec fn canon_of_raw(raw: Seq<char>) -> Option<Seq<char>> {
    canon_url_of(with_scheme(raw))
}

/// The server table maps canonical URL `c` to id `id`.
pub open spec fn server_with_url_id(s: Seq<ServerRow>, c: Seq<char>, id: i64) -> bool {
    exists|i: int| 0 <= i < s.len() && (#[trigger] s[i]).url@ == c && s[i].server_id == id
}

/// The server table has a row for canonical URL `c`.
pub open spec fn has_server_url(s: Seq<ServerRow>, c: Seq<char>) -> bool {
    exists|i: int| 0 <= i < s.len() && (#[trigger] s[i]).url@ == c
}

/// One remembered resolution.
pub struct CacheEntry {
    /// The canonical URL.
    pub url: String,
    /// The id the store assigned to it.
    pub server_id: i64,
}

/// The resolver's read-through cache of canonical URL to server id.
pub struct ServerCache {
    /// The remembered resolutions, in insertion order.
    pub entries: Vec<CacheEntry>,
}

impl ServerCache {
    /// Every remembered resolution agrees with the server table.
    pub open spec fn consistent(self, servers: Seq<ServerRow>) -> bool {
        forall|k: int|
            0 <= k < self.entries@.len() ==> server_with_url_id(
                servers,
                (#[trigger] self.entries@[k]).url@,
                self.entries@[k].server_id,
            )
    }

    /// An empty cache, consistent with any table.
    pub fn new() -> (c: ServerCache)
        ensures
            c.entries@.len() == 0,
    {
        ServerCache { entries: Vec::new() }
    }
}

/// In a well-formed table, a canonical URL determines its id: identity
/// resolution is idempotent at the store level.
pub proof fn lemma_server_identity_unique(s: Seq<ServerRow>, c: Seq<char>, id1: i64, id2: i64)
    requires
        servers_wf(s),
        server_with_url_id(s, c, id1),
        server_with_url_id(s, c, id2),
    ensures
        id1 == id2,
{
    let i = choose|i: int| 0 <= i < s.len() && (#[trigger] s[i]).url@ == c && s[i].server_id == id1;
    let j = choose|j: int| 0 <= j < s.len() && (#[trigger] s[j]).url@ == c && s[j].server_id == id2;
    if i != j {
        assert(s[i].url@ != s[j].url@);
    }
}

/// How one resolution changes the server table: at most one row is
/// appended, existing rows stay, and the result is the id of the row
/// whose canonical URL matches, exactly when the input normalizes.
pub open spec fn resolve_rel(pre: Db, post: Db, raw: Seq<char>, r: Result<i64, MFBotError>) -> bool {
    &&& post.wf()
    &&& pre.servers@.len() <= post.servers@.len() <= pre.servers@.len() + 1
    &&& post.servers@.subrange(0, pre.servers@.len() as int) == pre.servers@
    &&& match r {
        Result::Ok(id) => {
            &&& canon_of_raw(raw) matches Option::Some(c)
            &&& server_with_url_id(post.servers@, canon_of_raw(raw).unwrap(), id)
            &&& (has_server_url(pre.servers@, canon_of_raw(raw).unwrap()) ==> post.servers@
                == pre.servers@)
        },
        Result::Err(e) => {
            &&& post.servers@ == pre.servers@
            &&& match e {
                MFBotError::InvalidServer => canon_of_raw(raw) is None,
                MFBotError::DBError(_) => canon_of_raw(raw) matches Option::Some(c)
                    && !has_server_url(pre.servers@, c) && pre.servers@.len() >= MAX_ROWS,
                _ => false,
            }
        },
    }
    &&& (canon_of_raw(raw) matches Option::Some(c) && (has_server_url(pre.servers@, c)
        || pre.servers@.len() < MAX_ROWS)) ==> r is Ok
}

/// Resolving twice with URLs that normalize identically returns the same
/// id, and the second resolution stores no new row.
pub proof fn lemma_resolver_idempotent(
    db0: Db,
    db1: Db,
    db2: Db,
    raw1: Seq<char>,
    raw2: Seq<char>,
    id1: i64,
    id2: i64,
)
    requires
        resolve_rel(db0, db1, raw1, Result::Ok(id1)),
        resolve_rel(db1, db2, raw2, Result::Ok(id2)),
        canon_of_raw(raw1) == canon_of_raw(raw2),
    ensures
        id1 == id2,
        db2.servers@ == db1.servers@,
{
    let c = canon_of_raw(raw1).unwrap();
    assert(has_server_url(db1.servers@, c));
    lemma_server_identity_unique(db2.servers@, c, id1, id2);
}

/// Looks the canonical URL up in the server table.
fn find_server(servers: &Vec<ServerRow>, url: &String) -> (r: Option<usize>)
    ensures
        match r {
            Option::Some(i) => i < servers@.len() && servers@[i as int].url@ == url@,
            Option::None => !has_server_url(servers@, url@),
        },
{
    let n = servers.len();
    let mut i: usize = 0;
    while i < n
        invariant
            i <= n == servers@.len(),
            forall|j: int| 0 <= j < i ==> (#[trigger] servers@[j]).url@ != url@,
        decreases n - i,
    {
        if servers[i].url == *url {
            return Some(i);
        }
        i = i + 1;
    }
    None
}

/// Returns the id of the row holding canonical URL `url`, creating the
/// row if it is new. A freshly created server's `last_hof_crawl` lies a
/// month back, so its first hall-of-fame claim starts a crawl cycle.
pub fn upsert_server(db: &mut Db, url: String, now: i64) -> (r: Result<i64, MFBotError>)
    requires
        old(db).wf(),
        valid_time(now),
    ensures
        final(db).wf(),
        final(db).players@ == old(db).players@,
        final(db).player_infos@ == old(db).player_infos@,
        final(db).guilds@ == old(db).guilds@,
        final(db).descriptions@ == old(db).descriptions@,
        final(db).blobs@ == old(db).blobs@,
        final(db).equipment@ == old(db).equipment@,
        final(db).todo_hof_pages@ == old(db).todo_hof_pages@,
        old(db).servers@.len() <= final(db).servers@.len() <= old(db).servers@.len() + 1,
        final(db).servers@.subrange(0, old(db).servers@.len() as int) == old(db).servers@,
        match r {
            Result::Ok(id) => {
                &&& server_with_url_id(final(db).servers@, url@, id)
                &&& (has_server_url(old(db).servers@, url@) ==> final(db).servers@ == old(db).servers@)
                &&& (!has_server_url(old(db).servers@, url@) ==> final(db).servers@.len() == old(
                    db,
                ).servers@.len() + 1 && final(db).servers@.last().url@ == url@
                    && final(db).servers@.last().last_hof_crawl == now - 2_592_000)
            },
            Result::Err(e) => {
                &&& final(db).servers@ == old(db).servers@
                &&& e matches MFBotError::DBError(_)
                &&& !has_server_url(old(db).servers@, url@)
                &&& old(db).servers@.len() >= MAX_ROWS
            },
        },
        (has_server_url(old(db).servers@, url@) || old(db).servers@.len() < MAX_ROWS) ==> r is Ok,
{
    match find_server(&db.servers, &url) {
        Some(i) => {
            let id = db.servers[i].server_id;
            assert(server_with_url_id(db.servers@, url@, id));
            Ok(id)
        },
        None => {
            if db.servers.len() >= MAX_ROWS {
                return Err(MFBotError::DBError(String::from_str("server table is full")));
            }
            let id: i64 = (db.servers.len() as i64) + 1;
            let row = ServerRow { server_id: id, url, last_hof_crawl: now - days(30) };
            db.servers.push(row);
            assert(db.servers@.subrange(0, old(db).servers@.len() as int) =~= old(db).servers@);
            assert(server_with_url_id(db.servers@, db.servers@.last().url@, id));
            Ok(id)
        },
    }
}

/// Resolves a raw reported server URL to its stable id: normalizes the
/// URL, consults the cache, and on a miss creates or finds the store row
/// and remembers the result.
#[verifier::loop_isolation(false)]
pub fn get_server_id(db: &mut Db, cache: &mut ServerCache, url: &String, now: i64) -> (r: Result<
    i64,
    MFBotError,
>)
    requires
        old(db).wf(),
        old(cache).consistent(old(db).servers@),
        valid_time(now),
    ensures
        final(db).wf(),
        final(cache).consistent(final(db).servers@),
        resolve_rel(*old(db), *final(db), url@, r),
        r is Err ==> final(cache).entries@ == old(cache).entries@,
        // The cache either already held the canonical URL or gains
        // exactly the mapping that was just resolved.
        match r {
            Result::Ok(id) => final(cache).entries@ == old(cache).entries@ || {
                &&& final(cache).entries@.len() == old(cache).entries@.len() + 1
                &&& final(cache).entries@.drop_last() == old(cache).entries@
                &&& final(cache).entries@.last().url@ == canon_of_raw(url@).unwrap()
                &&& final(cache).entries@.last().server_id == id
            },
            Result::Err(_) => true,
        },
        final(db).players@ == old(db).players@,
        final(db).player_infos@ == old(db).player_infos@,
        final(db).guilds@ == old(db).guilds@,
        final(db).descriptions@ == old(db).descriptions@,
        final(db).blobs@ == old(db).blobs@,
        final(db).equipment@ == old(db).equipment@,
        final(db).todo_hof_pages@ == old(db).todo_hof_pages@,
{
    let prefixed: String = if url.as_str().unicode_len() >= 4 && url.as_str().get_char(0) == 'h'
        && url.as_str().get_char(1) == 't' && url.as_str().get_char(2) == 't'
        && url.as_str().get_char(3) == 'p' {
        url.clone()
    } else {
        let mut p = String::from_str("https://");
        p.append(url.as_str());
        p
    };
    assert(prefixed@ == with_scheme(url@));
    proof {
        assert(db.servers@.subrange(0, db.servers@.len() as int) =~= db.servers@);
    }
    let canon: String = match canonicalize_url(&prefixed) {
        Some(c) => c,
        None => {
            return Err(MFBotError::InvalidServer);
        },
    };

    let mut k: usize = 0;
    let n = cache.entries.len();
    while k < n
        invariant
            k <= n == cache.entries@.len(),
            cache.consistent(db.servers@),
        decreases n - k,
    {
        if cache.entries[k].url == canon {
            let id = cache.entries[k].server_id;
            assert(server_with_url_id(db.servers@, canon@, id));
            return Ok(id);
        }
        k = k + 1;
    }

    let id = match upsert_server(db, canon.clone(), now) {
        Ok(id) => id,
        Err(e) => {
            return Err(e);
        },
    };
    proof {
        lemma_cache_still_consistent(*cache, old(db).servers@, db.servers@);
    }
    let ghost cache_pre = cache.entries@;
    cache.entries.push(CacheEntry { url: canon, server_id: id });
    proof {
        assert(cache.entries@.drop_last() =~= cache_pre);
    }
    Ok(id)
}

/// Extending the server table keeps every cached resolution valid.
proof fn lemma_cache_still_consistent(
    cache: ServerCache,
    pre: Seq<ServerRow>,
    post: Seq<ServerRow>,
)
    requires
        cache.consistent(pre),
        pre.len() <= post.len(),
        post.subrange(0, pre.len() as int) == pre,
    ensures
        cache.consistent(post),
{
    assert forall|k: int| 0 <= k < cache.entries@.len() implies server_with_url_id(
        post,
        (#[trigger] cache.entries@[k]).url@,
        cache.entries@[k].server_id,
    ) by {
        let c = cache.entries@[k].url@;
        let id = cache.entries@[k].server_id;
        let i = choose|i: int| 0 <= i < pre.len() && (#[trigger] pre[i]).url@ == c && pre[i].server_id
            == id;
        assert(post[i] == pre.subrange(0, pre.len() as int)[i]);
        assert(post[i].url@ == c && post[i].server_id == id);
    }
}

} // verus!
