//! The get-or-create dedup primitives.
//!
//! Three tables share the same conflict-free upsert pattern: description
//! texts are stored once per exact text, report payloads are compressed
//! and stored once per content hash, and guilds are stored once per
//! (server, name) with soft-delete resurrection.

use vstd::prelude::*;

use crate::error::MFBotError;
use crate::store::{BlobRow, Db, DescriptionRow, GuildRow, blobs_wf, MAX_ROWS};

verus! {

/// What the compressor returns for the UTF-8 bytes of the given text:
/// the compressed bytes, or nothing when the encoder reports an error.
/// Both the outcome and the bytes are a function of the input alone at
/// the fixed compression level the service uses.
pub uninterp spec fn zstd_of(data: Seq<char>) -> Option<Seq<u8>>;

/// The hex digest of the given bytes: 32 lowercase hex digits of the
/// 128-bit digest, a function of the input alone.
pub uninterp spec fn md5_hex_of(data: Seq<u8>) -> Seq<char>;

/// Relies on `zstd::stream::encode_all` at compression level 3: the
/// output depends on the input bytes alone, and so does whether the
/// encoder reports an error at all (it reads from memory and writes into
/// a vector, so no outside condition is involved).
#[verifier::external_body]
pub(crate) fn zstd_compress(data: &str) -> (r: Option<Vec<u8>>)
    ensures
        match r {
            Option::Some(v) => zstd_of(data@) == Option::Some(v@),
            Option::None => zstd_of(data@) is None,
        },
{
    zstd::stream::encode_all(data.as_bytes(), 3).ok()
}

/// Relies on `md5::compute` and the `LowerHex` rendering of its digest:
/// two lowercase hex digits for each of the 16 digest bytes, depending on
/// the input bytes alone.
#[verifier::external_body]
pub(crate) fn md5_hex(data: &Vec<u8>) -> (r: String)
    ensures
        r@ == md5_hex_of(data@),
{
    let digest = md5::compute(data.as_slice());
    format!("{:x}", digest)
}

/// The description table maps text `t` to id `id`.
pub open spec fn desc_with_text_id(s: Seq<DescriptionRow>, t: Seq<char>, id: i64) -> bool {
    exists|i: int| 0 <= i < s.len() && (#[trigger] s[i]).text@ == t && s[i].description_id == id
}

/// The description table has a row for text `t`.
pub open spec fn has_desc_text(s: Seq<DescriptionRow>, t: Seq<char>) -> bool {
    exists|i: int| 0 <= i < s.len() && (#[trigger] s[i]).text@ == t
}

/// The blob table maps content hash `h` to id `id`.
pub open spec fn blob_with_hash_id(s: Seq<BlobRow>, h: Seq<char>, id: i64) -> bool {
    exists|i: int| 0 <= i < s.len() && (#[trigger] s[i]).hash@ == h && s[i].response_id == id
}

/// The blob table has a row for content hash `h`.
pub open spec fn has_blob_hash(s: Seq<BlobRow>, h: Seq<char>) -> bool {
    exists|i: int| 0 <= i < s.len() && (#[trigger] s[i]).hash@ == h
}

/// The guild table maps (server, name) to id `id`.
pub open spec fn guild_with_key_id(s: Seq<GuildRow>, sid: i64, name: Seq<char>, id: i64) -> bool {
    exists|i: int|
        0 <= i < s.len() && (#[trigger] s[i]).server_id == sid && s[i].name@ == name
            && s[i].guild_id == id
}

/// The guild table has a row for (server, name).
pub open spec fn has_guild_key(s: Seq<GuildRow>, sid: i64, name: Seq<char>) -> bool {
    exists|i: int| 0 <= i < s.len() && (#[trigger] s[i]).server_id == sid && s[i].name@ == name
}

/// How a description dedup lookup relates the table before and after: an
/// existing text leaves the table alone, a new text is appended, and `id`
/// names the row holding the text.
pub open spec fn desc_upsert_rel(
    pre: Seq<DescriptionRow>,
    post: Seq<DescriptionRow>,
    text: Seq<char>,
    id: i64,
) -> bool {
    &&& desc_with_text_id(post, text, id)
    &&& (has_desc_text(pre, text) ==> post == pre)
    &&& (!has_desc_text(pre, text) ==> post.len() == pre.len() + 1 && post.drop_last() == pre
        && post.last().text@ == text)
}

/// Returns the id of the description row holding `text`, creating the row
/// if the text is new.
#[verifier::loop_isolation(false)]
pub fn store_description(db: &mut Db, text: &String) -> (r: Result<i64, MFBotError>)
    requires
        old(db).wf(),
    ensures
        final(db).wf(),
        final(db).servers@ == old(db).servers@,
        final(db).players@ == old(db).players@,
        final(db).player_infos@ == old(db).player_infos@,
        final(db).guilds@ == old(db).guilds@,
        final(db).blobs@ == old(db).blobs@,
        final(db).equipment@ == old(db).equipment@,
        final(db).todo_hof_pages@ == old(db).todo_hof_pages@,
        old(db).descriptions@.len() <= final(db).descriptions@.len() <= old(
            db,
        ).descriptions@.len() + 1,
        final(db).descriptions@.subrange(0, old(db).descriptions@.len() as int) == old(
            db,
        ).descriptions@,
        match r {
            Result::Ok(id) => desc_upsert_rel(
                old(db).descriptions@,
                final(db).descriptions@,
                text@,
                id,
            ),
            Result::Err(e) => {
                &&& final(db).descriptions@ == old(db).descriptions@
                &&& e matches MFBotError::DBError(_)
                &&& !has_desc_text(old(db).descriptions@, text@)
                &&& old(db).descriptions@.len() >= MAX_ROWS
            },
        },
        (has_desc_text(old(db).descriptions@, text@) || old(db).descriptions@.len() < MAX_ROWS)
            ==> r is Ok,
{
    proof {
        assert(db.descriptions@.subrange(0, db.descriptions@.len() as int) =~= db.descriptions@);
    }
    let n = db.descriptions.len();
    let mut i: usize = 0;
    while i < n
        invariant
            i <= n,
            forall|j: int| 0 <= j < i ==> (#[trigger] db.descriptions@[j]).text@ != text@,
        decreases n - i,
    {
        if db.descriptions[i].text == *text {
            let id = db.descriptions[i].description_id;
            assert(desc_with_text_id(db.descriptions@, text@, id));
            return Ok(id);
        }
        i = i + 1;
    }
    if db.descriptions.len() >= MAX_ROWS {
        return Err(MFBotError::DBError(String::from_str("description table is full")));
    }
    let id: i64 = (db.descriptions.len() as i64) + 1;
    db.descriptions.push(DescriptionRow { description_id: id, text: text.clone() });
    assert(db.descriptions@.subrange(0, old(db).descriptions@.len() as int) =~= old(
        db,
    ).descriptions@);
    assert(db.descriptions@.drop_last() =~= old(db).descriptions@);
    assert(desc_with_text_id(db.descriptions@, db.descriptions@.last().text@, id));
    Ok(id)
}

/// How storing content with hash `h` and compressed bytes `b` changes the
/// blob table.
pub open spec fn blob_store_rel(
    pre: Seq<BlobRow>,
    post: Seq<BlobRow>,
    h: Seq<char>,
    b: Seq<u8>,
    r: Result<i64, MFBotError>,
) -> bool {
    &&& blobs_wf(post)
    &&& pre.len() <= post.len() <= pre.len() + 1
    &&& post.subrange(0, pre.len() as int) == pre
    &&& match r {
        Result::Ok(id) => {
            &&& blob_with_hash_id(post, h, id)
            &&& (has_blob_hash(pre, h) ==> post == pre)
            &&& (!has_blob_hash(pre, h) ==> post.len() == pre.len() + 1 && post.last().hash@ == h
                && post.last().bytes@ == b)
        },
        Result::Err(e) => {
            &&& post == pre
            &&& e matches MFBotError::DBError(_)
            &&& !has_blob_hash(pre, h)
            &&& pre.len() >= MAX_ROWS
        },
    }
    &&& (has_blob_hash(pre, h) || pre.len() < MAX_ROWS) ==> r is Ok
}

/// Returns the id of the blob row holding content hash `hash`, storing
/// the compressed bytes only when the hash is new; an existing row is
/// returned untouched.
#[verifier::loop_isolation(false)]
pub fn store_blob_bytes(db: &mut Db, bytes: Vec<u8>, hash: String) -> (r: Result<i64, MFBotError>)
    requires
        old(db).wf(),
    ensures
        final(db).wf(),
        final(db).servers@ == old(db).servers@,
        final(db).players@ == old(db).players@,
        final(db).player_infos@ == old(db).player_infos@,
        final(db).guilds@ == old(db).guilds@,
        final(db).descriptions@ == old(db).descriptions@,
        final(db).equipment@ == old(db).equipment@,
        final(db).todo_hof_pages@ == old(db).todo_hof_pages@,
        blob_store_rel(old(db).blobs@, final(db).blobs@, hash@, bytes@, r),
{
    proof {
        assert(db.blobs@.subrange(0, db.blobs@.len() as int) =~= db.blobs@);
    }
    let n = db.blobs.len();
    let mut i: usize = 0;
    while i < n
        invariant
            i <= n,
            forall|j: int| 0 <= j < i ==> (#[trigger] db.blobs@[j]).hash@ != hash@,
        decreases n - i,
    {
        if db.blobs[i].hash == hash {
            let id = db.blobs[i].response_id;
            assert(blob_with_hash_id(db.blobs@, hash@, id));
            return Ok(id);
        }
        i = i + 1;
    }
    if db.blobs.len() >= MAX_ROWS {
        return Err(MFBotError::DBError(String::from_str("blob table is full")));
    }
    let id: i64 = (db.blobs.len() as i64) + 1;
    db.blobs.push(BlobRow { response_id: id, hash, bytes });
    assert(db.blobs@.subrange(0, old(db).blobs@.len() as int) =~= old(db).blobs@);
    assert(blob_with_hash_id(db.blobs@, db.blobs@.last().hash@, id));
    Ok(id)
}

/// Compresses a raw report payload and stores it once per distinct
/// content: the content hash is taken over the compressed bytes, and the
/// row is created only when that hash is new. Fails with `Internal`
/// exactly when the compressor fails on this payload.
pub fn store_blob(db: &mut Db, payload: &String) -> (r: Result<i64, MFBotError>)
    requires
        old(db).wf(),
    ensures
        final(db).wf(),
        final(db).servers@ == old(db).servers@,
        final(db).players@ == old(db).players@,
        final(db).player_infos@ == old(db).player_infos@,
        final(db).guilds@ == old(db).guilds@,
        final(db).descriptions@ == old(db).descriptions@,
        final(db).equipment@ == old(db).equipment@,
        final(db).todo_hof_pages@ == old(db).todo_hof_pages@,
        match r {
            Result::Err(MFBotError::Internal) => {
                &&& final(db).blobs@ == old(db).blobs@
                &&& zstd_of(payload@) is None
            },
            _ => zstd_of(payload@) matches Option::Some(zb) && blob_store_rel(
                old(db).blobs@,
                final(db).blobs@,
                md5_hex_of(zb),
                zb,
                r,
            ),
        },
{
    let compressed = match zstd_compress(payload.as_str()) {
        Some(c) => c,
        None => {
            return Err(MFBotError::Internal);
        },
    };
    let hash = md5_hex(&compressed);
    let r = store_blob_bytes(db, compressed, hash);
    match r {
        Ok(id) => Ok(id),
        Err(e) => Err(e),
    }
}

/// Two blob rows with the same content hash are the same row: the store
/// never holds identical content twice.
pub proof fn lemma_blob_hash_unique(s: Seq<BlobRow>, h: Seq<char>, id1: i64, id2: i64)
    requires
        blobs_wf(s),
        blob_with_hash_id(s, h, id1),
        blob_with_hash_id(s, h, id2),
    ensures
        id1 == id2,
{
    let i = choose|i: int| 0 <= i < s.len() && (#[trigger] s[i]).hash@ == h && s[i].response_id
        == id1;
    let j = choose|j: int| 0 <= j < s.len() && (#[trigger] s[j]).hash@ == h && s[j].response_id
        == id2;
    if i != j {
        assert(s[i].hash@ != s[j].hash@);
    }
}

/// Storing the same content twice returns the same blob id, and the
/// second store adds no row.
pub proof fn lemma_blob_dedup(
    pre: Seq<BlobRow>,
    mid: Seq<BlobRow>,
    post: Seq<BlobRow>,
    h: Seq<char>,
    b: Seq<u8>,
    id1: i64,
    id2: i64,
)
    requires
        blob_store_rel(pre, mid, h, b, Result::Ok(id1)),
        blob_store_rel(mid, post, h, b, Result::Ok(id2)),
    ensures
        id1 == id2,
        post == mid,
{
    assert(has_blob_hash(mid, h));
    lemma_blob_hash_unique(post, h, id1, id2);
}

/// How a guild upsert relates the table before and after: an existing
/// (server, name) row has its soft-delete mark cleared, a new identity is
/// appended, and `id` names the row.
pub open spec fn guild_upsert_rel(
    pre: Seq<GuildRow>,
    post: Seq<GuildRow>,
    sid: i64,
    name: Seq<char>,
    id: i64,
) -> bool {
    &&& guild_with_key_id(post, sid, name, id)
    &&& (has_guild_key(pre, sid, name) ==> {
        &&& post.len() == pre.len()
        &&& 1 <= id <= pre.len()
        &&& post[id - 1].guild_id == pre[id - 1].guild_id
        &&& post[id - 1].server_id == pre[id - 1].server_id
        &&& post[id - 1].name@ == pre[id - 1].name@
        &&& post[id - 1].is_removed == false
        &&& forall|j: int| 0 <= j < pre.len() && j != id - 1 ==> post[j] == pre[j]
    })
    &&& (!has_guild_key(pre, sid, name) ==> {
        &&& post.len() == pre.len() + 1
        &&& post.drop_last() == pre
        &&& post.last().server_id == sid
        &&& post.last().name@ == name
        &&& post.last().is_removed == false
    })
}

/// Returns the id of the guild row for (server, name), creating it if it
/// is new and clearing the soft-delete mark if it was removed.
#[verifier::loop_isolation(false)]
pub fn upsert_guild(db: &mut Db, server_id: i64, name: &String) -> (r: Result<i64, MFBotError>)
    requires
        old(db).wf(),
    ensures
        final(db).wf(),
        final(db).servers@ == old(db).servers@,
        final(db).players@ == old(db).players@,
        final(db).player_infos@ == old(db).player_infos@,
        final(db).descriptions@ == old(db).descriptions@,
        final(db).blobs@ == old(db).blobs@,
        final(db).equipment@ == old(db).equipment@,
        final(db).todo_hof_pages@ == old(db).todo_hof_pages@,
        old(db).guilds@.len() <= final(db).guilds@.len() <= old(db).guilds@.len() + 1,
        match r {
            Result::Ok(id) => guild_upsert_rel(
                old(db).guilds@,
                final(db).guilds@,
                server_id,
                name@,
                id,
            ),
            Result::Err(e) => {
                &&& final(db).guilds@ == old(db).guilds@
                &&& e matches MFBotError::DBError(_)
                &&& !has_guild_key(old(db).guilds@, server_id, name@)
                &&& old(db).guilds@.len() >= MAX_ROWS
            },
        },
        (has_guild_key(old(db).guilds@, server_id, name@) || old(db).guilds@.len() < MAX_ROWS)
            ==> r is Ok,
{
    let n = db.guilds.len();
    let mut i: usize = 0;
    while i < n
        invariant
            i <= n,
            n == db.guilds@.len(),
            *db == *old(db),
            forall|j: int|
                0 <= j < i ==> !((#[trigger] db.guilds@[j]).server_id == server_id
                    && db.guilds@[j].name@ == name@),
        decreases n - i,
    {
        if db.guilds[i].server_id == server_id && db.guilds[i].name == *name {
            let id = db.guilds[i].guild_id;
            let row = GuildRow {
                guild_id: id,
                server_id: db.guilds[i].server_id,
                name: db.guilds[i].name.clone(),
                is_removed: false,
            };
            db.guilds.set(i, row);
            assert(db.guilds@[i as int].server_id == server_id && db.guilds@[i as int].name@
                == name@ && db.guilds@[i as int].guild_id == id);
            assert(guild_with_key_id(db.guilds@, server_id, name@, id));
            return Ok(id);
        }
        i = i + 1;
    }
    if db.guilds.len() >= MAX_ROWS {
        return Err(MFBotError::DBError(String::from_str("guild table is full")));
    }
    let id: i64 = (db.guilds.len() as i64) + 1;
    db.guilds.push(GuildRow { guild_id: id, server_id, name: name.clone(), is_removed: false });
    assert(db.guilds@.subrange(0, old(db).guilds@.len() as int) =~= old(db).guilds@);
    assert(db.guilds@.drop_last() =~= old(db).guilds@);
    assert(guild_with_key_id(db.guilds@, server_id, db.guilds@.last().name@, id));
    Ok(id)
}

} // verus!
