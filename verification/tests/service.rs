use mfbot_server::advice::scrapbook_advice;
use mfbot_server::dedup::store_blob;
use mfbot_server::api::{GetCharactersArgs, GetHofArgs, RawOtherPlayer, ReportHofArgs};
use mfbot_server::codec::{EquipIdent, compress_ident};
use mfbot_server::ingest::{Jitter, apply_report, parse_report};
use mfbot_server::time::{days, hours, minutes};
use mfbot_server::error::MFBotError;
use mfbot_server::ingest::{IngestOutcome, insert_player, report_players};
use mfbot_server::hof::{get_hof_pages_to_crawl, report_hof_pages};
use mfbot_server::resolver::{ServerCache, get_server_id};
use mfbot_server::schedule::get_characters_to_crawl;
use mfbot_server::store::Db;

const DAY: i64 = 86_400;

fn fresh() -> (Db, ServerCache) {
    (Db::new(), ServerCache::new())
}

/// A minimal well-formed player encoding: 229 slash-separated integers
/// with the given level, experience and honor, everything else zero.
fn make_info(level: i64, xp: i64, honor: i64) -> String {
    make_info_with(level, xp, honor, &[])
}

fn make_info_with(level: i64, xp: i64, honor: i64, overrides: &[(usize, i64)]) -> String {
    let mut v = vec![0i64; 229];
    v[2] = level;
    v[3] = xp;
    v[5] = honor;
    for &(i, x) in overrides {
        v[i] = x;
    }
    let parts: Vec<String> = v.iter().map(|x| x.to_string()).collect();
    parts.join("/")
}

fn report(name: &str, server: &str, info: String, date: &str) -> RawOtherPlayer {
    RawOtherPlayer {
        name: name.to_string(),
        server: server.to_string(),
        info,
        description: None,
        guild: None,
        soldier_advice: None,
        fetch_date: date.to_string(),
        player_id: 0,
    }
}

#[test]
fn scenario_a_resolver_is_idempotent() {
    let (mut db, mut cache) = fresh();
    let id1 = get_server_id(&mut db, &mut cache, &"game.example.com".to_string(), 0).unwrap();
    let id2 =
        get_server_id(&mut db, &mut cache, &"https://game.example.com/some/path".to_string(), 0)
            .unwrap();
    assert_eq!(id1, id2);
    assert_eq!(db.servers.len(), 1);
}

#[test]
fn resolver_rejects_unparseable_url() {
    let (mut db, mut cache) = fresh();
    let r = get_server_id(&mut db, &mut cache, &"".to_string(), 0);
    assert_eq!(r, Err(MFBotError::InvalidServer));
    assert_eq!(db.servers.len(), 0);
}

#[test]
fn resolver_distinct_hosts_distinct_ids() {
    let (mut db, mut cache) = fresh();
    let a = get_server_id(&mut db, &mut cache, &"s1.example.com".to_string(), 0).unwrap();
    let b = get_server_id(&mut db, &mut cache, &"s2.example.com".to_string(), 0).unwrap();
    assert_ne!(a, b);
    assert_eq!(db.servers.len(), 2);
}

/// Seeds `n` players on the given server through hall-of-fame discovery;
/// they are immediately due for crawling.
fn seed_players(db: &mut Db, cache: &mut ServerCache, server: &str, names: &[&str], now: i64) {
    let listing: Vec<String> = names
        .iter()
        .enumerate()
        .map(|(i, n)| format!("{},{},Guild,{},{},3", i + 1, n, 10 + i, 100 + i))
        .collect();
    let args = ReportHofArgs {
        server: server.to_string(),
        pages: vec![(0, listing.join(";"))],
    };
    report_hof_pages(db, cache, &args, now).unwrap();
}

#[test]
fn lease_exclusivity_between_two_claims() {
    let (mut db, mut cache) = fresh();
    let now = 1_000_000;
    seed_players(&mut db, &mut cache, "s.example.com", &["A", "B", "C"], now);
    let args = GetCharactersArgs { server: "s.example.com".to_string(), limit: 3 };
    let first = get_characters_to_crawl(&mut db, &mut cache, &args, now).unwrap();
    let second = get_characters_to_crawl(&mut db, &mut cache, &args, now).unwrap();
    let mut first_sorted = first.clone();
    first_sorted.sort();
    assert_eq!(first_sorted, vec!["A".to_string(), "B".to_string(), "C".to_string()]);
    assert!(second.is_empty());
    for p in &db.players {
        assert_eq!(p.next_report_attempt, now + 1800);
    }
}

#[test]
fn claim_respects_limit_and_leaves_rest_due() {
    let (mut db, mut cache) = fresh();
    let now = 1_000_000;
    seed_players(&mut db, &mut cache, "s.example.com", &["A", "B", "C"], now);
    let args = GetCharactersArgs { server: "s.example.com".to_string(), limit: 2 };
    let first = get_characters_to_crawl(&mut db, &mut cache, &args, now).unwrap();
    assert_eq!(first.len(), 2);
    let second = get_characters_to_crawl(&mut db, &mut cache, &args, now).unwrap();
    assert_eq!(second.len(), 1);
    assert!(!first.contains(&second[0]));
}

#[test]
fn scenario_e_expired_cycle_regenerates_page_list() {
    let (mut db, mut cache) = fresh();
    let now = 100 * DAY;
    // A fresh server's cycle counts as expired, so the first claim seeds.
    let args = GetHofArgs { server: "h.example.com".to_string(), player_count: 103, limit: 100 };
    let pages = get_hof_pages_to_crawl(&mut db, &mut cache, &args, now).unwrap();
    assert_eq!(pages, vec![0, 1, 2]);  // ceil(103 / 51) = 3 pages
    assert_eq!(db.todo_hof_pages.len(), 3);
    assert_eq!(db.servers[0].last_hof_crawl, now);

    // While the cycle is fresh and every page is leased, nothing comes back.
    let again = get_hof_pages_to_crawl(&mut db, &mut cache, &args, now).unwrap();
    assert!(again.is_empty());

    // Four days later the cycle has expired and the full list is reseeded.
    let later = now + 4 * DAY;
    let pages = get_hof_pages_to_crawl(&mut db, &mut cache, &args, later).unwrap();
    assert_eq!(pages, vec![0, 1, 2]);
    assert_eq!(db.todo_hof_pages.len(), 3);
    assert_eq!(db.servers[0].last_hof_crawl, later);
}

#[test]
fn page_count_rounds_up_exactly() {
    let (mut db, mut cache) = fresh();
    let now = 100 * DAY;
    let args = GetHofArgs { server: "h2.example.com".to_string(), player_count: 102, limit: 100 };
    let pages = get_hof_pages_to_crawl(&mut db, &mut cache, &args, now).unwrap();
    assert_eq!(pages.len(), 2);  // 102 / 51 exactly
}

#[test]
fn scenario_d_hof_report_inserts_players_and_retires_page() {
    let (mut db, mut cache) = fresh();
    let now = 100 * DAY;
    // Seed a six-page cycle, then report page 5.
    let claim = GetHofArgs { server: "d.example.com".to_string(), player_count: 300, limit: 100 };
    let pages = get_hof_pages_to_crawl(&mut db, &mut cache, &claim, now).unwrap();
    assert_eq!(pages.len(), 6);
    let listing = "1,Alice,G,10,500,3;2,Bob,,12,400,2;3,Carol,G,9,300,1;junk";
    let args = ReportHofArgs { server: "d.example.com".to_string(), pages: vec![(5, listing.to_string())] };
    report_hof_pages(&mut db, &mut cache, &args, now).unwrap();
    assert_eq!(db.players.len(), 3);
    let names: Vec<&str> = db.players.iter().map(|p| p.name.as_str()).collect();
    assert_eq!(names, vec!["Alice", "Bob", "Carol"]);
    assert_eq!(db.players[0].level, Some(10));
    assert_eq!(db.todo_hof_pages.len(), 5);
    assert!(db.todo_hof_pages.iter().all(|t| t.idx != 5));
}

#[test]
fn hof_report_stops_at_empty_slot_sentinel() {
    let (mut db, mut cache) = fresh();
    let now = 100 * DAY;
    let listing = "1,Alice,G,10,500,3;2,,,0,0,0,;3,Carol,G,9,300,1";
    let args = ReportHofArgs { server: "e.example.com".to_string(), pages: vec![(0, listing.to_string())] };
    report_hof_pages(&mut db, &mut cache, &args, now).unwrap();
    assert_eq!(db.players.len(), 1);
    assert_eq!(db.players[0].name, "Alice");
}

#[test]
fn hof_report_first_seen_wins() {
    let (mut db, mut cache) = fresh();
    let now = 100 * DAY;
    let listing = "1,Alice,G,10,500,3;2,Alice,G,99,500,3";
    let args = ReportHofArgs { server: "f.example.com".to_string(), pages: vec![(0, listing.to_string())] };
    report_hof_pages(&mut db, &mut cache, &args, now).unwrap();
    assert_eq!(db.players.len(), 1);
    assert_eq!(db.players[0].level, Some(10));
}

#[test]
fn scenario_b_first_report_due_in_one_day() {
    let (mut db, mut cache) = fresh();
    let now = 10 * DAY;
    // fetch date 1970-01-02T00:00:00Z is exactly one day past the epoch
    let rep = report("Neo", "b.example.com", make_info(10, 500, 7), "1970-01-02T00:00:00Z");
    let out = insert_player(&mut db, &mut cache, &rep, now).unwrap();
    assert_eq!(out, IngestOutcome::Accepted);
    assert_eq!(db.players.len(), 1);
    let p = &db.players[0];
    assert_eq!(p.level, Some(10));
    assert_eq!(p.xp, Some(500));
    assert_eq!(p.honor, Some(7));
    assert_eq!(p.last_reported, Some(DAY));
    assert_eq!(p.last_changed, Some(DAY));
    assert_eq!(p.next_report_attempt, 2 * DAY);
    assert_eq!(db.player_infos.len(), 1);
    assert_eq!(db.player_infos[0].fetch_time, DAY);
    assert_eq!(db.player_infos[0].xp, 500);
    assert_eq!(db.blobs.len(), 1);
    assert_eq!(db.descriptions.len(), 1);
}

#[test]
fn scenario_c_unchanged_report_backs_off_a_day_or_more() {
    let (mut db, mut cache) = fresh();
    let now = 10 * DAY;
    let t1 = "1970-01-02T00:00:00Z";
    let t2 = "1970-01-02T01:00:00Z";  // one hour later
    let rep1 = report("Neo", "c.example.com", make_info(10, 500, 7), t1);
    insert_player(&mut db, &mut cache, &rep1, now).unwrap();
    let rep2 = report("Neo", "c.example.com", make_info(10, 500, 7), t2);
    let out = insert_player(&mut db, &mut cache, &rep2, now).unwrap();
    assert_eq!(out, IngestOutcome::Accepted);
    let p = &db.players[0];
    // no change observed: last_changed keeps the first fetch time
    assert_eq!(p.last_changed, Some(DAY));
    assert_eq!(p.last_reported, Some(DAY + 3600));
    // within three days of the last change: one day plus jitter
    let delta = p.next_report_attempt - (DAY + 3600);
    assert!((DAY..=DAY + 11 * 3600 + 59 * 60).contains(&delta), "delta {delta}");
}

#[test]
fn changed_report_rechecks_soon() {
    let (mut db, mut cache) = fresh();
    let now = 10 * DAY;
    let rep1 = report("Neo", "c2.example.com", make_info(10, 500, 7), "1970-01-02T00:00:00Z");
    insert_player(&mut db, &mut cache, &rep1, now).unwrap();
    // the level moved: short randomized recheck, 11h to 13h59m after fetch
    let rep2 = report("Neo", "c2.example.com", make_info(11, 500, 7), "1970-01-02T01:00:00Z");
    insert_player(&mut db, &mut cache, &rep2, now).unwrap();
    let p = &db.players[0];
    assert_eq!(p.last_changed, Some(DAY + 3600));
    let delta = p.next_report_attempt - (DAY + 3600);
    assert!((11 * 3600..=13 * 3600 + 59 * 60).contains(&delta), "delta {delta}");
}

#[test]
fn stale_report_writes_nothing() {
    let (mut db, mut cache) = fresh();
    let now = 10 * DAY;
    let rep1 = report("Neo", "p4.example.com", make_info(10, 500, 7), "1970-01-03T00:00:00Z");
    insert_player(&mut db, &mut cache, &rep1, now).unwrap();
    let infos_before = db.player_infos.len();
    let next_before = db.players[0].next_report_attempt;
    // an older report, and one at exactly the recorded time: both discarded
    for date in ["1970-01-02T00:00:00Z", "1970-01-03T00:00:00Z"] {
        let rep = report("Neo", "p4.example.com", make_info(99, 999, 9), date);
        let out = insert_player(&mut db, &mut cache, &rep, now).unwrap();
        assert_eq!(out, IngestOutcome::Stale);
    }
    assert_eq!(db.players.len(), 1);
    assert_eq!(db.players[0].level, Some(10));
    assert_eq!(db.players[0].next_report_attempt, next_before);
    assert_eq!(db.player_infos.len(), infos_before);
}

/// An encoding with one worn hat: slot type 6 (hat) with model 23 and
/// class 5 packs to 23 | 1 << 16 | 1 << 24 | 6 << 28.
fn hat_overrides() -> Vec<(usize, i64)> {
    vec![(39, 6), (42, 5023)]
}

const HAT_IDENT: i32 = 23 | (1 << 16) | (1 << 24) | (6 << 28);

#[test]
fn equipment_is_extracted_and_stored() {
    let (mut db, mut cache) = fresh();
    let now = 10 * DAY;
    let rep = report(
        "Neo",
        "eq.example.com",
        make_info_with(10, 500, 7, &hat_overrides()),
        "1970-01-02T00:00:00Z",
    );
    insert_player(&mut db, &mut cache, &rep, now).unwrap();
    assert_eq!(db.players[0].equip_count, Some(1));
    assert_eq!(db.equipment.len(), 1);
    assert_eq!(db.equipment[0].ident, HAT_IDENT);
    assert_eq!(db.equipment[0].player_id, db.players[0].player_id);
}

#[test]
fn cosmetic_items_are_not_stored() {
    let (mut db, mut cache) = fresh();
    let now = 10 * DAY;
    // model id 123 lies at or above the real-item cutoff of 100
    let rep = report(
        "Neo",
        "eq2.example.com",
        make_info_with(10, 500, 7, &[(39, 6), (42, 5123)]),
        "1970-01-02T00:00:00Z",
    );
    insert_player(&mut db, &mut cache, &rep, now).unwrap();
    assert_eq!(db.players[0].equip_count, Some(1));
    assert_eq!(db.equipment.len(), 0);
}

#[test]
fn snapshot_recency_out_of_order_reports() {
    // The newer snapshot's equipment stays, whichever order the two
    // reports arrive in.
    for newest_first in [false, true] {
        let (mut db, mut cache) = fresh();
        let now = 10 * DAY;
        let older = report(
            "Neo",
            "p3.example.com",
            make_info(10, 500, 7),
            "1970-01-02T00:00:00Z",
        );
        let newer = report(
            "Neo",
            "p3.example.com",
            make_info_with(11, 600, 7, &hat_overrides()),
            "1970-01-02T12:00:00Z",
        );
        if newest_first {
            assert_eq!(insert_player(&mut db, &mut cache, &newer, now).unwrap(), IngestOutcome::Accepted);
            assert_eq!(insert_player(&mut db, &mut cache, &older, now).unwrap(), IngestOutcome::Stale);
        } else {
            assert_eq!(insert_player(&mut db, &mut cache, &older, now).unwrap(), IngestOutcome::Accepted);
            assert_eq!(insert_player(&mut db, &mut cache, &newer, now).unwrap(), IngestOutcome::Accepted);
        }
        assert_eq!(db.equipment.len(), 1, "order newest_first={newest_first}");
        assert_eq!(db.equipment[0].ident, HAT_IDENT);
        assert_eq!(db.players[0].level, Some(11));
    }
}

#[test]
fn blob_dedup_stores_identical_content_once() {
    let (mut db, mut cache) = fresh();
    let now = 10 * DAY;
    let info = make_info(10, 500, 7);
    let rep1 = report("Neo", "p5.example.com", info.clone(), "1970-01-02T00:00:00Z");
    let rep2 = report("Trinity", "p5.example.com", info.clone(), "1970-01-02T00:00:00Z");
    insert_player(&mut db, &mut cache, &rep1, now).unwrap();
    insert_player(&mut db, &mut cache, &rep2, now).unwrap();
    assert_eq!(db.blobs.len(), 1);
    assert_eq!(db.player_infos[0].response_id, db.player_infos[1].response_id);
    // distinct content gets its own row
    let rep3 = report("Morpheus", "p5.example.com", make_info(20, 9, 9), "1970-01-02T00:00:00Z");
    insert_player(&mut db, &mut cache, &rep3, now).unwrap();
    assert_eq!(db.blobs.len(), 2);
    assert_ne!(db.player_infos[2].response_id, db.player_infos[0].response_id);
}

#[test]
fn blob_rows_hold_compressed_content_and_hex_hash() {
    let (mut db, mut cache) = fresh();
    let now = 10 * DAY;
    let info = make_info(10, 500, 7);
    let rep = report("Neo", "p5b.example.com", info.clone(), "1970-01-02T00:00:00Z");
    insert_player(&mut db, &mut cache, &rep, now).unwrap();
    let blob = &db.blobs[0];
    assert_eq!(blob.hash.len(), 32);
    assert!(blob.hash.chars().all(|c| c.is_ascii_hexdigit()));
    assert_ne!(blob.bytes, info.as_bytes());
    // the stored bytes really are the compressed payload
    let unpacked = zstd::stream::decode_all(std::io::Cursor::new(blob.bytes.clone())).unwrap();
    assert_eq!(unpacked, info.as_bytes());
}

#[test]
fn description_and_guild_are_deduplicated() {
    let (mut db, mut cache) = fresh();
    let now = 10 * DAY;
    let mut rep1 = report("Neo", "g.example.com", make_info(10, 500, 7), "1970-01-02T00:00:00Z");
    rep1.description = Some("hello".to_string());
    rep1.guild = Some("Zion".to_string());
    let mut rep2 = report("Trinity", "g.example.com", make_info(12, 700, 7), "1970-01-02T00:00:00Z");
    rep2.description = Some("hello".to_string());
    rep2.guild = Some("Zion".to_string());
    insert_player(&mut db, &mut cache, &rep1, now).unwrap();
    insert_player(&mut db, &mut cache, &rep2, now).unwrap();
    assert_eq!(db.descriptions.len(), 1);
    assert_eq!(db.guilds.len(), 1);
    assert_eq!(db.player_infos[0].guild_id, db.player_infos[1].guild_id);
    assert_eq!(db.player_infos[0].description_id, db.player_infos[1].description_id);
}

#[test]
fn malformed_reports_are_rejected() {
    let (mut db, mut cache) = fresh();
    let now = 10 * DAY;
    for (info, date) in [
        ("not numbers".to_string(), "1970-01-02T00:00:00Z"),
        ("1/2/3".to_string(), "1970-01-02T00:00:00Z"),
        (make_info(-1, 500, 7), "1970-01-02T00:00:00Z"),
        (make_info(10, -5, 7), "1970-01-02T00:00:00Z"),
        (make_info(10, 500, 7), "yesterday"),
    ] {
        let rep = report("Neo", "bad.example.com", info, date);
        let r = insert_player(&mut db, &mut cache, &rep, now);
        assert!(matches!(r, Err(MFBotError::InvalidPlayer(_))), "date {date}");
    }
    assert_eq!(db.players.len(), 0);
}

#[test]
fn future_fetch_dates_are_clamped_to_now() {
    let (mut db, mut cache) = fresh();
    let now = 10 * DAY;
    let rep = report("Neo", "fut.example.com", make_info(10, 500, 7), "3000-01-01T00:00:00Z");
    insert_player(&mut db, &mut cache, &rep, now).unwrap();
    assert_eq!(db.players[0].last_reported, Some(now));
}

#[test]
fn batch_report_survives_a_bad_item() {
    let (mut db, mut cache) = fresh();
    let now = 10 * DAY;
    let reports = vec![
        report("Neo", "batch.example.com", make_info(10, 500, 7), "1970-01-02T00:00:00Z"),
        report("Broken", "batch.example.com", "garbage".to_string(), "1970-01-02T00:00:00Z"),
        report("Trinity", "batch.example.com", make_info(12, 700, 7), "1970-01-02T00:00:00Z"),
    ];
    let results = report_players(&mut db, &mut cache, &reports, now);
    assert_eq!(results.len(), 3);
    assert_eq!(results[0], Ok(IngestOutcome::Accepted));
    assert!(matches!(results[1], Err(MFBotError::InvalidPlayer(_))));
    assert_eq!(results[2], Ok(IngestOutcome::Accepted));
    assert_eq!(db.players.len(), 2);
}

#[test]
fn injected_jitter_makes_backoff_deterministic() {
    let mut db = Db::new();
    let now = 10 * DAY;
    let j = Jitter {
        minute: 5,
        changed_hours: 12,
        t1_hours: 3,
        t2_days: 3,
        t2_hours: 10,
        t3_days: 12,
        t3_hours: 20,
    };
    // first sighting: exactly one day, no jitter
    let rep1 = report("Neo", "det.example.com", make_info(10, 500, 7), "1970-01-02T00:00:00Z");
    let p1 = parse_report(&rep1, 1, now).unwrap();
    apply_report(&mut db, &p1, &j).unwrap();
    assert_eq!(db.players[0].next_report_attempt, 2 * DAY);
    // unchanged one hour later: the one-day tier with the given jitter
    let rep2 = report("Neo", "det.example.com", make_info(10, 500, 7), "1970-01-02T01:00:00Z");
    let p2 = parse_report(&rep2, 1, now).unwrap();
    apply_report(&mut db, &p2, &j).unwrap();
    assert_eq!(db.players[0].next_report_attempt, DAY + 3600 + DAY + 3 * 3600 + 5 * 60);
    // a change at the next hour: the short recheck with the given jitter
    let rep3 = report("Neo", "det.example.com", make_info(11, 500, 7), "1970-01-02T02:00:00Z");
    let p3 = parse_report(&rep3, 1, now).unwrap();
    apply_report(&mut db, &p3, &j).unwrap();
    assert_eq!(db.players[0].next_report_attempt, DAY + 7200 + 12 * 3600 + 5 * 60);
}

#[test]
fn duration_helpers_count_seconds() {
    assert_eq!(minutes(30), 1800);
    assert_eq!(hours(13), 46_800);
    assert_eq!(days(3), 259_200);
}

#[test]
fn claim_limit_is_capped_by_the_server() {
    let (mut db, mut cache) = fresh();
    let now = 1_000_000;
    seed_players(&mut db, &mut cache, "cap.example.com", &["A", "B"], now);
    let args = GetCharactersArgs { server: "cap.example.com".to_string(), limit: u64::MAX };
    let names = get_characters_to_crawl(&mut db, &mut cache, &args, now).unwrap();
    assert_eq!(names.len(), 2);
}

#[test]
fn scrapbook_advice_ranks_by_missing_items() {
    let (mut db, mut cache) = fresh();
    let now = 10 * DAY;
    let date = "1970-01-02T00:00:00Z";
    let hat = |model: i64| vec![(39usize, 6i64), (42usize, 5000 + model)];
    // Alice wears two wanted items: a hat and a breast plate.
    let mut alice_items = hat(23);
    alice_items.extend([(58usize, 3i64), (61usize, 2024i64)]);
    let reports = [
        ("Alice", 10i64, alice_items),
        ("Bob", 5, hat(30)),    // Bob's only item is already collected
        ("Carol", 8, hat(23)),  // one wanted item
        ("Dave", 20, hat(25)),  // above the level cap
        ("Eve", 6, hat(25)),    // one wanted item, lower level than Carol
    ];
    for (name, level, items) in reports {
        let rep = report(
            name,
            "adv.example.com",
            make_info_with(level, 500, 7, &items),
            date,
        );
        insert_player(&mut db, &mut cache, &rep, now).unwrap();
    }
    let collected = vec![compress_ident(EquipIdent {
        model_id: 30,
        color: 1,
        typ: 1,
        class: Some(5),
    })];
    let sid = get_server_id(&mut db, &mut cache, &"adv.example.com".to_string(), now).unwrap();
    let ranked = scrapbook_advice(&db, sid, &collected, 15, 1_000_000);
    let got: Vec<(String, i64)> =
        ranked.into_iter().map(|a| (a.player_name, a.new_count)).collect();
    assert_eq!(
        got,
        vec![
            ("Alice".to_string(), 2),
            ("Eve".to_string(), 1),
            ("Carol".to_string(), 1),
        ],
    );
}

#[test]
fn scrapbook_advice_with_nothing_collected_counts_everything() {
    let (mut db, mut cache) = fresh();
    let now = 10 * DAY;
    let rep = report(
        "Solo",
        "adv2.example.com",
        make_info_with(10, 500, 7, &hat_overrides()),
        "1970-01-02T00:00:00Z",
    );
    insert_player(&mut db, &mut cache, &rep, now).unwrap();
    let sid = get_server_id(&mut db, &mut cache, &"adv2.example.com".to_string(), now).unwrap();
    let ranked = scrapbook_advice(&db, sid, &Vec::new(), 100, 1_000_000);
    assert_eq!(ranked.len(), 1);
    assert_eq!(ranked[0].player_name, "Solo");
    assert_eq!(ranked[0].new_count, 1);
    // a collector owning the item sees no advice
    let all = vec![HAT_IDENT];
    let ranked = scrapbook_advice(&db, sid, &all, 100, 1_000_000);
    assert!(ranked.is_empty());
}

#[test]
fn store_blob_directly_deduplicates() {
    let mut db = Db::new();
    let payload = "some raw report payload".to_string();
    let id1 = store_blob(&mut db, &payload).unwrap();
    let id2 = store_blob(&mut db, &payload).unwrap();
    assert_eq!(id1, id2);
    assert_eq!(db.blobs.len(), 1);
    let other = "a different payload".to_string();
    let id3 = store_blob(&mut db, &other).unwrap();
    assert_ne!(id3, id1);
    assert_eq!(db.blobs.len(), 2);
}
