use glogger::replay::{batch_flush_due, IngestEvent, IngestScan};
use glogger::replay::merge_replay_events;
use glogger::replay::{player_line_events, LineStamp};
use glogger::replay::{date_from_chat_content, date_from_chat_filename};
use glogger::replay::{first_player_login, progress_due};
use glogger::chat::{ChatMessage, LogDateTime};
use glogger::replay::{
    attribute_loot, content_hash, loading_zone, note_corpse_search, order_events,
    parse_player_login_line, progress_interval, timezone_offset, CorpseSearch, IngestResult,
    LootPickup, ReplayProgress, ReplayResult, TimedEvent, FNV_OFFSET, FNV_PRIME,
};

fn line(sec: i64, text: &str) -> TimedEvent {
    TimedEvent::PlayerLine { utc_second: sec, line: text.to_string() }
}

fn login(sec: i64, offset: Option<i32>) -> TimedEvent {
    TimedEvent::ChatLogin {
        utc_second: sec,
        server_name: "Dreva".into(),
        character_name: "Zeke".into(),
        timezone_offset_seconds: offset,
    }
}

fn chat(sec: i64, text: &str) -> TimedEvent {
    TimedEvent::ChatMessage {
        utc_second: sec,
        msg: ChatMessage {
            timestamp: LogDateTime { year: 2026, month: 1, day: 2, hour: 3, minute: 4, second: 5 },
            channel: Some("Status".into()),
            sender: None,
            message: text.into(),
        },
    }
}

fn label(e: &TimedEvent) -> String {
    match e {
        TimedEvent::PlayerLine { line, .. } => format!("P:{line}"),
        TimedEvent::ChatMessage { msg, .. } => format!("C:{}", msg.message),
        TimedEvent::ChatLogin { .. } => "L".to_string(),
    }
}

#[test]
fn events_interleave_by_second_then_source_then_arrival() {
    let events = vec![
        chat(10, "c1"),
        line(10, "p1"),
        login(10, Some(-18000)),
        line(9, "p0"),
        chat(10, "c2"),
        line(10, "p2"),
    ];
    let out = order_events(events);
    let labels: Vec<String> = out.iter().map(label).collect();
    assert_eq!(labels, vec!["P:p0", "L", "P:p1", "P:p2", "C:c1", "C:c2"]);
    assert_eq!(out[0].utc_second(), 9);
    assert_eq!(out[1].sort_key(), (10, 0));
    assert_eq!(out[4].sort_key(), (10, 2));
}

#[test]
fn timezone_comes_from_first_login_stating_one() {
    let events = vec![login(1, None), line(2, "x"), login(3, Some(3600)), login(4, Some(-7200))];
    assert_eq!(timezone_offset(&events), 3600);
    assert_eq!(timezone_offset(&[line(1, "x")]), 0);
}

#[test]
fn progress_reports_about_a_hundred_times() {
    assert_eq!(progress_interval(0), 50);
    assert_eq!(progress_interval(5100), 51);
    assert_eq!(progress_interval(5000), 50);
    assert_eq!(progress_interval(1_000_000), 10_000);
    let p = ReplayProgress::processing(7, 300);
    assert_eq!((p.phase.as_str(), p.current, p.total), ("processing", 7, 300));
    assert_eq!(p.detail, "Processing event 7/300");
    let mut r = ReplayResult::new();
    r.count_player_line(2);
    r.count_player_line(0);
    r.count_chat_message(true);
    r.count_chat_message(false);
    r.count_flushed(3);
    assert_eq!(r.player_lines_processed, 2);
    assert_eq!(r.player_events_emitted, 5);
    assert_eq!(r.chat_messages_processed, 2);
    assert_eq!(r.chat_status_events_emitted, 1);
    let done = ReplayProgress::complete(&r, 4);
    assert_eq!(done.phase, "complete");
    assert_eq!(done.detail, "Done: 5 player events, 2 chat messages");
    assert_eq!((done.current, done.total), (4, 4));
}

#[test]
fn content_hash_is_fnv1a_in_hex() {
    assert_eq!(content_hash(b""), "cbf29ce484222325");
    assert_eq!(content_hash(b"a"), "af63dc4c8601ec8c");
    assert_eq!(content_hash(b"hello world"), "779a65e7023cd2e7");
    assert_eq!(format!("{FNV_OFFSET:016x}"), content_hash(b""));
    assert_eq!(FNV_PRIME, 0x100000001b3);
}

#[test]
fn player_login_line_gives_character_and_date() {
    let l = "[12:00:01] Logged in as character Zeke. Time UTC=03/14/2026 18:22:05. Timezone Offset -05:00:00.";
    assert_eq!(parse_player_login_line(l), Some(("Zeke".to_string(), (2026, 3, 14))));
    let bracketed = "Logged in as character [Zeke]. Time UTC=12/31/2025 23:59:59.";
    assert_eq!(parse_player_login_line(bracketed), Some(("Zeke".to_string(), (2025, 12, 31))));
    assert_eq!(parse_player_login_line("Logged in as character Zeke. no time here"), None);
    assert_eq!(parse_player_login_line("Logged in as character Zeke. Time UTC=13/40/2026 1:00:00."), None);
    assert_eq!(parse_player_login_line("something else"), None);
}

#[test]
fn loading_level_lines_name_the_zone() {
    assert_eq!(loading_zone("[01:02:03] LOADING LEVEL AreaSerbule  "), Some("AreaSerbule".to_string()));
    assert_eq!(loading_zone("LOADING LEVEL   "), None);
    assert_eq!(loading_zone("loading level AreaSerbule"), None);
}

#[test]
fn first_search_of_a_corpse_is_the_kill() {
    let mut searches = Vec::new();
    let s = |id: u32, name: &str| CorpseSearch {
        corpse_entity_id: id,
        corpse_name: name.into(),
        killed_at: "2026-01-01 00:00:00".into(),
        zone: None,
        combat_skills: None,
    };
    note_corpse_search(&mut searches, s(7, "Boar"));
    note_corpse_search(&mut searches, s(8, "Wolf"));
    note_corpse_search(&mut searches, s(7, "Boar again"));
    assert_eq!(searches.len(), 2);
    assert_eq!(searches[0].corpse_name, "Boar");

    let loot = vec![
        LootPickup { corpse_entity_id: 7, item_name: "Hide".into(), quantity: 1, instance_id: 100 },
        LootPickup { corpse_entity_id: 9, item_name: "Orphan".into(), quantity: 2, instance_id: 101 },
        LootPickup { corpse_entity_id: 8, item_name: "Fang".into(), quantity: 3, instance_id: 102 },
        LootPickup { corpse_entity_id: 7, item_name: "Hide".into(), quantity: 1, instance_id: 103 },
    ];
    let rows = attribute_loot(&[(7, 1000), (8, 2000)], &loot);
    assert_eq!(
        rows,
        vec![
            (1000, "Hide".to_string(), 1, 100),
            (2000, "Fang".to_string(), 3, 102),
            (1000, "Hide".to_string(), 1, 103),
        ]
    );

    let mut ir = IngestResult::fresh();
    ir.count_kill();
    ir.count_loot();
    ir.count_loot();
    assert_eq!((ir.kills_added, ir.loot_added, ir.already_ingested), (1, 2, false));
    assert!(IngestResult::already().already_ingested);
}

#[test]
fn chat_log_dates_from_name_or_content() {
    assert_eq!(date_from_chat_filename("/logs/Chat-26-03-27.log"), Some((2026, 3, 27)));
    assert_eq!(date_from_chat_filename("C:/logs/Chat-99-12-31.log"), Some((1999, 12, 31)));
    assert_eq!(date_from_chat_filename("/logs/chat-26-03-27.log"), None);
    assert_eq!(date_from_chat_filename("/logs/Chat-latest.log"), None);

    // The first chat message gives its (local) date.
    let events = vec![line(5, "x"), login(0, None), chat(10, "hi"), login(1_700_000_000, None)];
    assert_eq!(date_from_chat_content(&events), Some((2026, 1, 2)));
    // A login with a known time gives its UTC date.
    let events = vec![login(0, None), login(1_700_000_000, Some(0)), chat(10, "hi")];
    assert_eq!(date_from_chat_content(&events), Some((2023, 11, 14)));
    assert_eq!(date_from_chat_content(&[line(1, "x")]), None);
}

#[test]
fn replay_merges_logs_with_logins_first() {
    let player = vec![line(100, "p1"), line(50, "p0")];
    let chat_events = vec![chat(50, "c0"), login(999, Some(3600)), chat(100, "c1")];
    let out = merge_replay_events(player, chat_events);
    let labels: Vec<String> = out.iter().map(label).collect();
    assert_eq!(labels, vec!["L", "P:p0", "C:c0", "P:p1", "C:c1"]);
    assert_eq!(out[0].utc_second(), 0);
}

#[test]
fn player_log_lines_inherit_the_previous_second() {
    let lines = vec![
        ("no stamp yet".to_string(), LineStamp::Missing),
        ("[10:00:00] first  ".to_string(), LineStamp::At(36000)),
        ("   ".to_string(), LineStamp::Missing),
        ("continuation".to_string(), LineStamp::Missing),
        ("[99:99:99] bad stamp".to_string(), LineStamp::Unreadable),
        ("[10:00:05] second".to_string(), LineStamp::At(36005)),
    ];
    let out = player_line_events(&lines);
    let v: Vec<(i64, String)> = out
        .iter()
        .map(|e| match e {
            TimedEvent::PlayerLine { utc_second, line } => (*utc_second, line.clone()),
            _ => panic!("only player lines"),
        })
        .collect();
    assert_eq!(
        v,
        vec![
            (36000, "[10:00:00] first".to_string()),
            (36000, "continuation".to_string()),
            (36005, "[10:00:05] second".to_string()),
        ]
    );
}

#[test]
fn first_login_line_of_a_player_log() {
    let lines = vec![
        "[09:00:00] LOADING LEVEL AreaSerbule".to_string(),
        "[09:00:01] Logged in as character Zeke. Time UTC=03/14/2026 18:22:05.".to_string(),
        "[09:00:02] Logged in as character Other. Time UTC=01/01/2020 00:00:00.".to_string(),
    ];
    assert_eq!(first_player_login(&lines), Some(("Zeke".to_string(), (2026, 3, 14))));
    assert_eq!(first_player_login(&lines[..1]), None);
    assert!(progress_due(0, 50));
    assert!(progress_due(100, 50));
    assert!(!progress_due(101, 50));
}

#[test]
fn chat_log_file_names() {
    assert!(glogger::replay::is_chat_log_name("Chat-26-03-27.log"));
    assert!(!glogger::replay::is_chat_log_name("Chat-26-03-27.txt"));
    assert!(!glogger::replay::is_chat_log_name("Player.log"));
}

#[test]
fn ingest_scan_tags_first_search_with_zone_and_loadout() {
    let mut scan = IngestScan::new();
    scan.observe_line("[12:00:00] LOADING LEVEL AreaEltibule");
    scan.observe_event(IngestEvent::LoadoutChanged { combat_skills: Some("Mentalism,Psychology".into()) });
    scan.observe_event(IngestEvent::CorpseSearched {
        timestamp: "2026-01-01 12:00:01".into(),
        corpse_entity_id: 7,
        corpse_name: "Goblin".into(),
        has_permission: true,
    });
    scan.observe_event(IngestEvent::CorpseSearched {
        timestamp: "2026-01-01 12:00:05".into(),
        corpse_entity_id: 7,
        corpse_name: "Goblin".into(),
        has_permission: true,
    });
    scan.observe_event(IngestEvent::CorpseSearched {
        timestamp: "2026-01-01 12:00:06".into(),
        corpse_entity_id: 8,
        corpse_name: "Rat".into(),
        has_permission: false,
    });
    scan.observe_event(IngestEvent::LootPickedUp {
        corpse_entity_id: Some(7),
        item_name: Some("Goblin Ear".into()),
        instance_id: 99,
        quantity: 2,
    });
    scan.observe_event(IngestEvent::LootPickedUp { corpse_entity_id: Some(7), item_name: Some(String::new()), instance_id: 100, quantity: 1 });
    scan.observe_event(IngestEvent::LootPickedUp { corpse_entity_id: None, item_name: Some("Coin".into()), instance_id: 101, quantity: 1 });
    assert_eq!(scan.searches.len(), 1);
    assert_eq!(scan.searches[0].killed_at, "2026-01-01 12:00:01");
    assert_eq!(scan.searches[0].zone.as_deref(), Some("AreaEltibule"));
    assert_eq!(scan.searches[0].combat_skills.as_deref(), Some("Mentalism,Psychology"));
    assert_eq!(scan.pickups.len(), 1);
    assert_eq!(scan.pickups[0].item_name, "Goblin Ear");
    assert_eq!(scan.pickups[0].instance_id, 99);
    assert!(batch_flush_due(50, false));
    assert!(!batch_flush_due(49, false));
    assert!(batch_flush_due(1, true));
    assert!(!batch_flush_due(0, true));
}
