use glogger::arena_stats::{
    fighter_records, head_to_head, recent_matches, ArenaRecentMatch, RECENT_LIMIT,
};
use glogger::combat_wisdom::{aggregate_monsters, fold_monsters, AwardRow, MIN_REAL_GAP_SECS};
use glogger::roulette::{roulette_stats, RouletteSpin};

fn ms(ts: &str) -> i64 {
    chrono::NaiveDateTime::parse_from_str(ts, "%Y-%m-%d %H:%M:%S")
        .unwrap()
        .and_utc()
        .timestamp_millis()
}

fn award(ts: &str, amount: i64, name: &str, verb: &str) -> AwardRow {
    AwardRow { name: name.to_string(), verb: verb.to_string(), earned_ms: ms(ts), amount }
}

fn spin(ts: &str, n: u32) -> RouletteSpin {
    RouletteSpin { spun_at: ts.to_string(), number: n }
}

fn fight(at: &str, a: &str, b: &str, winner: &str) -> ArenaRecentMatch {
    ArenaRecentMatch {
        fought_at: at.to_string(),
        fighter_a: a.to_string(),
        fighter_b: b.to_string(),
        winner: winner.to_string(),
    }
}

// ── roulette ──

#[test]
fn test_aggregate_counts_and_total() {
    let spins: Vec<RouletteSpin> = [
        ("2026-06-25 21:51:03", 31),
        ("2026-06-25 21:52:09", 23),
        ("2026-06-25 21:55:25", 8),
        ("2026-06-25 21:56:29", 0),
        ("2026-06-25 21:58:40", 25),
        ("2026-06-25 22:00:00", 25),
    ]
    .iter()
    .map(|(t, n)| spin(t, *n))
    .collect();
    let stats = roulette_stats(&spins);
    assert_eq!(stats.total, 6);
    let c25 = stats.counts.iter().find(|c| c.number == 25).unwrap();
    assert_eq!(c25.count, 2);
    assert_eq!(stats.counts.first().unwrap().number, 0);
    assert_eq!(stats.last_number, Some(25));
    assert_eq!(stats.last_spun_at.as_deref(), Some("2026-06-25 22:00:00"));
    assert_eq!(stats.counts.iter().map(|c| c.count).sum::<u32>(), stats.total);
}

#[test]
fn test_aggregate_empty() {
    let stats = roulette_stats(&[]);
    assert_eq!(stats.total, 0);
    assert!(stats.counts.is_empty());
    assert_eq!(stats.last_number, None);
}

#[test]
fn roulette_counts_ascend_and_latest_wins_over_record_order() {
    let spins = vec![
        spin("2026-06-25 22:00:00", 7),
        spin("2026-06-25 21:00:00", 3),
        spin("2026-06-25 22:00:00", 12),
    ];
    let stats = roulette_stats(&spins);
    let numbers: Vec<(u32, u32)> = stats.counts.iter().map(|c| (c.number, c.count)).collect();
    assert_eq!(numbers, vec![(3, 1), (7, 1), (12, 1)]);
    // Two spins share the latest time: the one recorded last is the latest.
    assert_eq!(stats.last_number, Some(12));
}

// ── combat wisdom ──

#[test]
fn test_min_gap_excludes_sub_minute_duplicates() {
    let rows = vec![
        award("2026-04-08 10:59:42", 95, "Aktaari Royal Guard", "Defeated"),
        award("2026-04-08 10:59:51", 95, "Aktaari Royal Guard", "Defeated"),
        award("2026-04-08 16:59:42", 95, "Aktaari Royal Guard", "Defeated"),
    ];
    let monsters = aggregate_monsters(&rows);
    let guard = monsters.iter().find(|m| m.name == "Aktaari Royal Guard").unwrap();
    assert_eq!(guard.count, 3);
    assert_eq!(guard.min_gap_secs, Some(21591));
}

#[test]
fn test_min_gap_none_when_only_one_award() {
    let rows = vec![award("2026-04-08 05:37:49", 73, "Elite Tactician", "Defeated")];
    let monsters = aggregate_monsters(&rows);
    assert_eq!(monsters.len(), 1);
    assert_eq!(monsters[0].min_gap_secs, None);
    assert_eq!(monsters[0].total_amount, 73);
}

#[test]
fn monsters_sort_most_recent_first_and_sum_amounts() {
    let rows = vec![
        award("2026-04-08 08:00:00", 10, "Aktaari Queen", "Killed"),
        award("2026-04-08 09:00:30", 20, "Aktaari Queen", "Killed"),
        award("2026-04-08 12:00:00", 5, "Elite Tactician", "Defeated"),
    ];
    let folded = fold_monsters(&rows);
    assert_eq!(folded.len(), 2);
    assert_eq!(folded[0].total_amount, 30);
    assert_eq!(folded[0].min_gap_secs, Some(3630));
    let monsters = aggregate_monsters(&rows);
    assert_eq!(monsters[0].name, "Elite Tactician");
    assert_eq!(monsters[1].name, "Aktaari Queen");
    assert_eq!(monsters[1].last_earned_ms, ms("2026-04-08 09:00:30"));
    assert_eq!(MIN_REAL_GAP_SECS, 60);
    assert_eq!(monsters.iter().map(|m| m.count).sum::<u32>(), 3);
}

#[test]
fn exactly_one_minute_apart_is_a_real_gap() {
    let rows = vec![
        award("2026-04-08 08:00:00", 1, "Boar", "Killed"),
        award("2026-04-08 08:01:00", 1, "Boar", "Killed"),
    ];
    let monsters = aggregate_monsters(&rows);
    assert_eq!(monsters[0].min_gap_secs, Some(60));
}

// ── arena ──

#[test]
fn aggregates_records_and_h2h() {
    let matches = vec![
        fight("2026-07-20 10:00:00", "Otis", "Leo", "Leo"),
        fight("2026-07-20 11:00:00", "Leo", "Otis", "Leo"),
        fight("2026-07-20 12:00:00", "Otis", "Leo", "Otis"),
    ];
    assert_eq!(matches.len(), 3);

    let fighters = fighter_records(&matches);
    let leo = fighters.iter().find(|f| f.name == "Leo").unwrap();
    assert_eq!((leo.wins, leo.losses), (2, 1));
    let otis = fighters.iter().find(|f| f.name == "Otis").unwrap();
    assert_eq!((otis.wins, otis.losses), (1, 2));
    assert_eq!(fighters.iter().map(|f| f.wins).sum::<u32>(), 3);
    assert_eq!(fighters.iter().map(|f| f.losses).sum::<u32>(), 3);
    // Leo's win share (2 of 3) is above Otis's (1 of 3).
    assert!(leo.wins * (otis.wins + otis.losses) > otis.wins * (leo.wins + leo.losses));

    let h2h = head_to_head(&matches);
    let lo = h2h.iter().find(|c| c.fighter == "Leo" && c.opponent == "Otis").unwrap();
    assert_eq!((lo.wins, lo.losses), (2, 1));
    let ol = h2h.iter().find(|c| c.fighter == "Otis" && c.opponent == "Leo").unwrap();
    assert_eq!((ol.wins, ol.losses), (1, 2));
}

#[test]
fn empty_aggregate() {
    let matches: Vec<ArenaRecentMatch> = Vec::new();
    assert!(fighter_records(&matches).is_empty());
    assert!(head_to_head(&matches).is_empty());
    assert!(recent_matches(matches).is_empty());
}

#[test]
fn recent_matches_newest_first_capped() {
    let mut matches = Vec::new();
    for i in 0..20 {
        matches.push(fight(&format!("2026-07-20 10:{:02}:00", i), "A", "B", "A"));
    }
    // Same time as the newest, recorded later: comes first.
    matches.push(fight("2026-07-20 10:19:00", "C", "D", "D"));
    let recent = recent_matches(matches);
    assert_eq!(recent.len(), RECENT_LIMIT);
    assert_eq!(recent[0].fighter_a, "C");
    assert_eq!(recent[1].fought_at, "2026-07-20 10:19:00");
    assert_eq!(recent[2].fought_at, "2026-07-20 10:18:00");
    assert_eq!(recent[14].fought_at, "2026-07-20 10:06:00");
}

#[test]
fn three_fighters_pairwise_cells() {
    let matches = vec![
        fight("t1", "A", "B", "A"),
        fight("t2", "B", "C", "C"),
        fight("t3", "C", "A", "C"),
    ];
    let h2h = head_to_head(&matches);
    assert_eq!(h2h.len(), 6);
    let ca = h2h.iter().find(|c| c.fighter == "C" && c.opponent == "A").unwrap();
    assert_eq!((ca.wins, ca.losses), (1, 0));
    let recs = fighter_records(&matches);
    assert_eq!(recs.len(), 3);
    let c = recs.iter().find(|f| f.name == "C").unwrap();
    assert_eq!((c.wins, c.losses), (2, 0));
}
