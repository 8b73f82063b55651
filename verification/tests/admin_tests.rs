use glogger::admin::{
    auto_purge_cutoff, cdn_tables, database_stats, purge_cutoff, purge_statement, purge_tables,
    reclaimed_bytes, row_count_query, size_from_pages, table_size_query, total_of, CompactResult,
    PurgeOptions, PurgeResult, TableSize, PURGE_CHOICE_ERROR,
};
use rusqlite::Connection;

/// Two old rows (year 2000) + one current row in each of the two big tables.
fn setup() -> Connection {
    let c = Connection::open_in_memory().unwrap();
    c.execute_batch(
        "CREATE TABLE item_transactions(timestamp TEXT);
         CREATE TABLE chat_messages(timestamp TEXT);",
    )
    .unwrap();
    for t in ["2000-01-01 00:00:00", "2000-01-02 00:00:00"] {
        c.execute("INSERT INTO item_transactions(timestamp) VALUES (?1)", [t]).unwrap();
        c.execute("INSERT INTO chat_messages(timestamp) VALUES (?1)", [t]).unwrap();
    }
    c.execute("INSERT INTO item_transactions(timestamp) VALUES (datetime('now'))", []).unwrap();
    c.execute("INSERT INTO chat_messages(timestamp) VALUES (datetime('now'))", []).unwrap();
    c
}

/// Runs the library's statement for one table; a failing table counts 0.
fn purge_table(conn: &Connection, table: &str, time_col: &str, cutoff: Option<&str>) -> usize {
    let sql = purge_statement(table, time_col, cutoff.is_some());
    let result = match cutoff {
        Some(c) => conn.execute(&sql, [c]),
        None => conn.execute(&sql, []),
    };
    result.unwrap_or(0)
}

fn run_purge(conn: &Connection, cutoff: Option<&str>) -> PurgeResult {
    let counts: Vec<usize> =
        purge_tables().iter().map(|(t, col)| purge_table(conn, t, col, cutoff)).collect();
    PurgeResult::from_counts(&counts)
}

#[test]
fn purge_table_respects_cutoff() {
    let c = setup();
    assert_eq!(purge_table(&c, "item_transactions", "timestamp", Some("-30 days")), 2);
    let remaining: i64 =
        c.query_row("SELECT COUNT(*) FROM item_transactions", [], |r| r.get(0)).unwrap();
    assert_eq!(remaining, 1, "the current row survives an age-bounded purge");
}

#[test]
fn purge_table_tolerates_missing_table() {
    let c = setup();
    assert_eq!(purge_table(&c, "does_not_exist", "timestamp", Some("-30 days")), 0);
}

#[test]
fn run_purge_counts_present_and_skips_absent() {
    let c = setup();
    let r = run_purge(&c, Some("-30 days"));
    assert_eq!(r.item_transactions_deleted, 2);
    assert_eq!(r.chat_messages_deleted, 2);
    assert_eq!(r.market_prices_deleted, 0);
    assert_eq!(r.sales_deleted, 0);
    assert_eq!(r.survey_sessions_deleted, 0);
    assert_eq!(r.events_deleted, 0);
}

#[test]
fn run_purge_all_deletes_every_row() {
    let c = setup();
    let r = run_purge(&c, None);
    assert_eq!(r.item_transactions_deleted, 3);
    assert_eq!(r.chat_messages_deleted, 3);
    let remaining: i64 =
        c.query_row("SELECT COUNT(*) FROM chat_messages", [], |r| r.get(0)).unwrap();
    assert_eq!(remaining, 0);
}

#[test]
fn purge_statements_read_as_sql() {
    assert_eq!(
        purge_statement("event_log", "created_at", true),
        "DELETE FROM event_log WHERE created_at < datetime('now', ?1)"
    );
    assert_eq!(purge_statement("event_log", "created_at", false), "DELETE FROM event_log");
    assert_eq!(table_size_query("items"), "SELECT SUM(pgsize) FROM dbstat WHERE name = 'items'");
    assert_eq!(row_count_query("sales_history"), "SELECT COUNT(*) FROM sales_history");
}

#[test]
fn purge_options_pick_the_cutoff() {
    let all = PurgeOptions { older_than_days: Some(5), purge_all: true };
    assert_eq!(purge_cutoff(&all), Ok(None));
    let aged = PurgeOptions { older_than_days: Some(90), purge_all: false };
    assert_eq!(purge_cutoff(&aged), Ok(Some("-90 days".to_string())));
    let neither = PurgeOptions { older_than_days: None, purge_all: false };
    assert_eq!(purge_cutoff(&neither), Err(PURGE_CHOICE_ERROR.to_string()));
    assert_eq!(auto_purge_cutoff(None), None);
    assert_eq!(auto_purge_cutoff(Some(0)), Some("-0 days".to_string()));
}

#[test]
fn table_lists_are_fixed() {
    let t = purge_tables();
    assert_eq!(t.len(), 6);
    assert_eq!(t[0], ("market_prices", "observed_at"));
    assert_eq!(t[5], ("chat_messages", "timestamp"));
    let cdn = cdn_tables();
    assert_eq!(cdn.len(), 8);
    assert_eq!(cdn[0], "items");
    assert_eq!(cdn[7], "quests");
    assert!(t.iter().all(|(table, _)| !cdn.contains(table)));
}

#[test]
fn reclaimed_bytes_never_negative() {
    assert_eq!(reclaimed_bytes(4096, 1024), 3072);
    assert_eq!(reclaimed_bytes(1024, 4096), 0);
    let c = CompactResult::from_sizes(8192, 4096);
    assert_eq!((c.bytes_before, c.bytes_after, c.bytes_reclaimed), (8192, 4096, 4096));
    let mut r = PurgeResult::none();
    assert!(!r.deleted_any());
    assert_eq!(r.total_deleted(), 0);
    r.set_reclaimed(100, 300);
    assert_eq!(r.bytes_reclaimed, 0);
    let r2 = PurgeResult::from_counts(&[1, 0, 0, 0, 2, 3]);
    assert!(r2.deleted_any());
    assert_eq!(r2.total_deleted(), 6);
}

#[test]
fn size_report_from_sqlite_figures() {
    assert_eq!(size_from_pages(Some(10), Some(4096)), 40960);
    assert_eq!(size_from_pages(None, Some(4096)), 0);
    assert_eq!(total_of(&[Some(100), None, Some(50)]), 150);
    let largest = vec![TableSize::new("chat_messages".into(), Some(9000)), TableSize::new("x".into(), None)];
    assert_eq!(largest[1].size_bytes, 0);
    let s = database_stats(
        100,
        1000,
        &[Some(20000), None],
        &[Some(1), Some(2), None, Some(4), Some(5), Some(6)],
        Some(3),
        largest,
    );
    assert_eq!(s.total_size_bytes, 100000);
    assert_eq!(s.cdn_size_bytes, 20000);
    assert_eq!(s.player_data_size_bytes, 80000);
    assert_eq!(s.free_bytes, 3000);
    assert_eq!(s.survey_sessions_count, 0);
    assert_eq!(s.chat_messages_count, 6);
    assert_eq!(s.largest_tables.len(), 2);
}

#[test]
fn statements_run_against_sqlite() {
    let c = setup();
    let n: i64 = c.query_row(&row_count_query("chat_messages"), [], |r| r.get(0)).unwrap();
    assert_eq!(n, 3);
}
