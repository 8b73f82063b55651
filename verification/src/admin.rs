//! Database administration: the size report, what a purge deletes, and what
//! a compaction gives back.
//!
//! The statements themselves run against SQLite outside this module; here is
//! what is decided around them: which tables are counted or purged, the SQL
//! text and cutoff each purge uses, and how the raw figures SQLite reports
//! are combined into the results shown to the user.
use vstd::prelude::*;

use crate::text::{decimal, decimal_chars, join3, push_all, string_of};

verus! {

/// On-disk footprint of a single logical table (its own b-tree plus all of
/// its indexes).
pub struct TableSize {
    pub name: String,
    pub size_bytes: i64,
}

/// The database size report.
pub struct DatabaseStats {
    pub total_size_bytes: i64,
    pub cdn_size_bytes: i64,
    pub player_data_size_bytes: i64,
    /// Space currently on the freelist, reclaimable by a compaction.
    pub free_bytes: i64,
    pub market_prices_count: i64,
    pub sales_history_count: i64,
    pub survey_sessions_count: i64,
    pub event_log_count: i64,
    pub item_transactions_count: i64,
    pub chat_messages_count: i64,
    /// Largest tables by on-disk size, most to least.
    pub largest_tables: Vec<TableSize>,
}

/// What the user asked a purge to remove.
pub struct PurgeOptions {
    pub older_than_days: Option<u32>,
    pub purge_all: bool,
}

/// Rows removed per table by a purge, and the file bytes returned afterwards.
pub struct PurgeResult {
    pub market_prices_deleted: usize,
    pub sales_deleted: usize,
    pub survey_sessions_deleted: usize,
    pub events_deleted: usize,
    pub item_transactions_deleted: usize,
    pub chat_messages_deleted: usize,
    pub bytes_reclaimed: i64,
}

/// File size before and after a compaction.
pub struct CompactResult {
    pub bytes_before: i64,
    pub bytes_after: i64,
    pub bytes_reclaimed: i64,
}

/// Refusal of a purge that names neither a cutoff nor "everything".
pub const PURGE_CHOICE_ERROR: &'static str = "Must specify either purge_all or older_than_days";

// ───────────────────────────── tables ─────────────────────────────

/// The player-generated, time-stamped tables that a purge may empty, in the
/// order their counts are reported.
pub open spec fn player_tables() -> Seq<Seq<char>> {
    seq![
        "market_prices"@,
        "sales_history"@,
        "survey_sessions"@,
        "event_log"@,
        "item_transactions"@,
        "chat_messages"@,
    ]
}

/// The time column a purge compares against the cutoff, per player table.
pub open spec fn player_time_columns() -> Seq<Seq<char>> {
    seq!["observed_at"@, "sold_at"@, "started_at"@, "created_at"@, "timestamp"@, "timestamp"@]
}

/// The reference tables loaded from the game's data files.
pub open spec fn cdn_table_names() -> Seq<Seq<char>> {
    seq![
        "items"@,
        "skills"@,
        "abilities"@,
        "recipes"@,
        "recipe_ingredients"@,
        "npcs"@,
        "npc_skills"@,
        "quests"@,
    ]
}

/// A purge never touches a reference table: no player table is one of
/// them.
pub proof fn lemma_purge_spares_reference_tables()
    ensures
        forall|i: int, j: int|
            0 <= i < player_tables().len() && 0 <= j < cdn_table_names().len() ==> #[trigger] player_tables()[i]
                != #[trigger] cdn_table_names()[j],
{
    reveal_strlit("market_prices");
    reveal_strlit("sales_history");
    reveal_strlit("survey_sessions");
    reveal_strlit("event_log");
    reveal_strlit("item_transactions");
    reveal_strlit("chat_messages");
    reveal_strlit("items");
    reveal_strlit("skills");
    reveal_strlit("abilities");
    reveal_strlit("recipes");
    reveal_strlit("recipe_ingredients");
    reveal_strlit("npcs");
    reveal_strlit("npc_skills");
    reveal_strlit("quests");
    assert forall|i: int, j: int|
        0 <= i < player_tables().len() && 0 <= j < cdn_table_names().len() implies #[trigger] player_tables()[i]
            != #[trigger] cdn_table_names()[j] by {
        let a = player_tables()[i];
        let b = cdn_table_names()[j];
        if a == b {
            assert(a.len() == b.len());
            assert(a[0] == b[0]);
            assert(a[1] == b[1]);
        }
    }
}

/// The purgeable tables with their time columns. Reference tables are never
/// among them.
pub fn purge_tables() -> (v: Vec<(&'static str, &'static str)>)
    ensures
        v@.len() == player_tables().len(),
        forall|i: int|
            0 <= i < v@.len() ==> #[trigger] v@[i].0@ == player_tables()[i] && v@[i].1@
                == player_time_columns()[i],
{
    let mut v: Vec<(&'static str, &'static str)> = Vec::new();
    v.push(("market_prices", "observed_at"));
    v.push(("sales_history", "sold_at"));
    v.push(("survey_sessions", "started_at"));
    v.push(("event_log", "created_at"));
    v.push(("item_transactions", "timestamp"));
    v.push(("chat_messages", "timestamp"));
    v
}

/// The reference tables whose size is reported as game data.
pub fn cdn_tables() -> (v: Vec<&'static str>)
    ensures
        v@.len() == cdn_table_names().len(),
        forall|i: int| 0 <= i < v@.len() ==> #[trigger] v@[i]@ == cdn_table_names()[i],
{
    let mut v: Vec<&'static str> = Vec::new();
    v.push("items");
    v.push("skills");
    v.push("abilities");
    v.push("recipes");
    v.push("recipe_ingredients");
    v.push("npcs");
    v.push("npc_skills");
    v.push("quests");
    v
}

// ───────────────────────────── statements ─────────────────────────────

/// The cutoff handed to SQLite's `datetime('now', ?)` for an age-bounded
/// purge: `-N days`.
pub open spec fn cutoff_text(days: nat) -> Seq<char> {
    seq!['-'] + decimal(days) + seq![' ', 'd', 'a', 'y', 's']
}

/// `-N days` for `days`.
fn cutoff_for(days: u32) -> (s: String)
    ensures
        s@ == cutoff_text(days as nat),
{
    let mut v: Vec<char> = Vec::new();
    v.push('-');
    let d = decimal_chars(days as u64);
    push_all(&mut v, &d);
    v.push(' ');
    v.push('d');
    v.push('a');
    v.push('y');
    v.push('s');
    assert(v@ =~= cutoff_text(days as nat));
    string_of(&v)
}

/// The cutoff of a manual purge: none when everything goes, `-N days` for
/// an age bound, and a refusal when the options name neither.
pub fn purge_cutoff(options: &PurgeOptions) -> (r: Result<Option<String>, String>)
    ensures
        options.purge_all ==> r is Ok && r->Ok_0 is None,
        !options.purge_all && options.older_than_days is Some ==> r is Ok && r->Ok_0 is Some
            && r->Ok_0->0@ == cutoff_text(options.older_than_days->0 as nat),
        !options.purge_all && options.older_than_days is None ==> r is Err && r->Err_0@
            == PURGE_CHOICE_ERROR@,
{
    if options.purge_all {
        Ok(None)
    } else {
        match options.older_than_days {
            Some(days) => Ok(Some(cutoff_for(days))),
            None => Err(PURGE_CHOICE_ERROR.to_owned()),
        }
    }
}

/// The cutoff of the startup purge: only when an age is configured.
pub fn auto_purge_cutoff(days: Option<u32>) -> (r: Option<String>)
    ensures
        days is None ==> r is None,
        days is Some ==> r is Some && r->0@ == cutoff_text(days->0 as nat),
{
    match days {
        Some(d) => Some(cutoff_for(d)),
        None => None,
    }
}

/// The `DELETE` for one table: bounded by `?1` on `time_col` when `bounded`,
/// otherwise every row.
pub open spec fn purge_statement_spec(table: Seq<char>, time_col: Seq<char>, bounded: bool) -> Seq<
    char,
> {
    if bounded {
        "DELETE FROM "@ + table + " WHERE "@ + time_col + " < datetime('now', ?1)"@
    } else {
        "DELETE FROM "@ + table
    }
}

/// The `DELETE` statement a purge runs against one table.
pub fn purge_statement(table: &str, time_col: &str, bounded: bool) -> (r: String)
    ensures
        r@ == purge_statement_spec(table@, time_col@, bounded),
{
    let head = join3("DELETE FROM ", table, "");
    if bounded {
        let mid = join3(head.as_str(), " WHERE ", time_col);
        let r = join3(mid.as_str(), " < datetime('now', ?1)", "");
        proof {
            assert(""@ =~= Seq::<char>::empty()) by {
                reveal_strlit("");
            }
        }
        r
    } else {
        proof {
            assert(""@ =~= Seq::<char>::empty()) by {
                reveal_strlit("");
            }
        }
        head
    }
}

/// The query for the on-disk size of one table.
pub fn table_size_query(table: &str) -> (r: String)
    ensures
        r@ == "SELECT SUM(pgsize) FROM dbstat WHERE name = '"@ + table@ + "'"@,
{
    join3("SELECT SUM(pgsize) FROM dbstat WHERE name = '", table, "'")
}

/// The query for the number of rows of one table.
pub fn row_count_query(table: &str) -> (r: String)
    ensures
        r@ == "SELECT COUNT(*) FROM "@ + table@,
{
    let r = join3("SELECT COUNT(*) FROM ", table, "");
    proof {
        assert(""@ =~= Seq::<char>::empty()) by {
            reveal_strlit("");
        }
        assert(r@ =~= "SELECT COUNT(*) FROM "@ + table@);
    }
    r
}

// ───────────────────────────── results ─────────────────────────────

/// Total rows a purge removed.
pub open spec fn deleted_total(r: PurgeResult) -> int {
    r.market_prices_deleted + r.sales_deleted + r.survey_sessions_deleted + r.events_deleted
        + r.item_transactions_deleted + r.chat_messages_deleted
}

/// Bytes given back when the file shrank from `before` to `after`; never
/// negative.
pub open spec fn reclaimed(before: int, after: int) -> int {
    if before - after > 0 {
        before - after
    } else {
        0
    }
}

/// `before - after`, or zero if the file grew.
pub fn reclaimed_bytes(before: i64, after: i64) -> (r: i64)
    requires
        i64::MIN <= before - after <= i64::MAX,
    ensures
        r == reclaimed(before as int, after as int),
{
    let d = before - after;
    if d > 0 {
        d
    } else {
        0
    }
}

impl PurgeResult {
    /// A purge that removed nothing.
    pub fn none() -> (r: Self)
        ensures
            deleted_total(r) == 0,
            r.bytes_reclaimed == 0,
    {
        PurgeResult {
            market_prices_deleted: 0,
            sales_deleted: 0,
            survey_sessions_deleted: 0,
            events_deleted: 0,
            item_transactions_deleted: 0,
            chat_messages_deleted: 0,
            bytes_reclaimed: 0,
        }
    }

    /// The result of deleting `counts[i]` rows from the `i`-th purgeable
    /// table (see [`purge_tables`]); nothing reclaimed yet.
    pub fn from_counts(counts: &[usize]) -> (r: Self)
        requires
            counts@.len() == player_tables().len(),
        ensures
            r.market_prices_deleted == counts@[0],
            r.sales_deleted == counts@[1],
            r.survey_sessions_deleted == counts@[2],
            r.events_deleted == counts@[3],
            r.item_transactions_deleted == counts@[4],
            r.chat_messages_deleted == counts@[5],
            r.bytes_reclaimed == 0,
    {
        PurgeResult {
            market_prices_deleted: counts[0],
            sales_deleted: counts[1],
            survey_sessions_deleted: counts[2],
            events_deleted: counts[3],
            item_transactions_deleted: counts[4],
            chat_messages_deleted: counts[5],
            bytes_reclaimed: 0,
        }
    }

    /// Did the purge remove any row? (Decides whether the file is rewritten.)
    pub fn deleted_any(&self) -> (b: bool)
        ensures
            b == (deleted_total(*self) > 0),
    {
        self.market_prices_deleted > 0 || self.sales_deleted > 0 || self.survey_sessions_deleted
            > 0 || self.events_deleted > 0 || self.item_transactions_deleted > 0
            || self.chat_messages_deleted > 0
    }

    /// Total rows removed.
    pub fn total_deleted(&self) -> (n: usize)
        requires
            deleted_total(*self) <= usize::MAX,
        ensures
            n == deleted_total(*self),
    {
        self.market_prices_deleted + self.sales_deleted + self.survey_sessions_deleted
            + self.events_deleted + self.item_transactions_deleted + self.chat_messages_deleted
    }

    /// Records the file sizes around the rewrite that followed the purge.
    pub fn set_reclaimed(&mut self, before: i64, after: i64)
        requires
            i64::MIN <= before - after <= i64::MAX,
        ensures
            final(self).bytes_reclaimed == reclaimed(before as int, after as int),
            deleted_total(*final(self)) == deleted_total(*old(self)),
            final(self).market_prices_deleted == old(self).market_prices_deleted,
            final(self).sales_deleted == old(self).sales_deleted,
            final(self).survey_sessions_deleted == old(self).survey_sessions_deleted,
            final(self).events_deleted == old(self).events_deleted,
            final(self).item_transactions_deleted == old(self).item_transactions_deleted,
            final(self).chat_messages_deleted == old(self).chat_messages_deleted,
    {
        self.bytes_reclaimed = reclaimed_bytes(before, after);
    }
}

impl CompactResult {
    /// The result of a compaction that took the file from `before` to
    /// `after` bytes.
    pub fn from_sizes(before: i64, after: i64) -> (r: Self)
        requires
            i64::MIN <= before - after <= i64::MAX,
        ensures
            r.bytes_before == before,
            r.bytes_after == after,
            r.bytes_reclaimed == reclaimed(before as int, after as int),
    {
        CompactResult {
            bytes_before: before,
            bytes_after: after,
            bytes_reclaimed: reclaimed_bytes(before, after),
        }
    }
}

impl TableSize {
    /// A table with its summed page size; a table with no pages counts zero.
    pub fn new(name: String, size_bytes: Option<i64>) -> (r: Self)
        ensures
            r.name == name,
            r.size_bytes == opt_or_zero(size_bytes),
    {
        TableSize { name, size_bytes: unwrap_or_zero(size_bytes) }
    }
}

// ───────────────────────────── size report ─────────────────────────────

/// The value, or zero when SQLite reported none.
pub open spec fn opt_or_zero(o: Option<i64>) -> int {
    match o {
        Some(v) => v as int,
        None => 0,
    }
}

/// Sum of the reported values, absent ones counting zero.
pub open spec fn opt_sum(s: Seq<Option<i64>>) -> int
    decreases s.len(),
{
    if s.len() == 0 {
        0
    } else {
        opt_sum(s.drop_last()) + opt_or_zero(s.last())
    }
}

/// Every running total of `s` fits in an `i64`.
pub open spec fn running_sums_fit(s: Seq<Option<i64>>) -> bool {
    forall|k: int| 0 <= k <= s.len() ==> i64::MIN <= #[trigger] opt_sum(s.take(k)) <= i64::MAX
}

fn unwrap_or_zero(o: Option<i64>) -> (v: i64)
    ensures
        v == opt_or_zero(o),
{
    match o {
        Some(v) => v,
        None => 0,
    }
}

/// Size of the file from its page count and page size; a figure SQLite did
/// not report counts zero.
pub fn size_from_pages(page_count: Option<i64>, page_size: Option<i64>) -> (r: i64)
    requires
        i64::MIN <= opt_or_zero(page_count) * opt_or_zero(page_size) <= i64::MAX,
    ensures
        r == opt_or_zero(page_count) * opt_or_zero(page_size),
{
    unwrap_or_zero(page_count) * unwrap_or_zero(page_size)
}

/// Sum of the per-table sizes of the reference tables.
pub fn total_of(sizes: &[Option<i64>]) -> (r: i64)
    requires
        running_sums_fit(sizes@),
    ensures
        r == opt_sum(sizes@),
{
    let mut total: i64 = 0;
    let mut i: usize = 0;
    assert(sizes@.take(0) =~= Seq::<Option<i64>>::empty());
    while i < sizes.len()
        invariant
            i <= sizes@.len(),
            running_sums_fit(sizes@),
            total == opt_sum(sizes@.take(i as int)),
        decreases sizes@.len() - i,
    {
        assert(sizes@.take(i as int + 1).drop_last() =~= sizes@.take(i as int));
        assert(i64::MIN <= opt_sum(sizes@.take(i as int + 1)) <= i64::MAX);
        total = total + unwrap_or_zero(sizes[i]);
        i = i + 1;
    }
    assert(sizes@.take(sizes@.len() as int) =~= sizes@);
    total
}

/// The size report from what SQLite returned: the file's page count and
/// page size, the page sizes summed per reference table (see
/// [`cdn_tables`]), the row counts of the player tables (see
/// [`purge_tables`]), the freelist page count and the largest tables. A
/// figure SQLite did not report counts zero; game data is the reference
/// tables' total and player data the rest of the file.
pub fn database_stats(
    page_count: i64,
    page_size: i64,
    cdn_sizes: &[Option<i64>],
    row_counts: &[Option<i64>],
    free_pages: Option<i64>,
    largest_tables: Vec<TableSize>,
) -> (r: DatabaseStats)
    requires
        row_counts@.len() == player_tables().len(),
        i64::MIN <= page_count * page_size <= i64::MAX,
        i64::MIN <= opt_or_zero(free_pages) * page_size <= i64::MAX,
        running_sums_fit(cdn_sizes@),
        i64::MIN <= page_count * page_size - opt_sum(cdn_sizes@) <= i64::MAX,
    ensures
        r.total_size_bytes == page_count * page_size,
        r.cdn_size_bytes == opt_sum(cdn_sizes@),
        r.player_data_size_bytes == page_count * page_size - opt_sum(cdn_sizes@),
        r.free_bytes == opt_or_zero(free_pages) * page_size,
        r.market_prices_count == opt_or_zero(row_counts@[0]),
        r.sales_history_count == opt_or_zero(row_counts@[1]),
        r.survey_sessions_count == opt_or_zero(row_counts@[2]),
        r.event_log_count == opt_or_zero(row_counts@[3]),
        r.item_transactions_count == opt_or_zero(row_counts@[4]),
        r.chat_messages_count == opt_or_zero(row_counts@[5]),
        r.largest_tables@ == largest_tables@,
{
    let total = page_count * page_size;
    let cdn = total_of(cdn_sizes);
    let free = unwrap_or_zero(free_pages) * page_size;
    DatabaseStats {
        total_size_bytes: total,
        cdn_size_bytes: cdn,
        player_data_size_bytes: total - cdn,
        free_bytes: free,
        market_prices_count: unwrap_or_zero(row_counts[0]),
        sales_history_count: unwrap_or_zero(row_counts[1]),
        survey_sessions_count: unwrap_or_zero(row_counts[2]),
        event_log_count: unwrap_or_zero(row_counts[3]),
        item_transactions_count: unwrap_or_zero(row_counts[4]),
        chat_messages_count: unwrap_or_zero(row_counts[5]),
        largest_tables,
    }
}

} // verus!
