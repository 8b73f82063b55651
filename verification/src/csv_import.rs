//! Reading shared drop-rate files.
//!
//! A shared file is a CSV in one of two layouts: the aggregated one this
//! application exports (one row per monster and item, counts precomputed),
//! or a raw loot-event log (one row per looted item, with a per-corpse id)
//! that is aggregated here. Older exports were JSON; those are recognised
//! and left to the JSON reader. Headers are matched case-insensitively, in
//! any order, with a few common aliases.
use vstd::prelude::*;

use crate::chat::opt_text;
use crate::drop_search::{add_key, add_text, dedup, key_list_view, lemma_dedup, same_zone, text_views};
use crate::text::{
    chars_of, contains, decimal, decimal_chars, has, join3, parse_i64, parse_i64_spec, push_all,
    remove_char, same, string_of, to_lowercase, trim, trim_start, trimmed, unicode_lowercase,
    without_char,
};

verus! {

/// One item of a monster's drop data.
pub struct ExportedLoot {
    pub item_name: String,
    pub total_quantity: i64,
    pub times_dropped: i64,
}

/// A monster's drop data in one zone.
pub struct ExportedEnemy {
    pub enemy_name: String,
    /// Area key (`None` = unknown zone).
    pub zone: Option<String>,
    pub total_kills: i64,
    pub loot: Vec<ExportedLoot>,
}

// ───────────────────────────── CSV reading ─────────────────────────────

/// What the `csv` crate reads from a text with headers, flexible record
/// lengths and every field trimmed: the header fields and each record's
/// fields (or the record's error text), or the header's error text.
pub uninterp spec fn csv_fields(content: Seq<char>) -> Result<
    (Seq<Seq<char>>, Seq<Result<Seq<Seq<char>>, Seq<char>>>),
    Seq<char>,
>;

pub open spec fn record_view(r: Result<Vec<String>, String>) -> Result<Seq<Seq<char>>, Seq<char>> {
    match r {
        Ok(v) => Ok(text_views(v@)),
        Err(e) => Err(e@),
    }
}

pub open spec fn records_view(v: Seq<Result<Vec<String>, String>>) -> Seq<
    Result<Seq<Seq<char>>, Seq<char>>,
> {
    v.map_values(|r: Result<Vec<String>, String>| record_view(r))
}

/// `csv::ReaderBuilder` with headers, flexible records and `Trim::All`,
/// reading `content`: its `headers` and every item of its `records`, the
/// errors rendered as text. Its result is named [`csv_fields`]; how the crate
/// splits and unquotes fields is not stated.
#[verifier::external_body]
fn read_csv(content: &str) -> (r: Result<(Vec<String>, Vec<Result<Vec<String>, String>>), String>)
    ensures
        match r {
            Ok((h, recs)) => csv_fields(content@) == Ok::<
                (Seq<Seq<char>>, Seq<Result<Seq<Seq<char>>, Seq<char>>>),
                Seq<char>,
            >((text_views(h@), records_view(recs@))),
            Err(e) => csv_fields(content@) == Err::<
                (Seq<Seq<char>>, Seq<Result<Seq<Seq<char>>, Seq<char>>>),
                Seq<char>,
            >(e@),
        },
{
    let mut rdr = csv::ReaderBuilder::new().has_headers(true).flexible(true).trim(csv::Trim::All)
        .from_reader(content.as_bytes());
    let headers = rdr.headers().map_err(|e| format!("{e}"))?.iter().map(String::from).collect();
    let records = rdr.records().map(
        |r| r.map(|rec| rec.iter().map(String::from).collect()).map_err(|e| format!("{e}")),
    ).collect();
    Ok((headers, records))
}

// ───────────────────────────── headers ─────────────────────────────

/// A header as matched against aliases: trimmed, lower-cased, spaces as
/// underscores.
pub open spec fn norm_header(h: Seq<char>) -> Seq<char> {
    unicode_lowercase(trim(h)).map_values(|c: char| if c == ' ' { '_' } else { c })
}

/// Index of the first header whose normalised form is one of `aliases`.
pub open spec fn header_index(headers: Seq<Seq<char>>, aliases: Seq<Seq<char>>) -> Option<int>
    decreases headers.len(),
{
    if headers.len() == 0 {
        None
    } else {
        match header_index(headers.drop_last(), aliases) {
            Some(i) => Some(i),
            None => if aliases.contains(norm_header(headers.last())) {
                Some(headers.len() - 1)
            } else {
                None
            },
        }
    }
}

fn normalized(h: &str) -> (r: Vec<char>)
    ensures
        r@ == norm_header(h@),
{
    let c = chars_of(h);
    let t = trimmed(&c);
    let ts = string_of(&t);
    let l = to_lowercase(ts.as_str());
    let lc = chars_of(l.as_str());
    let mut out: Vec<char> = Vec::new();
    let mut i: usize = 0;
    while i < lc.len()
        invariant
            i <= lc@.len(),
            out@ == lc@.take(i as int).map_values(|c: char| if c == ' ' { '_' } else { c }),
        decreases lc@.len() - i,
    {
        let ch = lc[i];
        out.push(if ch == ' ' { '_' } else { ch });
        proof {
            assert(lc@.take(i + 1) =~= lc@.take(i as int).push(ch));
            assert(out@ =~= lc@.take(i + 1).map_values(|c: char| if c == ' ' { '_' } else { c }));
        }
        i = i + 1;
    }
    assert(lc@.take(lc@.len() as int) =~= lc@);
    out
}

fn is_alias(n: &[char], aliases: &[&str]) -> (b: bool)
    ensures
        b == aliases@.map_values(|a: &str| a@).contains(n@),
{
    let ghost av = aliases@.map_values(|a: &str| a@);
    let mut i: usize = 0;
    while i < aliases.len()
        invariant
            i <= aliases@.len(),
            av == aliases@.map_values(|a: &str| a@),
            forall|j: int| 0 <= j < i ==> av[j] != n@,
        decreases aliases@.len() - i,
    {
        let a = chars_of(aliases[i]);
        if same(&a, n) {
            assert(av[i as int] == n@);
            return true;
        }
        i = i + 1;
    }
    false
}

/// See [`header_index`].
fn find_header(headers: &[String], aliases: &[&str]) -> (r: Option<usize>)
    ensures
        match r {
            Some(i) => header_index(text_views(headers@), aliases@.map_values(|a: &str| a@)) == Some(i as int),
            None => header_index(text_views(headers@), aliases@.map_values(|a: &str| a@)) is None,
        },
{
    let ghost hv = text_views(headers@);
    let ghost av = aliases@.map_values(|a: &str| a@);
    let mut i: usize = 0;
    assert(hv.take(0) =~= Seq::<Seq<char>>::empty());
    while i < headers.len()
        invariant
            i <= headers@.len(),
            hv == text_views(headers@),
            av == aliases@.map_values(|a: &str| a@),
            header_index(hv.take(i as int), av) is None,
        decreases headers@.len() - i,
    {
        proof {
            assert(hv.take(i + 1).drop_last() =~= hv.take(i as int));
            assert(hv.take(i + 1).last() == headers@[i as int]@);
        }
        let n = normalized(headers[i].as_str());
        if is_alias(&n, aliases) {
            proof {
                lemma_header_index_extend(hv, i as int + 1, av);
            }
            return Some(i);
        }
        i = i + 1;
    }
    assert(hv.take(hv.len() as int) =~= hv);
    None
}

/// A header found in a prefix is the header found.
proof fn lemma_header_index_extend(hv: Seq<Seq<char>>, k: int, av: Seq<Seq<char>>)
    requires
        0 <= k <= hv.len(),
        header_index(hv.take(k), av) is Some,
    ensures
        header_index(hv, av) == header_index(hv.take(k), av),
    decreases hv.len() - k,
{
    if k < hv.len() {
        assert(hv.take(k + 1).drop_last() =~= hv.take(k));
        lemma_header_index_extend(hv, k + 1, av);
    } else {
        assert(hv.take(k) =~= hv);
    }
}

// ───────────────────────────── cells and numbers ─────────────────────────────

/// The field at `i` of a record, empty when the record is shorter.
pub open spec fn cell(rec: Seq<Seq<char>>, i: int) -> Seq<char> {
    if 0 <= i < rec.len() {
        rec[i]
    } else {
        Seq::empty()
    }
}

/// A numeric cell's text as read: trimmed, then thousands separators
/// dropped.
pub open spec fn number_text(s: Seq<char>) -> Seq<char> {
    remove_char(trim(s), ',')
}

/// A count cell of the aggregated layout: none when empty, else its integer
/// value, else its float reading.
pub open spec fn count_value(s: Seq<char>, float: Option<i64>) -> Option<i64> {
    let t = number_text(s);
    if t.len() == 0 {
        None
    } else {
        match parse_i64_spec(t) {
            Some(v) => Some(v),
            None => float,
        }
    }
}

/// An amount cell of the raw layout: 1 when empty, unreadable or not
/// positive, else its integer value or float reading.
pub open spec fn amount_value(s: Seq<char>, float: Option<i64>) -> i64 {
    let t = number_text(s);
    if t.len() == 0 {
        1
    } else {
        let v = match parse_i64_spec(t) {
            Some(v) => v,
            None => match float {
                Some(f) => f,
                None => 1,
            },
        };
        if v <= 0 {
            1
        } else {
            v
        }
    }
}

fn cell_of(rec: &Vec<String>, i: usize) -> (r: Vec<char>)
    ensures
        r@ == cell(text_views(rec@), i as int),
{
    if i < rec.len() {
        chars_of(rec[i].as_str())
    } else {
        Vec::new()
    }
}

fn number_text_of(s: &[char]) -> (r: Vec<char>)
    ensures
        r@ == number_text(s@),
{
    let t = trimmed(s);
    without_char(&t, ',')
}

fn count_of(s: &[char], float: Option<i64>) -> (r: Option<i64>)
    ensures
        r == count_value(s@, float),
{
    let t = number_text_of(s);
    if t.len() == 0 {
        None
    } else {
        match parse_i64(&t) {
            Some(v) => Some(v),
            None => float,
        }
    }
}

fn amount_of(s: &[char], float: Option<i64>) -> (r: i64)
    ensures
        r == amount_value(s@, float),
{
    let t = number_text_of(s);
    if t.len() == 0 {
        1
    } else {
        let v = match parse_i64(&t) {
            Some(v) => v,
            None => match float {
                Some(f) => f,
                None => 1,
            },
        };
        if v <= 0 {
            1
        } else {
            v
        }
    }
}

/// The trimmed zone cell, when the file has a zone column and the cell is
/// not blank.
pub open spec fn zone_cell(rec: Seq<Seq<char>>, zone: Option<usize>) -> Option<Seq<char>> {
    match zone {
        Some(z) => if (z as int) < rec.len() && trim(rec[z as int]).len() > 0 {
            Some(trim(rec[z as int]))
        } else {
            None
        },
        None => None,
    }
}

fn zone_of(rec: &Vec<String>, zone: Option<usize>) -> (r: Option<String>)
    ensures
        opt_text(r) == zone_cell(text_views(rec@), zone),
{
    match zone {
        Some(z) => {
            if z < rec.len() {
                let c = chars_of(rec[z].as_str());
                let t = trimmed(&c);
                if t.len() > 0 {
                    return Some(string_of(&t));
                }
            }
            None
        },
        None => None,
    }
}

/// The first record error, as (record index, error text).
pub open spec fn first_error(recs: Seq<Result<Seq<Seq<char>>, Seq<char>>>) -> Option<(int, Seq<char>)>
    decreases recs.len(),
{
    if recs.len() == 0 {
        None
    } else {
        match first_error(recs.drop_last()) {
            Some(e) => Some(e),
            None => match recs.last() {
                Err(e) => Some((recs.len() - 1, e)),
                Ok(_) => None,
            },
        }
    }
}

/// The message of a record error: `CSV parse error on row <n>: <error>`,
/// counting the header as row 1.
pub open spec fn row_error_message(index: int, e: Seq<char>) -> Seq<char> {
    "CSV parse error on row "@ + decimal((index + 2) as nat) + ": "@ + e
}

/// The message of a header error.
pub open spec fn header_error_message(e: Seq<char>) -> Seq<char> {
    "Failed to read CSV header: "@ + e
}

fn row_error(index: usize, e: &String) -> (m: String)
    requires
        index + 2 <= u64::MAX,
    ensures
        m@ == row_error_message(index as int, e@),
{
    let mut v = chars_of("CSV parse error on row ");
    let d = decimal_chars((index as u64) + 2);
    push_all(&mut v, &d);
    let sep = chars_of(": ");
    push_all(&mut v, &sep);
    let ec = chars_of(e.as_str());
    push_all(&mut v, &ec);
    string_of(&v)
}

/// The records' fields, or the first record error's message.
fn records_or_error(records: Vec<Result<Vec<String>, String>>) -> (r: Result<Vec<Vec<String>>, String>)
    requires
        records@.len() + 2 <= u64::MAX,
    ensures
        match first_error(records_view(records@)) {
            Some((i, e)) => r is Err && r->Err_0@ == row_error_message(i, e),
            None => r is Ok && r->Ok_0@.len() == records@.len() && forall|k: int|
                0 <= k < records@.len() ==> records_view(records@)[k] == Ok::<Seq<Seq<char>>, Seq<char>>(
                    text_views(#[trigger] r->Ok_0@[k]@),
                ),
        },
{
    let ghost rv = records_view(records@);
    let mut out: Vec<Vec<String>> = Vec::new();
    let mut recs = records;
    let ghost r0 = recs@;
    let n = recs.len();
    let mut i: usize = 0;
    assert(rv.take(0) =~= Seq::<Result<Seq<Seq<char>>, Seq<char>>>::empty());
    assert(r0.skip(0) =~= r0);
    while recs.len() > 0
        invariant
            i + recs@.len() == n,
            n == r0.len(),
            n + 2 <= u64::MAX,
            rv == records_view(r0),
            r0 == records@,
            recs@ == r0.skip(i as int),
            first_error(rv.take(i as int)) is None,
            out@.len() == i,
            forall|k: int| 0 <= k < i ==> rv[k] == Ok::<Seq<Seq<char>>, Seq<char>>(
                text_views(#[trigger] out@[k]@),
            ),
        decreases recs@.len(),
    {
        let r = recs.remove(0);
        proof {
            assert(r == r0[i as int]);
            assert(recs@ =~= r0.skip(i + 1));
            assert(rv.take(i + 1).drop_last() =~= rv.take(i as int));
            assert(rv.take(i + 1).last() == rv[i as int]);
        }
        proof {
            assert(rv[i as int] == record_view(r0[i as int]));
        }
        match r {
            Ok(fields) => {
                let ghost ob = out@;
                out.push(fields);
                proof {
                    assert(out@[i as int] == fields);
                    assert(forall|k: int| 0 <= k < i ==> out@[k] == ob[k]);
                    assert(first_error(rv.take(i + 1)) is None);
                }
            },
            Err(e) => {
                proof {
                    assert(rv[i as int] == Err::<Seq<Seq<char>>, Seq<char>>(e@));
                    assert(first_error(rv.take(i + 1)) == Some((i as int, e@)));
                    lemma_first_error_extend(rv, i as int + 1);
                }
                return Err(row_error(i, &e));
            },
        }
        i = i + 1;
    }
    assert(rv.take(n as int) =~= rv);
    Ok(out)
}

proof fn lemma_first_error_extend(rv: Seq<Result<Seq<Seq<char>>, Seq<char>>>, k: int)
    requires
        0 <= k <= rv.len(),
        first_error(rv.take(k)) is Some,
    ensures
        first_error(rv) == first_error(rv.take(k)),
    decreases rv.len() - k,
{
    if k < rv.len() {
        assert(rv.take(k + 1).drop_last() =~= rv.take(k));
        lemma_first_error_extend(rv, k + 1);
    } else {
        assert(rv.take(k) =~= rv);
    }
}


// ───────────────────────────── the aggregated layout ─────────────────────────────

/// Column positions of the aggregated layout.
pub struct AggregatedColumns {
    pub enemy: usize,
    pub kills: Option<usize>,
    pub item: Option<usize>,
    pub quantity: Option<usize>,
    pub drops: Option<usize>,
    pub zone: Option<usize>,
}

pub open spec fn enemy_aliases() -> Seq<Seq<char>> {
    seq!["enemy_name"@, "enemy"@, "monster"@, "monster_name"@]
}

pub open spec fn zone_aliases() -> Seq<Seq<char>> {
    seq!["zone"@, "area"@, "area_key"@, "zone_id"@, "zone_name"@, "zone_key"@]
}

pub open spec fn kill_aliases() -> Seq<Seq<char>> {
    seq!["total_kills"@, "kills"@]
}

pub open spec fn agg_item_aliases() -> Seq<Seq<char>> {
    seq!["item_name"@, "item"@]
}

pub open spec fn agg_quantity_aliases() -> Seq<Seq<char>> {
    seq!["total_quantity"@, "quantity"@, "qty"@]
}

pub open spec fn drop_aliases() -> Seq<Seq<char>> {
    seq!["times_dropped"@, "drops"@, "times"@]
}

/// Refusal of a file without a monster column.
pub const MISSING_ENEMY_COLUMN: &'static str = "CSV is missing an enemy column (expected a header like 'enemy_name').";

/// Refusal of a raw log without a per-corpse id column.
pub const MISSING_CORPSE_COLUMN: &'static str = "CSV is missing a per-corpse id column (expected 'enemy_id').";

/// Refusal of an aggregated file without a monster row.
pub const NO_DATA_ROWS: &'static str = "No data rows found in CSV.";

/// Refusal of a raw log without a loot row.
pub const NO_LOOT_ROWS: &'static str = "No loot rows found in CSV.";

fn opt_index(o: Option<usize>) -> (r: Option<usize>)
    ensures
        r == o,
{
    o
}

fn find_enemy(headers: &[String]) -> (r: Option<usize>)
    ensures
        opt_int(r) == header_index(text_views(headers@), enemy_aliases()),
{
    let aliases: [&str; 4] = ["enemy_name", "enemy", "monster", "monster_name"];
    let r = find_header(headers, &aliases);
    proof {
        assert(aliases@.map_values(|a: &str| a@) =~= enemy_aliases());
    }
    r
}

fn find_zone(headers: &[String]) -> (r: Option<usize>)
    ensures
        opt_int(r) == header_index(text_views(headers@), zone_aliases()),
{
    let aliases: [&str; 6] = ["zone", "area", "area_key", "zone_id", "zone_name", "zone_key"];
    let r = find_header(headers, &aliases);
    proof {
        assert(aliases@.map_values(|a: &str| a@) =~= zone_aliases());
    }
    r
}

pub open spec fn opt_int(o: Option<usize>) -> Option<int> {
    match o {
        Some(i) => Some(i as int),
        None => None,
    }
}

/// The aggregated layout's columns, or the refusal of a file without a
/// monster column.
pub fn aggregated_columns(headers: &[String]) -> (r: Result<AggregatedColumns, String>)
    ensures
        match header_index(text_views(headers@), enemy_aliases()) {
            None => r is Err && r->Err_0@ == MISSING_ENEMY_COLUMN@,
            Some(e) => r is Ok && r->Ok_0.enemy == e && opt_int(r->Ok_0.kills) == header_index(
                text_views(headers@),
                kill_aliases(),
            ) && opt_int(r->Ok_0.item) == header_index(text_views(headers@), agg_item_aliases())
                && opt_int(r->Ok_0.quantity) == header_index(
                text_views(headers@),
                agg_quantity_aliases(),
            ) && opt_int(r->Ok_0.drops) == header_index(text_views(headers@), drop_aliases())
                && opt_int(r->Ok_0.zone) == header_index(text_views(headers@), zone_aliases()),
        },
{
    let enemy = match find_enemy(headers) {
        Some(e) => e,
        None => return Err(MISSING_ENEMY_COLUMN.to_owned()),
    };
    let ka: [&str; 2] = ["total_kills", "kills"];
    let kills = find_header(headers, &ka);
    let ia: [&str; 2] = ["item_name", "item"];
    let item = find_header(headers, &ia);
    let qa: [&str; 3] = ["total_quantity", "quantity", "qty"];
    let quantity = find_header(headers, &qa);
    let da: [&str; 3] = ["times_dropped", "drops", "times"];
    let drops = find_header(headers, &da);
    let zone = find_zone(headers);
    proof {
        assert(ka@.map_values(|a: &str| a@) =~= kill_aliases());
        assert(ia@.map_values(|a: &str| a@) =~= agg_item_aliases());
        assert(qa@.map_values(|a: &str| a@) =~= agg_quantity_aliases());
        assert(da@.map_values(|a: &str| a@) =~= drop_aliases());
    }
    Ok(AggregatedColumns { enemy, kills, item, quantity, drops, zone })
}

/// A record of the aggregated layout as read: its (monster, zone), the kill
/// count it states, and the item with its quantity and drops; none for a
/// record without a monster.
pub type AggRow = Option<((Seq<char>, Option<Seq<char>>), Option<i64>, Option<(Seq<char>, int, int)>)>;

/// A count cell that exists in the record.
pub open spec fn present_count(rec: Seq<Seq<char>>, col: Option<usize>, float: Seq<Option<i64>>) -> Option<i64> {
    match col {
        Some(c) => if (c as int) < rec.len() {
            count_value(rec[c as int], if (c as int) < float.len() { float[c as int] } else { None })
        } else {
            None
        },
        None => None,
    }
}

pub open spec fn agg_row(cols: AggregatedColumns, rec: Seq<Seq<char>>, float: Seq<Option<i64>>) -> AggRow {
    let enemy = trim(cell(rec, cols.enemy as int));
    if enemy.len() == 0 {
        None
    } else {
        let item = match cols.item {
            Some(ix) => {
                let it = trim(cell(rec, ix as int));
                if it.len() > 0 {
                    Some(
                        (
                            it,
                            match present_count(rec, cols.quantity, float) {
                                Some(q) => q as int,
                                None => 0,
                            },
                            match present_count(rec, cols.drops, float) {
                                Some(d) => d as int,
                                None => 0,
                            },
                        ),
                    )
                } else {
                    None
                }
            },
            None => None,
        };
        Some(((enemy, zone_cell(rec, cols.zone)), present_count(rec, cols.kills, float), item))
    }
}

/// The item of a read record.
pub open spec fn item_of(r: ((Seq<char>, Option<Seq<char>>), Option<i64>, Option<(Seq<char>, int, int)>)) -> Seq<char> {
    let it = r.2->0;
    it.0
}

/// The (monster, zone) of a read record.
pub open spec fn row_key(r: AggRow) -> (Seq<char>, Option<Seq<char>>) {
    let x = r->0;
    x.0
}

/// The item part of a read record.
pub open spec fn row_item(r: AggRow) -> Option<(Seq<char>, int, int)> {
    let x = r->0;
    x.2
}

/// The item name of a read record that has an item.
pub open spec fn row_item_name(r: AggRow) -> Seq<char> {
    let it = row_item(r)->0;
    it.0
}

/// The (monster, zone) of every read record, in order.
pub open spec fn agg_keys(rows: Seq<AggRow>) -> Seq<(Seq<char>, Option<Seq<char>>)>
    decreases rows.len(),
{
    if rows.len() == 0 {
        Seq::empty()
    } else {
        let p = agg_keys(rows.drop_last());
        match rows.last() {
            Some(r) => p.push(r.0),
            None => p,
        }
    }
}

/// The largest kill count stated for `key`, at least zero.
pub open spec fn max_kills(rows: Seq<AggRow>, key: (Seq<char>, Option<Seq<char>>)) -> int
    decreases rows.len(),
{
    if rows.len() == 0 {
        0
    } else {
        let m = max_kills(rows.drop_last(), key);
        match rows.last() {
            Some(r) => if r.0 == key && r.1 is Some && r.1->0 > m {
                r.1->0 as int
            } else {
                m
            },
            None => m,
        }
    }
}

/// The items listed for `key`, in order.
pub open spec fn agg_items(rows: Seq<AggRow>, key: (Seq<char>, Option<Seq<char>>)) -> Seq<Seq<char>>
    decreases rows.len(),
{
    if rows.len() == 0 {
        Seq::empty()
    } else {
        let p = agg_items(rows.drop_last(), key);
        match rows.last() {
            Some(r) => if r.0 == key && r.2 is Some {
                let it = r.2->0;
                p.push(it.0)
            } else {
                p
            },
            None => p,
        }
    }
}

/// Quantity and drops of `item` for `key`, summed over the rows.
pub open spec fn agg_sums(rows: Seq<AggRow>, key: (Seq<char>, Option<Seq<char>>), item: Seq<char>) -> (int, int)
    decreases rows.len(),
{
    if rows.len() == 0 {
        (0, 0)
    } else {
        let p = agg_sums(rows.drop_last(), key, item);
        match rows.last() {
            Some(r) => if r.0 == key && r.2 is Some && item_of(r) == item {
                let it = r.2->0;
                (p.0 + it.1, p.1 + it.2)
            } else {
                p
            },
            None => p,
        }
    }
}

/// Every sum kept while reading (each row's item totals so far) fits an
/// `i64`.
pub open spec fn agg_fits(rows: Seq<AggRow>) -> bool {
    forall|i: int|
        0 <= i < rows.len() && (#[trigger] rows[i]) is Some && row_item(rows[i]) is Some ==> {
            let s = agg_sums(rows.take(i + 1), row_key(rows[i]), row_item_name(rows[i]));
            &&& i64::MIN <= s.0 <= i64::MAX
            &&& i64::MIN <= s.1 <= i64::MAX
        }
}

/// (item, quantity, drops)
pub type LootView = (Seq<char>, int, int);

/// (monster, zone, kills, loot)
pub type EnemyDropView = (Seq<char>, Option<Seq<char>>, int, Seq<LootView>);

pub open spec fn loot_view(l: ExportedLoot) -> LootView {
    (l.item_name@, l.total_quantity as int, l.times_dropped as int)
}

pub open spec fn enemy_drop_view(e: ExportedEnemy) -> EnemyDropView {
    (e.enemy_name@, opt_text(e.zone), e.total_kills as int, e.loot@.map_values(|l: ExportedLoot| loot_view(l)))
}

pub open spec fn enemy_drop_views(v: Seq<ExportedEnemy>) -> Seq<EnemyDropView> {
    v.map_values(|e: ExportedEnemy| enemy_drop_view(e))
}

/// The loot of `key` in the aggregated layout: its items in order of first
/// appearance, with quantities and drops summed.
pub open spec fn agg_loot(rows: Seq<AggRow>, key: (Seq<char>, Option<Seq<char>>)) -> Seq<LootView> {
    dedup(agg_items(rows, key)).map_values(
        |it: Seq<char>| (it, agg_sums(rows, key, it).0, agg_sums(rows, key, it).1),
    )
}

/// The drop data of `key` in the aggregated layout.
pub open spec fn agg_enemy(rows: Seq<AggRow>, key: (Seq<char>, Option<Seq<char>>)) -> EnemyDropView {
    (key.0, key.1, max_kills(rows, key), agg_loot(rows, key))
}

/// The drop data of the aggregated layout: per (monster, zone) in order of
/// first appearance, the largest kill count stated (at least zero) and its
/// items in order of first appearance, with quantities and drops summed.
pub open spec fn aggregated_data(rows: Seq<AggRow>) -> Seq<EnemyDropView> {
    dedup(agg_keys(rows)).map_values(|k: (Seq<char>, Option<Seq<char>>)| agg_enemy(rows, k))
}

/// An entry of [`agg_loot`].
proof fn lemma_agg_loot_index(rows: Seq<AggRow>, key: (Seq<char>, Option<Seq<char>>), j: int)
    requires
        0 <= j < dedup(agg_items(rows, key)).len(),
    ensures
        agg_loot(rows, key)[j] == (
            dedup(agg_items(rows, key))[j],
            agg_sums(rows, key, dedup(agg_items(rows, key))[j]).0,
            agg_sums(rows, key, dedup(agg_items(rows, key))[j]).1,
        ),
{
}

/// An entry of [`aggregated_data`].
proof fn lemma_aggregated_index(rows: Seq<AggRow>, g: int)
    requires
        0 <= g < dedup(agg_keys(rows)).len(),
    ensures
        aggregated_data(rows)[g] == agg_enemy(rows, dedup(agg_keys(rows))[g]),
{
}

/// A record of the aggregated layout as read.
pub struct AggRecord {
    pub enemy: String,
    pub zone: Option<String>,
    pub kills: Option<i64>,
    pub item: Option<(String, i64, i64)>,
}

pub open spec fn agg_record_view(r: Option<AggRecord>) -> AggRow {
    match r {
        None => None,
        Some(a) => Some(
            (
                (a.enemy@, opt_text(a.zone)),
                a.kills,
                match a.item {
                    Some(it) => Some((it.0@, it.1 as int, it.2 as int)),
                    None => None,
                },
            ),
        ),
    }
}

pub open spec fn agg_record_views(v: Seq<Option<AggRecord>>) -> Seq<AggRow> {
    v.map_values(|r: Option<AggRecord>| agg_record_view(r))
}

/// The float readings of record `i` (none when the caller gave none).
pub open spec fn float_row(floats: Seq<Vec<Option<i64>>>, i: int) -> Seq<Option<i64>> {
    if 0 <= i < floats.len() {
        floats[i]@
    } else {
        Seq::empty()
    }
}

fn present_count_of(rec: &Vec<String>, col: Option<usize>, float: &[Option<i64>]) -> (r: Option<i64>)
    ensures
        r == present_count(text_views(rec@), col, float@),
{
    match col {
        Some(c) => {
            if c < rec.len() {
                let s = chars_of(rec[c].as_str());
                let f = if c < float.len() {
                    float[c]
                } else {
                    None
                };
                count_of(&s, f)
            } else {
                None
            }
        },
        None => None,
    }
}

fn agg_record_of(cols: &AggregatedColumns, rec: &Vec<String>, float: &[Option<i64>]) -> (r: Option<AggRecord>)
    ensures
        agg_record_view(r) == agg_row(*cols, text_views(rec@), float@),
{
    let ec = cell_of(rec, cols.enemy);
    let enemy = trimmed(&ec);
    if enemy.len() == 0 {
        return None;
    }
    let item = match cols.item {
        Some(ix) => {
            let ic = cell_of(rec, ix);
            let it = trimmed(&ic);
            if it.len() > 0 {
                let q = match present_count_of(rec, cols.quantity, float) {
                    Some(q) => q,
                    None => 0,
                };
                let d = match present_count_of(rec, cols.drops, float) {
                    Some(d) => d,
                    None => 0,
                };
                Some((string_of(&it), q, d))
            } else {
                None
            }
        },
        None => None,
    };
    let zone = zone_of(rec, cols.zone);
    let kills = present_count_of(rec, cols.kills, float);
    Some(AggRecord { enemy: string_of(&enemy), zone, kills, item })
}

/// The records of the aggregated layout as read.
pub open spec fn agg_rows(cols: AggregatedColumns, recs: Seq<Seq<Seq<char>>>, floats: Seq<Vec<Option<i64>>>) -> Seq<AggRow> {
    Seq::new(recs.len(), |i: int| agg_row(cols, recs[i], float_row(floats, i)))
}

/// The fields of each record.
pub open spec fn record_texts(recs: Seq<Vec<String>>) -> Seq<Seq<Seq<char>>> {
    recs.map_values(|v: Vec<String>| text_views(v@))
}

fn read_agg_rows(cols: &AggregatedColumns, recs: &[Vec<String>], floats: &[Vec<Option<i64>>]) -> (r: Vec<Option<AggRecord>>)
    ensures
        agg_record_views(r@) == agg_rows(*cols, record_texts(recs@), floats@),
{
    let mut out: Vec<Option<AggRecord>> = Vec::new();
    let mut i: usize = 0;
    let empty: Vec<Option<i64>> = Vec::new();
    while i < recs.len()
        invariant
            i <= recs@.len(),
            empty@.len() == 0,
            agg_record_views(out@) == agg_rows(*cols, record_texts(recs@), floats@).take(i as int),
        decreases recs@.len() - i,
    {
        let f: &Vec<Option<i64>> = if i < floats.len() {
            &floats[i]
        } else {
            &empty
        };
        proof {
            assert(f@ == float_row(floats@, i as int));
        }
        let r = agg_record_of(cols, &recs[i], f.as_slice());
        let ghost ob = out@;
        out.push(r);
        proof {
            assert(agg_record_views(out@) =~= agg_record_views(ob).push(agg_record_view(r)));
            assert(agg_rows(*cols, record_texts(recs@), floats@).take(i + 1) =~= agg_rows(*cols, record_texts(recs@), floats@).take(
                i as int,
            ).push(agg_row(*cols, record_texts(recs@)[i as int], float_row(floats@, i as int))));
        }
        i = i + 1;
    }
    assert(agg_rows(*cols, record_texts(recs@), floats@).take(recs@.len() as int) =~= agg_rows(*cols, record_texts(recs@), floats@));
    out
}


fn row_matches(r: &AggRecord, name: &String, zone: &Option<String>) -> (b: bool)
    ensures
        b == ((r.enemy@, opt_text(r.zone)) == (name@, opt_text(*zone))),
{
    r.enemy == *name && same_zone(&r.zone, zone)
}

fn kills_max(rows: &[Option<AggRecord>], name: &String, zone: &Option<String>) -> (m: i64)
    ensures
        m == max_kills(agg_record_views(rows@), (name@, opt_text(*zone))),
{
    let ghost rv = agg_record_views(rows@);
    let ghost key = (name@, opt_text(*zone));
    let mut m: i64 = 0;
    let mut i: usize = 0;
    assert(rv.take(0) =~= Seq::<AggRow>::empty());
    while i < rows.len()
        invariant
            i <= rows@.len(),
            rv == agg_record_views(rows@),
            key == (name@, opt_text(*zone)),
            m == max_kills(rv.take(i as int), key),
        decreases rows@.len() - i,
    {
        proof {
            assert(rv.take(i + 1).drop_last() =~= rv.take(i as int));
            assert(rv.take(i + 1).last() == rv[i as int]);
        }
        match &rows[i] {
            Some(r) => {
                if row_matches(r, name, zone) {
                    match r.kills {
                        Some(k) => {
                            if k > m {
                                m = k;
                            }
                        },
                        None => {},
                    }
                }
            },
            None => {},
        }
        i = i + 1;
    }
    assert(rv.take(rows@.len() as int) =~= rv);
    m
}

fn items_listed(rows: &[Option<AggRecord>], name: &String, zone: &Option<String>) -> (v: Vec<String>)
    ensures
        text_views(v@) == dedup(agg_items(agg_record_views(rows@), (name@, opt_text(*zone)))),
{
    let ghost rv = agg_record_views(rows@);
    let ghost key = (name@, opt_text(*zone));
    let mut seen: Vec<String> = Vec::new();
    let mut i: usize = 0;
    assert(rv.take(0) =~= Seq::<AggRow>::empty());
    while i < rows.len()
        invariant
            i <= rows@.len(),
            rv == agg_record_views(rows@),
            key == (name@, opt_text(*zone)),
            text_views(seen@) == dedup(agg_items(rv.take(i as int), key)),
        decreases rows@.len() - i,
    {
        let ghost pre = rv.take(i as int);
        proof {
            assert(rv.take(i + 1).drop_last() =~= pre);
            assert(rv.take(i + 1).last() == rv[i as int]);
        }
        match &rows[i] {
            Some(r) => {
                if row_matches(r, name, zone) {
                    match &r.item {
                        Some(it) => {
                            add_text(&mut seen, &it.0);
                            proof {
                                let q = agg_items(pre, key);
                                assert(q.push(it.0@).drop_last() =~= q);
                                assert(q.push(it.0@).last() == it.0@);
                            }
                        },
                        None => {},
                    }
                }
            },
            None => {},
        }
        i = i + 1;
    }
    assert(rv.take(rows@.len() as int) =~= rv);
    seen
}

fn item_sums(rows: &[Option<AggRecord>], name: &String, zone: &Option<String>, item: &String) -> (s: Option<(i64, i64)>)
    ensures
        match s {
            Some(p) => (p.0 as int, p.1 as int) == agg_sums(agg_record_views(rows@), (name@, opt_text(*zone)), item@),
            None => !agg_fits(agg_record_views(rows@)),
        },
{
    let ghost rv = agg_record_views(rows@);
    let ghost key = (name@, opt_text(*zone));
    let mut q: i64 = 0;
    let mut d: i64 = 0;
    let mut i: usize = 0;
    assert(rv.take(0) =~= Seq::<AggRow>::empty());
    while i < rows.len()
        invariant
            i <= rows@.len(),
            rv == agg_record_views(rows@),
            key == (name@, opt_text(*zone)),
            (q as int, d as int) == agg_sums(rv.take(i as int), key, item@),
        decreases rows@.len() - i,
    {
        proof {
            assert(rv.take(i + 1).drop_last() =~= rv.take(i as int));
            assert(rv.take(i + 1).last() == rv[i as int]);
        }
        match &rows[i] {
            Some(r) => {
                if row_matches(r, name, zone) {
                    match &r.item {
                        Some(it) => {
                            if it.0 == *item {
                                proof {
                                    assert(rv[i as int] is Some);
                                    assert(row_item(rv[i as int]) is Some);
                                    assert(row_key(rv[i as int]) == key);
                                    assert(row_item_name(rv[i as int]) == item@);
                                }
                                let nq = q.checked_add(it.1);
                                let nd = d.checked_add(it.2);
                                match (nq, nd) {
                                    (Some(a), Some(b)) => {
                                        q = a;
                                        d = b;
                                    },
                                    _ => {
                                        proof {
                                            assert(!agg_fits(rv)) by {
                                                let ii = i as int;
                                                assert(rv[ii] is Some && row_item(rv[ii]) is Some);
                                            }
                                        }
                                        return None;
                                    },
                                }
                            }
                        },
                        None => {},
                    }
                }
            },
            None => {},
        }
        i = i + 1;
    }
    assert(rv.take(rows@.len() as int) =~= rv);
    Some((q, d))
}

/// See [`aggregated_data`]; none when a sum leaves the `i64` range.
fn aggregate_rows(rows: &[Option<AggRecord>]) -> (r: Option<Vec<ExportedEnemy>>)
    ensures
        match r {
            Some(v) => enemy_drop_views(v@) == aggregated_data(agg_record_views(rows@)),
            None => !agg_fits(agg_record_views(rows@)),
        },
{
    let ghost rv = agg_record_views(rows@);
    let mut keys: Vec<(String, Option<String>)> = Vec::new();
    let mut i: usize = 0;
    assert(rv.take(0) =~= Seq::<AggRow>::empty());
    while i < rows.len()
        invariant
            i <= rows@.len(),
            rv == agg_record_views(rows@),
            key_list_view(keys@) == dedup(agg_keys(rv.take(i as int))),
        decreases rows@.len() - i,
    {
        let ghost pre = rv.take(i as int);
        proof {
            assert(rv.take(i + 1).drop_last() =~= pre);
            assert(rv.take(i + 1).last() == rv[i as int]);
        }
        match &rows[i] {
            Some(r) => {
                add_key(&mut keys, &r.enemy, &r.zone);
                proof {
                    let q = agg_keys(pre);
                    let x = (r.enemy@, opt_text(r.zone));
                    assert(q.push(x).drop_last() =~= q);
                    assert(q.push(x).last() == x);
                }
            },
            None => {},
        }
        i = i + 1;
    }
    assert(rv.take(rows@.len() as int) =~= rv);
    let ghost groups = dedup(agg_keys(rv));
    let mut out: Vec<ExportedEnemy> = Vec::new();
    let mut g: usize = 0;
    while g < keys.len()
        invariant
            g <= keys@.len(),
            key_list_view(keys@) == groups,
            groups == dedup(agg_keys(rv)),
            rv == agg_record_views(rows@),
            enemy_drop_views(out@) == aggregated_data(rv).take(g as int),
            groups.len() == aggregated_data(rv).len(),
        decreases keys@.len() - g,
    {
        let name = &keys[g].0;
        let zone = &keys[g].1;
        let ghost key = (name@, opt_text(*zone));
        proof {
            assert(key == groups[g as int]);
        }
        let kills = kills_max(rows, name, zone);
        let items = items_listed(rows, name, zone);
        let mut loot: Vec<ExportedLoot> = Vec::new();
        let mut j: usize = 0;
        let ghost iv = dedup(agg_items(rv, key));
        while j < items.len()
            invariant
                j <= items@.len(),
                text_views(items@) == iv,
                iv == dedup(agg_items(rv, key)),
                rv == agg_record_views(rows@),
                key == (name@, opt_text(*zone)),
                iv.len() == agg_loot(rv, key).len(),
                loot@.map_values(|l: ExportedLoot| loot_view(l)) == agg_loot(rv, key).take(j as int),
            decreases items@.len() - j,
        {
            let (q, d) = match item_sums(rows, name, zone, &items[j]) {
                Some(p) => p,
                None => return None,
            };
            let l = ExportedLoot { item_name: items[j].clone(), total_quantity: q, times_dropped: d };
            let ghost lb = loot@;
            loot.push(l);
            proof {
                assert(text_views(items@)[j as int] == items@[j as int]@);
                assert(iv[j as int] == items@[j as int]@);
                lemma_agg_loot_index(rv, key, j as int);
                assert(loot_view(l) == agg_loot(rv, key)[j as int]);
                assert(loot@.map_values(|l: ExportedLoot| loot_view(l)) =~= lb.map_values(
                    |l: ExportedLoot| loot_view(l),
                ).push(loot_view(l)));
                assert(agg_loot(rv, key).take(j + 1) =~= agg_loot(rv, key).take(j as int).push(
                    agg_loot(rv, key)[j as int],
                ));
            }
            j = j + 1;
        }
        proof {
            assert(agg_loot(rv, key).take(iv.len() as int) =~= agg_loot(rv, key));
        }
        let z = match zone {
            Some(s) => Some(s.clone()),
            None => None,
        };
        let ghost lv = loot@.map_values(|l: ExportedLoot| loot_view(l));
        let e = ExportedEnemy { enemy_name: name.clone(), zone: z, total_kills: kills, loot };
        proof {
            assert(opt_text(e.zone) == opt_text(*zone));
            assert(lv == agg_loot(rv, key));
            assert(e.loot@.map_values(|l: ExportedLoot| loot_view(l)) == lv);
            assert(enemy_drop_view(e) == agg_enemy(rv, key));
            lemma_aggregated_index(rv, g as int);
            assert(enemy_drop_view(e) == aggregated_data(rv)[g as int]);
        }
        let ghost ob = out@;
        out.push(e);
        proof {
            assert(enemy_drop_views(out@) =~= enemy_drop_views(ob).push(enemy_drop_view(e)));
            assert(aggregated_data(rv).take(g + 1) =~= aggregated_data(rv).take(g as int).push(
                aggregated_data(rv)[g as int],
            ));
        }
        g = g + 1;
    }
    assert(aggregated_data(rv).take(groups.len() as int) =~= aggregated_data(rv));
    Some(out)
}

/// The columns of the aggregated layout found in `headers`.
pub open spec fn agg_columns_of(headers: Seq<Seq<char>>, c: AggregatedColumns) -> bool {
    &&& header_index(headers, enemy_aliases()) == Some(c.enemy as int)
    &&& opt_int(c.kills) == header_index(headers, kill_aliases())
    &&& opt_int(c.item) == header_index(headers, agg_item_aliases())
    &&& opt_int(c.quantity) == header_index(headers, agg_quantity_aliases())
    &&& opt_int(c.drops) == header_index(headers, drop_aliases())
    &&& opt_int(c.zone) == header_index(headers, zone_aliases())
}

/// The drop data of a file in the aggregated layout, from its headers, its
/// records and the float readings of its cells (`floats[i][j]` is what
/// reading the `j`-th cell of record `i`, trimmed and without thousands
/// separators, as a float and truncating gives; a cell without one counts
/// as unreadable). A file without a monster column, or without a monster
/// row, is refused. `None` when a quantity or drop total leaves the `i64`
/// range.
pub fn parse_aggregated(headers: &[String], records: &[Vec<String>], floats: &[Vec<Option<i64>>]) -> (r: Option<
    Result<Vec<ExportedEnemy>, String>,
>)
    ensures
        header_index(text_views(headers@), enemy_aliases()) is None ==> r is Some && r->0 is Err
            && r->0->Err_0@ == MISSING_ENEMY_COLUMN@,
        header_index(text_views(headers@), enemy_aliases()) is Some ==> exists|c: AggregatedColumns|
            agg_columns_of(text_views(headers@), c) && {
                let rows = agg_rows(c, record_texts(records@), floats@);
                &&& agg_fits(rows) ==> r is Some
                &&& r is None ==> !agg_fits(rows)
                &&& r is Some ==> if aggregated_data(rows).len() == 0 {
                    r->0 is Err && r->0->Err_0@ == NO_DATA_ROWS@
                } else {
                    r->0 is Ok && enemy_drop_views(r->0->Ok_0@) == aggregated_data(rows)
                }
            },
{
    let cols = match aggregated_columns(headers) {
        Ok(c) => c,
        Err(e) => return Some(Err(e)),
    };
    proof {
        assert(agg_columns_of(text_views(headers@), cols));
    }
    let rows = read_agg_rows(&cols, records, floats);
    let r = match aggregate_rows(&rows) {
        None => None,
        Some(enemies) => {
            if enemies.len() == 0 {
                Some(Err(NO_DATA_ROWS.to_owned()))
            } else {
                Some(Ok(enemies))
            }
        },
    };
    proof {
        let rv = agg_rows(cols, record_texts(records@), floats@);
        assert(agg_columns_of(text_views(headers@), cols) && {
            &&& agg_fits(rv) ==> r is Some
            &&& r is None ==> !agg_fits(rv)
            &&& r is Some ==> if aggregated_data(rv).len() == 0 {
                r->0 is Err && r->0->Err_0@ == NO_DATA_ROWS@
            } else {
                r->0 is Ok && enemy_drop_views(r->0->Ok_0@) == aggregated_data(rv)
            }
        });
    }
    r
}

// ───────────────────────────── the raw loot-event layout ─────────────────────────────

/// Column positions of the raw loot-event layout.
pub struct RawColumns {
    pub enemy: usize,
    pub corpse: usize,
    pub item: Option<usize>,
    pub quantity: Option<usize>,
    pub event: Option<usize>,
    pub zone: Option<usize>,
}

pub open spec fn corpse_aliases() -> Seq<Seq<char>> {
    seq!["enemy_id"@, "enemy_entity_id"@, "corpse_id"@, "corpse_entity_id"@]
}

pub open spec fn raw_item_aliases() -> Seq<Seq<char>> {
    seq!["item_name"@, "item"@, "item_display_name"@]
}

pub open spec fn raw_quantity_aliases() -> Seq<Seq<char>> {
    seq!["item_amount"@, "amount"@, "total_quantity"@, "quantity"@, "qty"@]
}

pub open spec fn event_aliases() -> Seq<Seq<char>> {
    seq!["log_event_description"@, "event"@, "event_description"@, "event_type"@]
}

/// The raw layout's columns, or the refusal of a file without a monster or
/// a per-corpse id column.
pub fn raw_columns(headers: &[String]) -> (r: Result<RawColumns, String>)
    ensures
        match (
            header_index(text_views(headers@), enemy_aliases()),
            header_index(text_views(headers@), corpse_aliases()),
        ) {
            (None, _) => r is Err && r->Err_0@ == MISSING_ENEMY_COLUMN@,
            (Some(_), None) => r is Err && r->Err_0@ == MISSING_CORPSE_COLUMN@,
            (Some(e), Some(c)) => r is Ok && r->Ok_0.enemy == e && r->Ok_0.corpse == c && opt_int(
                r->Ok_0.item,
            ) == header_index(text_views(headers@), raw_item_aliases()) && opt_int(r->Ok_0.quantity)
                == header_index(text_views(headers@), raw_quantity_aliases()) && opt_int(
                r->Ok_0.event,
            ) == header_index(text_views(headers@), event_aliases()) && opt_int(r->Ok_0.zone)
                == header_index(text_views(headers@), zone_aliases()),
        },
{
    let enemy = match find_enemy(headers) {
        Some(e) => e,
        None => return Err(MISSING_ENEMY_COLUMN.to_owned()),
    };
    let ca: [&str; 4] = ["enemy_id", "enemy_entity_id", "corpse_id", "corpse_entity_id"];
    let corpse = match find_header(headers, &ca) {
        Some(c) => c,
        None => {
            proof {
                assert(ca@.map_values(|a: &str| a@) =~= corpse_aliases());
            }
            return Err(MISSING_CORPSE_COLUMN.to_owned());
        },
    };
    let ia: [&str; 3] = ["item_name", "item", "item_display_name"];
    let item = find_header(headers, &ia);
    let qa: [&str; 5] = ["item_amount", "amount", "total_quantity", "quantity", "qty"];
    let quantity = find_header(headers, &qa);
    let ea: [&str; 4] = ["log_event_description", "event", "event_description", "event_type"];
    let event = find_header(headers, &ea);
    let zone = find_zone(headers);
    proof {
        assert(ca@.map_values(|a: &str| a@) =~= corpse_aliases());
        assert(ia@.map_values(|a: &str| a@) =~= raw_item_aliases());
        assert(qa@.map_values(|a: &str| a@) =~= raw_quantity_aliases());
        assert(ea@.map_values(|a: &str| a@) =~= event_aliases());
    }
    Ok(RawColumns { enemy, corpse, item, quantity, event, zone })
}

/// A loot event as read: its (monster, zone), its corpse id, and its item
/// with the amount; none for a row that is no loot event or lacks a monster
/// or corpse.
pub type RawRow = Option<((Seq<char>, Option<Seq<char>>), Seq<char>, Option<(Seq<char>, int)>)>;

pub open spec fn raw_row(cols: RawColumns, rec: Seq<Seq<char>>, float: Seq<Option<i64>>) -> RawRow {
    let is_loot = match cols.event {
        Some(ei) => contains(unicode_lowercase(cell(rec, ei as int)), "loot"@),
        None => true,
    };
    let enemy = trim(cell(rec, cols.enemy as int));
    let corpse = trim(cell(rec, cols.corpse as int));
    if !is_loot || enemy.len() == 0 || corpse.len() == 0 {
        None
    } else {
        let item = match cols.item {
            Some(ix) => {
                let it = trim(cell(rec, ix as int));
                if it.len() > 0 {
                    Some(
                        (
                            it,
                            match cols.quantity {
                                Some(q) => amount_value(
                                    cell(rec, q as int),
                                    if (q as int) < float.len() {
                                        float[q as int]
                                    } else {
                                        None
                                    },
                                ) as int,
                                None => 1,
                            },
                        ),
                    )
                } else {
                    None
                }
            },
            None => None,
        };
        Some(((enemy, zone_cell(rec, cols.zone)), corpse, item))
    }
}

pub open spec fn raw_key(r: RawRow) -> (Seq<char>, Option<Seq<char>>) {
    let x = r->0;
    x.0
}

pub open spec fn raw_corpse(r: RawRow) -> Seq<char> {
    let x = r->0;
    x.1
}

pub open spec fn raw_item(r: RawRow) -> Option<(Seq<char>, int)> {
    let x = r->0;
    x.2
}

pub open spec fn raw_item_name(r: RawRow) -> Seq<char> {
    let it = raw_item(r)->0;
    it.0
}

pub open spec fn raw_amount(r: RawRow) -> int {
    let it = raw_item(r)->0;
    it.1
}

/// The (monster, zone) of every loot event, in order.
pub open spec fn raw_keys(rows: Seq<RawRow>) -> Seq<(Seq<char>, Option<Seq<char>>)>
    decreases rows.len(),
{
    if rows.len() == 0 {
        Seq::empty()
    } else {
        let p = raw_keys(rows.drop_last());
        if rows.last() is Some {
            p.push(raw_key(rows.last()))
        } else {
            p
        }
    }
}

/// The corpse ids of the loot events of `key` (of `item` only, when given).
pub open spec fn raw_corpses(
    rows: Seq<RawRow>,
    key: (Seq<char>, Option<Seq<char>>),
    item: Option<Seq<char>>,
) -> Seq<Seq<char>>
    decreases rows.len(),
{
    if rows.len() == 0 {
        Seq::empty()
    } else {
        let p = raw_corpses(rows.drop_last(), key, item);
        let r = rows.last();
        if r is Some && raw_key(r) == key && match item {
            Some(it) => raw_item(r) is Some && raw_item_name(r) == it,
            None => true,
        } {
            p.push(raw_corpse(r))
        } else {
            p
        }
    }
}

/// The items of the loot events of `key`, in order.
pub open spec fn raw_items(rows: Seq<RawRow>, key: (Seq<char>, Option<Seq<char>>)) -> Seq<Seq<char>>
    decreases rows.len(),
{
    if rows.len() == 0 {
        Seq::empty()
    } else {
        let p = raw_items(rows.drop_last(), key);
        let r = rows.last();
        if r is Some && raw_key(r) == key && raw_item(r) is Some {
            p.push(raw_item_name(r))
        } else {
            p
        }
    }
}

/// The amounts of `item` in the loot events of `key`, summed.
pub open spec fn raw_quantity(rows: Seq<RawRow>, key: (Seq<char>, Option<Seq<char>>), item: Seq<char>) -> int
    decreases rows.len(),
{
    if rows.len() == 0 {
        0
    } else {
        let p = raw_quantity(rows.drop_last(), key, item);
        let r = rows.last();
        if r is Some && raw_key(r) == key && raw_item(r) is Some && raw_item_name(r) == item {
            p + raw_amount(r)
        } else {
            p
        }
    }
}

/// Every amount total kept while reading fits an `i64`.
pub open spec fn raw_fits(rows: Seq<RawRow>) -> bool {
    forall|i: int|
        0 <= i < rows.len() && (#[trigger] rows[i]) is Some && raw_item(rows[i]) is Some ==> i64::MIN
            <= raw_quantity(rows.take(i + 1), raw_key(rows[i]), raw_item_name(rows[i])) <= i64::MAX
}

/// The loot of `key` in a raw log: its items in order of first appearance,
/// with the amounts summed and the number of distinct corpses that dropped
/// each.
pub open spec fn raw_loot(rows: Seq<RawRow>, key: (Seq<char>, Option<Seq<char>>)) -> Seq<LootView> {
    dedup(raw_items(rows, key)).map_values(
        |it: Seq<char>| (it, raw_quantity(rows, key, it), dedup(raw_corpses(rows, key, Some(it))).len() as int),
    )
}

/// The drop data of `key` in a raw log: distinct corpses are kills.
pub open spec fn raw_enemy(rows: Seq<RawRow>, key: (Seq<char>, Option<Seq<char>>)) -> EnemyDropView {
    (key.0, key.1, dedup(raw_corpses(rows, key, None)).len() as int, raw_loot(rows, key))
}

/// The drop data of a raw log, per (monster, zone) in order of first
/// appearance.
pub open spec fn raw_data(rows: Seq<RawRow>) -> Seq<EnemyDropView> {
    dedup(raw_keys(rows)).map_values(|k: (Seq<char>, Option<Seq<char>>)| raw_enemy(rows, k))
}

proof fn lemma_raw_loot_index(rows: Seq<RawRow>, key: (Seq<char>, Option<Seq<char>>), j: int)
    requires
        0 <= j < dedup(raw_items(rows, key)).len(),
    ensures
        raw_loot(rows, key)[j] == (
            dedup(raw_items(rows, key))[j],
            raw_quantity(rows, key, dedup(raw_items(rows, key))[j]),
            dedup(raw_corpses(rows, key, Some(dedup(raw_items(rows, key))[j]))).len() as int,
        ),
{
}

/// Dropping a row that is no loot event leaves every fold over the rows as
/// it was.
#[verifier::spinoff_prover]
proof fn lemma_raw_folds_skip(rows: Seq<RawRow>, i: int)
    requires
        0 <= i < rows.len(),
        rows[i] is None,
    ensures
        raw_keys(rows.remove(i)) == raw_keys(rows),
        forall|key: (Seq<char>, Option<Seq<char>>), item: Option<Seq<char>>|
            #[trigger] raw_corpses(rows.remove(i), key, item) == raw_corpses(rows, key, item),
        forall|key: (Seq<char>, Option<Seq<char>>)|
            #[trigger] raw_items(rows.remove(i), key) == raw_items(rows, key),
        forall|key: (Seq<char>, Option<Seq<char>>), item: Seq<char>|
            #[trigger] raw_quantity(rows.remove(i), key, item) == raw_quantity(rows, key, item),
    decreases rows.len(),
{
    let r2 = rows.remove(i);
    if i == rows.len() - 1 {
        assert(r2 =~= rows.drop_last());
        assert forall|key: (Seq<char>, Option<Seq<char>>), item: Option<Seq<char>>|
            #[trigger] raw_corpses(r2, key, item) == raw_corpses(rows, key, item) by {}
        assert forall|key: (Seq<char>, Option<Seq<char>>)|
            #[trigger] raw_items(r2, key) == raw_items(rows, key) by {}
        assert forall|key: (Seq<char>, Option<Seq<char>>), item: Seq<char>|
            #[trigger] raw_quantity(r2, key, item) == raw_quantity(rows, key, item) by {}
    } else {
        lemma_raw_folds_skip(rows.drop_last(), i);
        assert(r2.drop_last() =~= rows.drop_last().remove(i));
        assert(r2.last() == rows.last());
        assert forall|key: (Seq<char>, Option<Seq<char>>), item: Option<Seq<char>>|
            #[trigger] raw_corpses(r2, key, item) == raw_corpses(rows, key, item) by {
            assert(raw_corpses(r2.drop_last(), key, item) == raw_corpses(rows.drop_last(), key, item));
        }
        assert forall|key: (Seq<char>, Option<Seq<char>>)|
            #[trigger] raw_items(r2, key) == raw_items(rows, key) by {
            assert(raw_items(r2.drop_last(), key) == raw_items(rows.drop_last(), key));
        }
        assert forall|key: (Seq<char>, Option<Seq<char>>), item: Seq<char>|
            #[trigger] raw_quantity(r2, key, item) == raw_quantity(rows, key, item) by {
            assert(raw_quantity(r2.drop_last(), key, item) == raw_quantity(rows.drop_last(), key, item));
        }
    }
}

/// Dropping a row that is no loot event changes neither the drop data nor
/// whether every amount total fits.
proof fn lemma_raw_skip_rows(rows: Seq<RawRow>, i: int)
    requires
        0 <= i < rows.len(),
        rows[i] is None,
    ensures
        raw_data(rows.remove(i)) == raw_data(rows),
        raw_fits(rows.remove(i)) == raw_fits(rows),
{
    let r2 = rows.remove(i);
    lemma_raw_folds_skip(rows, i);
    assert(raw_data(r2) =~= raw_data(rows)) by {
        let ks = dedup(raw_keys(rows));
        assert forall|g: int| 0 <= g < ks.len() implies raw_enemy(r2, ks[g]) == raw_enemy(
            rows,
            ks[g],
        ) by {
            let key = ks[g];
            assert(raw_loot(r2, key) =~= raw_loot(rows, key));
        }
    }
    // Every loot row of `r2` is a loot row of `rows` with the same prefix
    // totals, and the other way round.
    assert forall|j: int|
        0 <= j < r2.len() && (#[trigger] r2[j]) is Some && raw_item(r2[j]) is Some implies raw_quantity(
        r2.take(j + 1),
        raw_key(r2[j]),
        raw_item_name(r2[j]),
    ) == raw_quantity(
        rows.take(if j < i { j + 1 } else { j + 2 }),
        raw_key(r2[j]),
        raw_item_name(r2[j]),
    ) by {
        if j < i {
            assert(r2.take(j + 1) =~= rows.take(j + 1));
        } else {
            assert(r2.take(j + 1) =~= rows.take(j + 2).remove(i));
            lemma_raw_folds_skip(rows.take(j + 2), i);
        }
    }
    if raw_fits(rows) {
        assert forall|j: int|
            0 <= j < r2.len() && (#[trigger] r2[j]) is Some && raw_item(r2[j]) is Some implies i64::MIN
            <= raw_quantity(r2.take(j + 1), raw_key(r2[j]), raw_item_name(r2[j])) <= i64::MAX by {
            if j < i {
                assert(r2[j] == rows[j]);
            } else {
                assert(r2[j] == rows[j + 1]);
            }
        }
    }
    if raw_fits(r2) {
        assert forall|j: int|
            0 <= j < rows.len() && (#[trigger] rows[j]) is Some && raw_item(rows[j]) is Some implies i64::MIN
            <= raw_quantity(rows.take(j + 1), raw_key(rows[j]), raw_item_name(rows[j])) <= i64::MAX by {
            if j < i {
                assert(r2[j] == rows[j]);
            } else {
                assert(j > i);
                assert(r2[j - 1] == rows[j]);
            }
        }
    }
}

proof fn lemma_dedup_nonempty<T>(s: Seq<T>)
    requires
        s.len() > 0,
    ensures
        dedup(s).len() > 0,
{
    lemma_dedup(s);
    assert(s.contains(s[0]));
    assert(dedup(s).contains(s[0]));
}

proof fn lemma_dedup_len_subset<T>(a: Seq<T>, b: Seq<T>)
    requires
        forall|x: T| a.contains(x) ==> #[trigger] b.contains(x),
    ensures
        dedup(a).len() <= dedup(b).len(),
{
    broadcast use vstd::seq_lib::seq_to_set_is_finite;
    lemma_dedup(a);
    lemma_dedup(b);
    let da = dedup(a);
    let db = dedup(b);
    assert(da.no_duplicates());
    assert(db.no_duplicates());
    da.unique_seq_to_set();
    db.unique_seq_to_set();
    assert(da.to_set().subset_of(db.to_set())) by {
        assert forall|x: T| da.to_set().contains(x) implies db.to_set().contains(x) by {
            assert(da.contains(x));
            assert(a.contains(x));
            assert(b.contains(x));
            assert(db.contains(x));
        }
    }
    vstd::set_lib::lemma_len_subset(da.to_set(), db.to_set());
}

/// A key among the loot events has a corpse.
proof fn lemma_raw_key_has_corpse(rows: Seq<RawRow>, key: (Seq<char>, Option<Seq<char>>))
    requires
        raw_keys(rows).contains(key),
    ensures
        raw_corpses(rows, key, None).len() > 0,
    decreases rows.len(),
{
    let p = rows.drop_last();
    if !(rows.last() is Some && raw_key(rows.last()) == key) {
        if rows.last() is Some {
            assert(raw_keys(rows) == raw_keys(p).push(raw_key(rows.last())));
            let k = choose|k: int| 0 <= k < raw_keys(rows).len() && raw_keys(rows)[k] == key;
            assert(k < raw_keys(p).len());
            assert(raw_keys(p)[k] == key);
        }
        lemma_raw_key_has_corpse(p, key);
    }
}

/// An item among the loot of a key was dropped by a corpse.
proof fn lemma_raw_item_has_corpse(rows: Seq<RawRow>, key: (Seq<char>, Option<Seq<char>>), it: Seq<char>)
    requires
        raw_items(rows, key).contains(it),
    ensures
        raw_corpses(rows, key, Some(it)).len() > 0,
    decreases rows.len(),
{
    let p = rows.drop_last();
    let r = rows.last();
    if !(r is Some && raw_key(r) == key && raw_item(r) is Some && raw_item_name(r) == it) {
        if r is Some && raw_key(r) == key && raw_item(r) is Some {
            let k = choose|k: int| 0 <= k < raw_items(rows, key).len() && raw_items(rows, key)[k] == it;
            assert(k < raw_items(p, key).len());
            assert(raw_items(p, key)[k] == it);
        }
        lemma_raw_item_has_corpse(p, key, it);
    }
}

/// The corpses that dropped an item are corpses of the key.
proof fn lemma_raw_item_corpses_within(
    rows: Seq<RawRow>,
    key: (Seq<char>, Option<Seq<char>>),
    it: Seq<char>,
    c: Seq<char>,
)
    requires
        raw_corpses(rows, key, Some(it)).contains(c),
    ensures
        raw_corpses(rows, key, None).contains(c),
    decreases rows.len(),
{
    let p = rows.drop_last();
    let r = rows.last();
    let withi = raw_corpses(rows, key, Some(it));
    let all = raw_corpses(rows, key, None);
    if r is Some && raw_key(r) == key && raw_item(r) is Some && raw_item_name(r) == it {
        let k = choose|k: int| 0 <= k < withi.len() && withi[k] == c;
        if k == withi.len() - 1 {
            assert(all[all.len() - 1] == c);
        } else {
            assert(raw_corpses(p, key, Some(it))[k] == c);
            lemma_raw_item_corpses_within(p, key, it, c);
            let q = choose|q: int| 0 <= q < raw_corpses(p, key, None).len() && raw_corpses(p, key, None)[q] == c;
            assert(all[q] == c);
        }
    } else {
        lemma_raw_item_corpses_within(p, key, it, c);
        if r is Some && raw_key(r) == key {
            let q = choose|q: int| 0 <= q < raw_corpses(p, key, None).len() && raw_corpses(p, key, None)[q] == c;
            assert(all[q] == c);
        }
    }
}

/// The shape of the drop data of a raw log: each (monster, zone) once, each
/// with at least one kill, and each item dropped by at least one and at
/// most all of the monster's corpses.
pub proof fn lemma_raw_data_shape(rows: Seq<RawRow>)
    ensures
        forall|g: int, h: int|
            0 <= g < h < raw_data(rows).len() ==> (#[trigger] raw_data(rows)[g].0, raw_data(rows)[g].1) != (
                #[trigger] raw_data(rows)[h].0,
                raw_data(rows)[h].1,
            ),
        forall|g: int| 0 <= g < raw_data(rows).len() ==> #[trigger] raw_data(rows)[g].2 >= 1,
        forall|g: int, j: int|
            0 <= g < raw_data(rows).len() && 0 <= j < raw_data(rows)[g].3.len() ==> 1 <= (
            #[trigger] raw_data(rows)[g].3[j]).2 <= raw_data(rows)[g].2,
{
    let ks = dedup(raw_keys(rows));
    lemma_dedup(raw_keys(rows));
    assert forall|g: int| 0 <= g < raw_data(rows).len() implies #[trigger] raw_data(rows)[g].2 >= 1 by {
        lemma_raw_data_index(rows, g);
        assert(ks.contains(ks[g]));
        lemma_raw_key_has_corpse(rows, ks[g]);
        lemma_dedup_nonempty(raw_corpses(rows, ks[g], None));
    }
    assert forall|g: int, h: int| 0 <= g < h < raw_data(rows).len() implies (
        #[trigger] raw_data(rows)[g].0,
        raw_data(rows)[g].1,
    ) != (#[trigger] raw_data(rows)[h].0, raw_data(rows)[h].1) by {
        lemma_raw_data_index(rows, g);
        lemma_raw_data_index(rows, h);
        assert(ks[g] != ks[h]);
    }
    assert forall|g: int, j: int|
        0 <= g < raw_data(rows).len() && 0 <= j < raw_data(rows)[g].3.len() implies 1 <= (
        #[trigger] raw_data(rows)[g].3[j]).2 <= raw_data(rows)[g].2 by {
        lemma_raw_data_index(rows, g);
        let key = ks[g];
        let its = dedup(raw_items(rows, key));
        lemma_raw_loot_index(rows, key, j);
        let it = its[j];
        lemma_dedup(raw_items(rows, key));
        assert(its.contains(it));
        lemma_raw_item_has_corpse(rows, key, it);
        lemma_dedup_nonempty(raw_corpses(rows, key, Some(it)));
        assert forall|c: Seq<char>| raw_corpses(rows, key, Some(it)).contains(c) implies #[trigger] raw_corpses(
            rows,
            key,
            None,
        ).contains(c) by {
            lemma_raw_item_corpses_within(rows, key, it, c);
        }
        lemma_dedup_len_subset(raw_corpses(rows, key, Some(it)), raw_corpses(rows, key, None));
    }
}

/// The float readings without those of record `i`.
pub open spec fn floats_without(floats: Seq<Vec<Option<i64>>>, i: int) -> Seq<Vec<Option<i64>>> {
    if 0 <= i < floats.len() {
        floats.remove(i)
    } else {
        floats
    }
}

/// Rows of a raw log that are skipped (an event that is no loot event, or a
/// blank monster or corpse id) play no part: the log without such a record
/// (and its float readings) gives the same drop data, and its amount totals
/// fit exactly when those of the whole log do.
pub proof fn lemma_skipped_raw_rows_ignored(
    c: RawColumns,
    recs: Seq<Seq<Seq<char>>>,
    floats: Seq<Vec<Option<i64>>>,
    i: int,
)
    requires
        0 <= i < recs.len(),
        raw_row(c, recs[i], float_row(floats, i)) is None,
    ensures
        raw_data(raw_rows(c, recs.remove(i), floats_without(floats, i))) == raw_data(
            raw_rows(c, recs, floats),
        ),
        raw_fits(raw_rows(c, recs.remove(i), floats_without(floats, i))) == raw_fits(
            raw_rows(c, recs, floats),
        ),
{
    let rows = raw_rows(c, recs, floats);
    let f2 = floats_without(floats, i);
    assert(raw_rows(c, recs.remove(i), f2) =~= rows.remove(i)) by {
        assert forall|j: int| 0 <= j < recs.len() - 1 implies float_row(f2, j) == float_row(
            floats,
            if j < i { j } else { j + 1 },
        ) by {}
    }
    lemma_raw_skip_rows(rows, i);
}

proof fn lemma_raw_data_index(rows: Seq<RawRow>, g: int)
    requires
        0 <= g < dedup(raw_keys(rows)).len(),
    ensures
        raw_data(rows)[g] == raw_enemy(rows, dedup(raw_keys(rows))[g]),
{
}

proof fn lemma_corpses_bound(rows: Seq<RawRow>, key: (Seq<char>, Option<Seq<char>>), item: Option<Seq<char>>)
    ensures
        raw_corpses(rows, key, item).len() <= rows.len(),
    decreases rows.len(),
{
    if rows.len() > 0 {
        lemma_corpses_bound(rows.drop_last(), key, item);
    }
}

/// A loot event as read.
pub struct RawRecord {
    pub enemy: String,
    pub zone: Option<String>,
    pub corpse: String,
    pub item: Option<(String, i64)>,
}

pub open spec fn raw_record_view(r: Option<RawRecord>) -> RawRow {
    match r {
        None => None,
        Some(a) => Some(
            (
                (a.enemy@, opt_text(a.zone)),
                a.corpse@,
                match a.item {
                    Some(it) => Some((it.0@, it.1 as int)),
                    None => None,
                },
            ),
        ),
    }
}

pub open spec fn raw_record_views(v: Seq<Option<RawRecord>>) -> Seq<RawRow> {
    v.map_values(|r: Option<RawRecord>| raw_record_view(r))
}

fn raw_record_of(cols: &RawColumns, rec: &Vec<String>, float: &[Option<i64>]) -> (r: Option<RawRecord>)
    ensures
        raw_record_view(r) == raw_row(*cols, text_views(rec@), float@),
{
    let is_loot = match cols.event {
        Some(ei) => {
            let c = cell_of(rec, ei);
            let cs = string_of(&c);
            let l = to_lowercase(cs.as_str());
            let lc = chars_of(l.as_str());
            let loot = chars_of("loot");
            has(&lc, &loot)
        },
        None => true,
    };
    let ec = cell_of(rec, cols.enemy);
    let enemy = trimmed(&ec);
    let cc = cell_of(rec, cols.corpse);
    let corpse = trimmed(&cc);
    if !is_loot || enemy.len() == 0 || corpse.len() == 0 {
        return None;
    }
    let item = match cols.item {
        Some(ix) => {
            let ic = cell_of(rec, ix);
            let it = trimmed(&ic);
            if it.len() > 0 {
                let q = match cols.quantity {
                    Some(qc) => {
                        let s = cell_of(rec, qc);
                        let f = if qc < float.len() {
                            float[qc]
                        } else {
                            None
                        };
                        amount_of(&s, f)
                    },
                    None => 1,
                };
                Some((string_of(&it), q))
            } else {
                None
            }
        },
        None => None,
    };
    let zone = zone_of(rec, cols.zone);
    Some(RawRecord { enemy: string_of(&enemy), zone, corpse: string_of(&corpse), item })
}

/// The rows of a raw log as read.
pub open spec fn raw_rows(cols: RawColumns, recs: Seq<Seq<Seq<char>>>, floats: Seq<Vec<Option<i64>>>) -> Seq<RawRow> {
    Seq::new(recs.len(), |i: int| raw_row(cols, recs[i], float_row(floats, i)))
}

fn read_raw_rows(cols: &RawColumns, recs: &[Vec<String>], floats: &[Vec<Option<i64>>]) -> (r: Vec<Option<RawRecord>>)
    ensures
        raw_record_views(r@) == raw_rows(*cols, record_texts(recs@), floats@),
{
    let mut out: Vec<Option<RawRecord>> = Vec::new();
    let mut i: usize = 0;
    let empty: Vec<Option<i64>> = Vec::new();
    while i < recs.len()
        invariant
            i <= recs@.len(),
            empty@.len() == 0,
            raw_record_views(out@) == raw_rows(*cols, record_texts(recs@), floats@).take(i as int),
        decreases recs@.len() - i,
    {
        let f: &Vec<Option<i64>> = if i < floats.len() {
            &floats[i]
        } else {
            &empty
        };
        proof {
            assert(f@ == float_row(floats@, i as int));
        }
        let r = raw_record_of(cols, &recs[i], f.as_slice());
        let ghost ob = out@;
        out.push(r);
        proof {
            assert(raw_record_views(out@) =~= raw_record_views(ob).push(raw_record_view(r)));
            assert(raw_rows(*cols, record_texts(recs@), floats@).take(i + 1) =~= raw_rows(*cols, record_texts(recs@), floats@).take(
                i as int,
            ).push(raw_row(*cols, record_texts(recs@)[i as int], float_row(floats@, i as int))));
        }
        i = i + 1;
    }
    assert(raw_rows(*cols, record_texts(recs@), floats@).take(recs@.len() as int) =~= raw_rows(*cols, record_texts(recs@), floats@));
    out
}

fn raw_matches(r: &RawRecord, name: &String, zone: &Option<String>) -> (b: bool)
    ensures
        b == ((r.enemy@, opt_text(r.zone)) == (name@, opt_text(*zone))),
{
    r.enemy == *name && same_zone(&r.zone, zone)
}

/// The distinct corpses of the loot events of `key` (of `item` only, when
/// given).
fn corpse_count(rows: &[Option<RawRecord>], name: &String, zone: &Option<String>, item: Option<&String>) -> (n: usize)
    ensures
        n == dedup(
            raw_corpses(
                raw_record_views(rows@),
                (name@, opt_text(*zone)),
                match item {
                    Some(it) => Some(it@),
                    None => None,
                },
            ),
        ).len(),
{
    let ghost rv = raw_record_views(rows@);
    let ghost key = (name@, opt_text(*zone));
    let ghost io = match item {
        Some(it) => Some(it@),
        None => None::<Seq<char>>,
    };
    let mut seen: Vec<String> = Vec::new();
    let mut i: usize = 0;
    assert(rv.take(0) =~= Seq::<RawRow>::empty());
    while i < rows.len()
        invariant
            i <= rows@.len(),
            rv == raw_record_views(rows@),
            key == (name@, opt_text(*zone)),
            io == match item {
                Some(it) => Some(it@),
                None => None::<Seq<char>>,
            },
            text_views(seen@) == dedup(raw_corpses(rv.take(i as int), key, io)),
        decreases rows@.len() - i,
    {
        let ghost pre = rv.take(i as int);
        proof {
            assert(rv.take(i + 1).drop_last() =~= pre);
            assert(rv.take(i + 1).last() == rv[i as int]);
        }
        match &rows[i] {
            Some(r) => {
                let item_ok = match item {
                    Some(it) => match &r.item {
                        Some(x) => x.0 == *it,
                        None => false,
                    },
                    None => true,
                };
                if raw_matches(r, name, zone) && item_ok {
                    add_text(&mut seen, &r.corpse);
                    proof {
                        let q = raw_corpses(pre, key, io);
                        assert(q.push(r.corpse@).drop_last() =~= q);
                        assert(q.push(r.corpse@).last() == r.corpse@);
                    }
                }
            },
            None => {},
        }
        i = i + 1;
    }
    assert(rv.take(rows@.len() as int) =~= rv);
    seen.len()
}

fn raw_items_listed(rows: &[Option<RawRecord>], name: &String, zone: &Option<String>) -> (v: Vec<String>)
    ensures
        text_views(v@) == dedup(raw_items(raw_record_views(rows@), (name@, opt_text(*zone)))),
{
    let ghost rv = raw_record_views(rows@);
    let ghost key = (name@, opt_text(*zone));
    let mut seen: Vec<String> = Vec::new();
    let mut i: usize = 0;
    assert(rv.take(0) =~= Seq::<RawRow>::empty());
    while i < rows.len()
        invariant
            i <= rows@.len(),
            rv == raw_record_views(rows@),
            key == (name@, opt_text(*zone)),
            text_views(seen@) == dedup(raw_items(rv.take(i as int), key)),
        decreases rows@.len() - i,
    {
        let ghost pre = rv.take(i as int);
        proof {
            assert(rv.take(i + 1).drop_last() =~= pre);
            assert(rv.take(i + 1).last() == rv[i as int]);
        }
        match &rows[i] {
            Some(r) => {
                if raw_matches(r, name, zone) {
                    match &r.item {
                        Some(it) => {
                            add_text(&mut seen, &it.0);
                            proof {
                                let q = raw_items(pre, key);
                                assert(q.push(it.0@).drop_last() =~= q);
                                assert(q.push(it.0@).last() == it.0@);
                            }
                        },
                        None => {},
                    }
                }
            },
            None => {},
        }
        i = i + 1;
    }
    assert(rv.take(rows@.len() as int) =~= rv);
    seen
}

fn raw_item_quantity(rows: &[Option<RawRecord>], name: &String, zone: &Option<String>, item: &String) -> (q: Option<i64>)
    ensures
        match q {
            Some(v) => v == raw_quantity(raw_record_views(rows@), (name@, opt_text(*zone)), item@),
            None => !raw_fits(raw_record_views(rows@)),
        },
{
    let ghost rv = raw_record_views(rows@);
    let ghost key = (name@, opt_text(*zone));
    let mut q: i64 = 0;
    let mut i: usize = 0;
    assert(rv.take(0) =~= Seq::<RawRow>::empty());
    while i < rows.len()
        invariant
            i <= rows@.len(),
            rv == raw_record_views(rows@),
            key == (name@, opt_text(*zone)),
            q == raw_quantity(rv.take(i as int), key, item@),
        decreases rows@.len() - i,
    {
        proof {
            assert(rv.take(i + 1).drop_last() =~= rv.take(i as int));
            assert(rv.take(i + 1).last() == rv[i as int]);
        }
        match &rows[i] {
            Some(r) => {
                if raw_matches(r, name, zone) {
                    match &r.item {
                        Some(it) => {
                            if it.0 == *item {
                                proof {
                                    assert(rv[i as int] is Some);
                                    assert(raw_item(rv[i as int]) is Some);
                                    assert(raw_key(rv[i as int]) == key);
                                    assert(raw_item_name(rv[i as int]) == item@);
                                }
                                match q.checked_add(it.1) {
                                    Some(a) => {
                                        q = a;
                                    },
                                    None => {
                                        proof {
                                            assert(!raw_fits(rv)) by {
                                                let ii = i as int;
                                                assert(rv[ii] is Some && raw_item(rv[ii]) is Some);
                                            }
                                        }
                                        return None;
                                    },
                                }
                            }
                        },
                        None => {},
                    }
                }
            },
            None => {},
        }
        i = i + 1;
    }
    assert(rv.take(rows@.len() as int) =~= rv);
    Some(q)
}

fn aggregate_raw_rows(rows: &[Option<RawRecord>]) -> (r: Option<Vec<ExportedEnemy>>)
    requires
        rows@.len() <= i64::MAX,
    ensures
        match r {
            Some(v) => enemy_drop_views(v@) == raw_data(raw_record_views(rows@)),
            None => !raw_fits(raw_record_views(rows@)),
        },
{
    let ghost rv = raw_record_views(rows@);
    let mut keys: Vec<(String, Option<String>)> = Vec::new();
    let mut i: usize = 0;
    assert(rv.take(0) =~= Seq::<RawRow>::empty());
    while i < rows.len()
        invariant
            i <= rows@.len(),
            rv == raw_record_views(rows@),
            key_list_view(keys@) == dedup(raw_keys(rv.take(i as int))),
        decreases rows@.len() - i,
    {
        let ghost pre = rv.take(i as int);
        proof {
            assert(rv.take(i + 1).drop_last() =~= pre);
            assert(rv.take(i + 1).last() == rv[i as int]);
        }
        match &rows[i] {
            Some(r) => {
                add_key(&mut keys, &r.enemy, &r.zone);
                proof {
                    let q = raw_keys(pre);
                    let x = (r.enemy@, opt_text(r.zone));
                    assert(q.push(x).drop_last() =~= q);
                    assert(q.push(x).last() == x);
                }
            },
            None => {},
        }
        i = i + 1;
    }
    assert(rv.take(rows@.len() as int) =~= rv);
    let ghost groups = dedup(raw_keys(rv));
    let mut out: Vec<ExportedEnemy> = Vec::new();
    let mut g: usize = 0;
    while g < keys.len()
        invariant
            g <= keys@.len(),
            key_list_view(keys@) == groups,
            groups == dedup(raw_keys(rv)),
            rv == raw_record_views(rows@),
            rows@.len() <= i64::MAX,
            enemy_drop_views(out@) == raw_data(rv).take(g as int),
            groups.len() == raw_data(rv).len(),
        decreases keys@.len() - g,
    {
        let name = &keys[g].0;
        let zone = &keys[g].1;
        let ghost key = (name@, opt_text(*zone));
        proof {
            assert(key == groups[g as int]);
        }
        let kills = corpse_count(rows, name, zone, None);
        proof {
            lemma_dedup(raw_corpses(rv, key, None));
            lemma_corpses_bound(rv, key, None);
        }
        let items = raw_items_listed(rows, name, zone);
        let mut loot: Vec<ExportedLoot> = Vec::new();
        let mut j: usize = 0;
        let ghost iv = dedup(raw_items(rv, key));
        while j < items.len()
            invariant
                j <= items@.len(),
                text_views(items@) == iv,
                iv == dedup(raw_items(rv, key)),
                rv == raw_record_views(rows@),
                rows@.len() <= i64::MAX,
                key == (name@, opt_text(*zone)),
                iv.len() == raw_loot(rv, key).len(),
                loot@.map_values(|l: ExportedLoot| loot_view(l)) == raw_loot(rv, key).take(j as int),
            decreases items@.len() - j,
        {
            let q = match raw_item_quantity(rows, name, zone, &items[j]) {
                Some(v) => v,
                None => return None,
            };
            let d = corpse_count(rows, name, zone, Some(&items[j]));
            proof {
                lemma_dedup(raw_corpses(rv, key, Some(items@[j as int]@)));
                lemma_corpses_bound(rv, key, Some(items@[j as int]@));
            }
            let l = ExportedLoot { item_name: items[j].clone(), total_quantity: q, times_dropped: d as i64 };
            let ghost lb = loot@;
            loot.push(l);
            proof {
                assert(text_views(items@)[j as int] == items@[j as int]@);
                assert(iv[j as int] == items@[j as int]@);
                lemma_raw_loot_index(rv, key, j as int);
                assert(loot_view(l) == raw_loot(rv, key)[j as int]);
                assert(loot@.map_values(|l: ExportedLoot| loot_view(l)) =~= lb.map_values(
                    |l: ExportedLoot| loot_view(l),
                ).push(loot_view(l)));
                assert(raw_loot(rv, key).take(j + 1) =~= raw_loot(rv, key).take(j as int).push(
                    raw_loot(rv, key)[j as int],
                ));
            }
            j = j + 1;
        }
        proof {
            assert(raw_loot(rv, key).take(iv.len() as int) =~= raw_loot(rv, key));
        }
        let z = match zone {
            Some(s) => Some(s.clone()),
            None => None,
        };
        let ghost lv = loot@.map_values(|l: ExportedLoot| loot_view(l));
        let e = ExportedEnemy { enemy_name: name.clone(), zone: z, total_kills: kills as i64, loot };
        proof {
            assert(opt_text(e.zone) == opt_text(*zone));
            assert(lv == raw_loot(rv, key));
            assert(e.loot@.map_values(|l: ExportedLoot| loot_view(l)) == lv);
            assert(enemy_drop_view(e) == raw_enemy(rv, key));
            lemma_raw_data_index(rv, g as int);
        }
        let ghost ob = out@;
        out.push(e);
        proof {
            assert(enemy_drop_views(out@) =~= enemy_drop_views(ob).push(enemy_drop_view(e)));
            assert(raw_data(rv).take(g + 1) =~= raw_data(rv).take(g as int).push(raw_data(rv)[g as int]));
        }
        g = g + 1;
    }
    assert(raw_data(rv).take(groups.len() as int) =~= raw_data(rv));
    Some(out)
}

/// The columns of the raw layout found in `headers`.
pub open spec fn raw_columns_of(headers: Seq<Seq<char>>, c: RawColumns) -> bool {
    &&& header_index(headers, enemy_aliases()) == Some(c.enemy as int)
    &&& header_index(headers, corpse_aliases()) == Some(c.corpse as int)
    &&& opt_int(c.item) == header_index(headers, raw_item_aliases())
    &&& opt_int(c.quantity) == header_index(headers, raw_quantity_aliases())
    &&& opt_int(c.event) == header_index(headers, event_aliases())
    &&& opt_int(c.zone) == header_index(headers, zone_aliases())
}

/// The drop data of a raw loot-event log (see [`parse_aggregated`] for
/// `floats`): rows whose event column (if any) does not mention `loot`, or
/// that lack a monster or corpse, are skipped; per (monster, zone), the
/// distinct corpses are its kills, and per item the amounts (1 when blank,
/// unreadable or not positive) are summed and the distinct corpses that
/// dropped it counted. A file without a monster or per-corpse id column, or
/// without a loot row, is refused. `None` when an amount total leaves the
/// `i64` range.
pub fn parse_raw_events(headers: &[String], records: &[Vec<String>], floats: &[Vec<Option<i64>>]) -> (r: Option<
    Result<Vec<ExportedEnemy>, String>,
>)
    requires
        records@.len() <= i64::MAX,
    ensures
        header_index(text_views(headers@), enemy_aliases()) is None ==> r is Some && r->0 is Err
            && r->0->Err_0@ == MISSING_ENEMY_COLUMN@,
        header_index(text_views(headers@), enemy_aliases()) is Some && header_index(
            text_views(headers@),
            corpse_aliases(),
        ) is None ==> r is Some && r->0 is Err && r->0->Err_0@ == MISSING_CORPSE_COLUMN@,
        header_index(text_views(headers@), enemy_aliases()) is Some && header_index(
            text_views(headers@),
            corpse_aliases(),
        ) is Some ==> exists|c: RawColumns|
            raw_columns_of(text_views(headers@), c) && {
                let rows = raw_rows(c, record_texts(records@), floats@);
                &&& raw_fits(rows) ==> r is Some
                &&& r is None ==> !raw_fits(rows)
                &&& r is Some ==> if raw_data(rows).len() == 0 {
                    r->0 is Err && r->0->Err_0@ == NO_LOOT_ROWS@
                } else {
                    r->0 is Ok && enemy_drop_views(r->0->Ok_0@) == raw_data(rows)
                }
            },
{
    let cols = match raw_columns(headers) {
        Ok(c) => c,
        Err(e) => return Some(Err(e)),
    };
    proof {
        assert(raw_columns_of(text_views(headers@), cols));
    }
    let rows = read_raw_rows(&cols, records, floats);
    proof {
        assert(rows@.len() == raw_record_views(rows@).len());
    }
    let r = match aggregate_raw_rows(&rows) {
        None => None,
        Some(enemies) => {
            if enemies.len() == 0 {
                Some(Err(NO_LOOT_ROWS.to_owned()))
            } else {
                Some(Ok(enemies))
            }
        },
    };
    proof {
        let rv = raw_rows(cols, record_texts(records@), floats@);
        assert(raw_columns_of(text_views(headers@), cols) && {
            &&& raw_fits(rv) ==> r is Some
            &&& r is None ==> !raw_fits(rv)
            &&& r is Some ==> if raw_data(rv).len() == 0 {
                r->0 is Err && r->0->Err_0@ == NO_LOOT_ROWS@
            } else {
                r->0 is Ok && enemy_drop_views(r->0->Ok_0@) == raw_data(rv)
            }
        });
    }
    r
}


// ───────────────────────────── files ─────────────────────────────

/// The Unicode byte order mark that spreadsheet programs put in front.
pub open spec fn strip_bom(s: Seq<char>) -> Seq<char> {
    if s.len() > 0 && s[0] == '\u{feff}' {
        s.drop_first()
    } else {
        s
    }
}

/// Legacy exports are a JSON object.
pub open spec fn is_legacy_json(s: Seq<char>) -> bool {
    trim_start(strip_bom(s)).len() > 0 && trim_start(strip_bom(s))[0] == '{'
}

/// The content without a leading byte order mark, and whether it is a
/// legacy JSON export (an object) rather than a CSV.
pub fn drop_file_format(content: &str) -> (r: (String, bool))
    ensures
        r.0@ == strip_bom(content@),
        r.1 == is_legacy_json(content@),
{
    let c = chars_of(content);
    let body = if c.len() > 0 && c[0] == '\u{feff}' {
        crate::text::slice(&c, 1, c.len())
    } else {
        crate::text::slice(&c, 0, c.len())
    };
    proof {
        assert(c@.subrange(1, c@.len() as int) =~= c@.drop_first());
        assert(c@.subrange(0, c@.len() as int) =~= c@);
    }
    let t = crate::text::trimmed(&body);
    let mut lo: usize = 0;
    let ghost bv = body@;
    assert(bv.subrange(0, bv.len() as int) =~= bv);
    while lo < body.len() && crate::text::white(body[lo])
        invariant
            lo <= body@.len(),
            bv == body@,
            trim_start(bv) == trim_start(bv.subrange(lo as int, bv.len() as int)),
        decreases body@.len() - lo,
    {
        proof {
            let s = bv.subrange(lo as int, bv.len() as int);
            assert(s.drop_first() =~= bv.subrange(lo + 1, bv.len() as int));
        }
        lo = lo + 1;
    }
    proof {
        let s = bv.subrange(lo as int, bv.len() as int);
        if lo < body.len() {
            assert(s[0] == bv[lo as int]);
        }
    }
    let json = lo < body.len() && body[lo] == '{';
    (string_of(&body), json)
}

pub open spec fn agg_header_aliases() -> Seq<Seq<char>> {
    seq![
        "total_kills"@,
        "kills"@,
        "total_quantity"@,
        "quantity"@,
        "qty"@,
        "times_dropped"@,
        "drops"@,
    ]
}

/// A file is read as a raw loot-event log when it has a per-corpse id column
/// and none of the aggregated count columns.
pub open spec fn is_raw_layout(headers: Seq<Seq<char>>) -> bool {
    header_index(headers, corpse_aliases()) is Some && header_index(headers, agg_header_aliases()) is None
}

fn raw_layout(headers: &[String]) -> (b: bool)
    ensures
        b == is_raw_layout(text_views(headers@)),
{
    let ca: [&str; 4] = ["enemy_id", "enemy_entity_id", "corpse_id", "corpse_entity_id"];
    let aa: [&str; 7] = ["total_kills", "kills", "total_quantity", "quantity", "qty", "times_dropped", "drops"];
    let corpse = find_header(headers, &ca);
    let agg = find_header(headers, &aa);
    proof {
        assert(ca@.map_values(|a: &str| a@) =~= corpse_aliases());
        assert(aa@.map_values(|a: &str| a@) =~= agg_header_aliases());
    }
    corpse.is_some() && agg.is_none()
}

/// The fields of each readable record.
pub open spec fn ok_fields(recs: Seq<Result<Seq<Seq<char>>, Seq<char>>>) -> Seq<Seq<Seq<char>>> {
    recs.map_values(
        |r: Result<Seq<Seq<char>>, Seq<char>>|
            match r {
                Ok(f) => f,
                Err(_) => Seq::empty(),
            },
    )
}

/// `r` is what reading `recs` as a raw loot-event log gives.
pub open spec fn raw_outcome(
    h: Seq<Seq<char>>,
    recs: Seq<Seq<Seq<char>>>,
    floats: Seq<Vec<Option<i64>>>,
    r: Option<Result<Vec<ExportedEnemy>, String>>,
) -> bool {
    exists|c: RawColumns|
        raw_columns_of(h, c) && {
            let rows = raw_rows(c, recs, floats);
            &&& raw_fits(rows) ==> r is Some
            &&& r is None ==> !raw_fits(rows)
            &&& r is Some ==> if raw_data(rows).len() == 0 {
                r->0 is Err && r->0->Err_0@ == NO_LOOT_ROWS@
            } else {
                r->0 is Ok && enemy_drop_views(r->0->Ok_0@) == raw_data(rows)
            }
        }
}

/// `r` is what reading `recs` in the aggregated layout gives.
pub open spec fn agg_outcome(
    h: Seq<Seq<char>>,
    recs: Seq<Seq<Seq<char>>>,
    floats: Seq<Vec<Option<i64>>>,
    r: Option<Result<Vec<ExportedEnemy>, String>>,
) -> bool {
    exists|c: AggregatedColumns|
        agg_columns_of(h, c) && {
            let rows = agg_rows(c, recs, floats);
            &&& agg_fits(rows) ==> r is Some
            &&& r is None ==> !agg_fits(rows)
            &&& r is Some ==> if aggregated_data(rows).len() == 0 {
                r->0 is Err && r->0->Err_0@ == NO_DATA_ROWS@
            } else {
                r->0 is Ok && enemy_drop_views(r->0->Ok_0@) == aggregated_data(rows)
            }
        }
}

/// The drop data of a CSV file (see [`parse_aggregated`] for `floats`): an
/// unreadable header is refused; a file without a monster column is
/// refused; then the first unreadable record is refused; then the records
/// are read as a raw loot-event log (see [`is_raw_layout`] and
/// [`parse_raw_events`]) or in the aggregated layout (see
/// [`parse_aggregated`]). `None` when a total leaves the `i64` range or the
/// file has more records than an `i64` counts.
pub fn parse_csv_drop_data(content: &str, floats: &[Vec<Option<i64>>]) -> (r: Option<Result<Vec<ExportedEnemy>, String>>)
    ensures
        match csv_fields(content@) {
            Err(e) => r is Some && r->0 is Err && r->0->Err_0@ == header_error_message(e),
            Ok((h, recs)) => if header_index(h, enemy_aliases()) is None {
                r is Some && r->0 is Err && r->0->Err_0@ == MISSING_ENEMY_COLUMN@
            } else if recs.len() > i64::MAX {
                r is None
            } else {
                match first_error(recs) {
                    Some((i, e)) => r is Some && r->0 is Err && r->0->Err_0@ == row_error_message(i, e),
                    None => if is_raw_layout(h) {
                        raw_outcome(h, ok_fields(recs), floats@, r)
                    } else {
                        agg_outcome(h, ok_fields(recs), floats@, r)
                    },
                }
            },
        },
{
    proof {
        assert(""@ =~= Seq::<char>::empty()) by {
            reveal_strlit("");
        }
    }
    let (headers, recs) = match read_csv(content) {
        Ok(p) => p,
        Err(e) => {
            let m = join3("Failed to read CSV header: ", e.as_str(), "");
            proof {
                assert(m@ =~= header_error_message(e@));
            }
            return Some(Err(m));
        },
    };
    let ghost h = text_views(headers@);
    let ghost rv = records_view(recs@);
    let raw = raw_layout(&headers);
    if raw {
        match raw_columns(&headers) {
            Ok(_) => {},
            Err(e) => return Some(Err(e)),
        }
    } else {
        match aggregated_columns(&headers) {
            Ok(_) => {},
            Err(e) => return Some(Err(e)),
        }
    }
    if (recs.len() as u64) > 0x7fff_ffff_ffff_ffff {
        return None;
    }
    let records = match records_or_error(recs) {
        Ok(v) => v,
        Err(e) => return Some(Err(e)),
    };
    proof {
        assert(record_texts(records@) =~= ok_fields(rv));
    }
    if raw {
        let r = parse_raw_events(&headers, &records, floats);
        proof {
            assert(raw_outcome(h, ok_fields(rv), floats@, r));
        }
        r
    } else {
        let r = parse_aggregated(&headers, &records, floats);
        proof {
            assert(agg_outcome(h, ok_fields(rv), floats@, r));
        }
        r
    }
}


// ───────────────────────────── export ─────────────────────────────

/// The header of a CSV export.
pub open spec fn export_header() -> Seq<Seq<char>> {
    seq![
        "enemy_name"@,
        "zone"@,
        "total_kills"@,
        "item_name"@,
        "total_quantity"@,
        "times_dropped"@,
        "drop_rate"@,
    ]
}

/// See [`export_header`].
pub fn export_header_fields() -> (r: Vec<String>)
    ensures
        crate::text::texts(r@) == export_header(),
{
    let mut r: Vec<String> = Vec::new();
    r.push("enemy_name".to_owned());
    r.push("zone".to_owned());
    r.push("total_kills".to_owned());
    r.push("item_name".to_owned());
    r.push("total_quantity".to_owned());
    r.push("times_dropped".to_owned());
    r.push("drop_rate".to_owned());
    assert(crate::text::texts(r@) =~= export_header());
    r
}

/// An export row: its first six cells, and the (times dropped, total kills)
/// its drop-rate cell is computed from; a row without loot has an empty
/// drop-rate cell.
pub type ExportRowView = (Seq<Seq<char>>, Option<(i64, i64)>);

/// The zone cell: the area key, empty for the unknown zone.
pub open spec fn export_zone(e: ExportedEnemy) -> Seq<char> {
    match e.zone {
        Some(z) => z@,
        None => Seq::empty(),
    }
}

/// The export rows of one monster in one zone: one per item it dropped, or
/// a single row with empty item cells when it dropped none, so that its
/// kill count is kept. The zone cell is empty for the unknown zone.
pub open spec fn enemy_export_rows(e: ExportedEnemy) -> Seq<ExportRowView> {
    let zone = export_zone(e);
    let kills = crate::text::signed_decimal(e.total_kills as int);
    if e.loot@.len() == 0 {
        seq![
            (
                seq![e.enemy_name@, zone, kills, Seq::empty(), Seq::empty(), Seq::empty()],
                None,
            ),
        ]
    } else {
        Seq::new(
            e.loot@.len(),
            |j: int|
                (
                    seq![
                        e.enemy_name@,
                        zone,
                        kills,
                        e.loot@[j].item_name@,
                        crate::text::signed_decimal(e.loot@[j].total_quantity as int),
                        crate::text::signed_decimal(e.loot@[j].times_dropped as int),
                    ],
                    Some((e.loot@[j].times_dropped, e.total_kills)),
                ),
        )
    }
}

/// The export rows of all monsters, in order.
pub open spec fn export_rows_of(es: Seq<ExportedEnemy>) -> Seq<ExportRowView>
    decreases es.len(),
{
    if es.len() == 0 {
        Seq::empty()
    } else {
        export_rows_of(es.drop_last()) + enemy_export_rows(es.last())
    }
}

pub open spec fn export_row_views(rows: Seq<(Vec<String>, Option<(i64, i64)>)>) -> Seq<ExportRowView> {
    rows.map_values(|r: (Vec<String>, Option<(i64, i64)>)| (crate::text::texts(r.0@), r.1))
}

fn decimal_string(n: i64) -> (s: String)
    ensures
        s@ == crate::text::signed_decimal(n as int),
{
    let d = crate::text::signed_decimal_chars(n);
    string_of(&d)
}

fn push_row(
    out: &mut Vec<(Vec<String>, Option<(i64, i64)>)>,
    cells: Vec<String>,
    rate: Option<(i64, i64)>,
)
    ensures
        export_row_views(final(out)@) == export_row_views(old(out)@).push(
            (crate::text::texts(cells@), rate),
        ),
{
    let ghost before = out@;
    out.push((cells, rate));
    assert(export_row_views(out@) =~= export_row_views(before).push(
        (crate::text::texts(cells@), rate),
    ));
}

/// The rows of a CSV export (see [`enemy_export_rows`]); the caller adds
/// each row's drop-rate cell, `times dropped / total kills` (zero without
/// kills) to four decimals.
pub fn csv_export_rows(enemies: &[ExportedEnemy]) -> (r: Vec<(Vec<String>, Option<(i64, i64)>)>)
    ensures
        export_row_views(r@) == export_rows_of(enemies@),
{
    let mut out: Vec<(Vec<String>, Option<(i64, i64)>)> = Vec::new();
    let mut i: usize = 0;
    assert(enemies@.take(0) =~= Seq::<ExportedEnemy>::empty());
    while i < enemies.len()
        invariant
            i <= enemies@.len(),
            export_row_views(out@) == export_rows_of(enemies@.take(i as int)),
        decreases enemies@.len() - i,
    {
        let e = &enemies[i];
        proof {
            assert(enemies@.take(i + 1).drop_last() =~= enemies@.take(i as int));
            assert(enemies@.take(i + 1).last() == enemies@[i as int]);
        }
        let ghost start = export_row_views(out@);
        let zone = match &e.zone {
            Some(z) => z.clone(),
            None => String::new(),
        };
        let ghost zv = export_zone(*e);
        assert(zone@ == zv);
        let kills = decimal_string(e.total_kills);
        let ghost rows = enemy_export_rows(*e);
        if e.loot.len() == 0 {
            let mut cells: Vec<String> = Vec::new();
            cells.push(e.enemy_name.clone());
            cells.push(zone);
            cells.push(kills);
            cells.push(String::new());
            cells.push(String::new());
            cells.push(String::new());
            proof {
                assert(crate::text::texts(cells@) =~= rows[0].0);
            }
            push_row(&mut out, cells, None);
            proof {
                assert(export_row_views(out@) =~= start + rows);
            }
        } else {
            let mut j: usize = 0;
            while j < e.loot.len()
                invariant
                    j <= e.loot@.len(),
                    e == enemies@[i as int],
                    rows == enemy_export_rows(*e),
                    zone@ == zv,
                    zv == export_zone(*e),
                    kills@ == crate::text::signed_decimal(e.total_kills as int),
                    e.loot@.len() > 0,
                    export_row_views(out@) == start + rows.take(j as int),
                decreases e.loot@.len() - j,
            {
                let l = &e.loot[j];
                let mut cells: Vec<String> = Vec::new();
                cells.push(e.enemy_name.clone());
                cells.push(zone.clone());
                cells.push(kills.clone());
                cells.push(l.item_name.clone());
                cells.push(decimal_string(l.total_quantity));
                cells.push(decimal_string(l.times_dropped));
                proof {
                    assert(crate::text::texts(cells@) =~= rows[j as int].0);
                    assert(rows.take(j + 1) =~= rows.take(j as int).push(rows[j as int]));
                }
                push_row(&mut out, cells, Some((l.times_dropped, e.total_kills)));
                j = j + 1;
            }
            proof {
                assert(rows.take(e.loot@.len() as int) =~= rows);
            }
        }
        i = i + 1;
    }
    assert(enemies@.take(enemies@.len() as int) =~= enemies@);
    out
}


// ───────────────────────────── SQLite exports ─────────────────────────────

/// The first sixteen bytes of every SQLite database file.
pub open spec fn sqlite_magic() -> Seq<u8> {
    seq![
        0x53u8, 0x51u8, 0x4cu8, 0x69u8, 0x74u8, 0x65u8, 0x20u8, 0x66u8, 0x6fu8, 0x72u8, 0x6du8,
        0x61u8, 0x74u8, 0x20u8, 0x33u8, 0x00u8,
    ]
}

/// A file is read as a SQLite export when its first sixteen bytes (all of
/// `head`, which holds at most that many) are the SQLite header.
pub fn has_sqlite_magic(head: &[u8]) -> (b: bool)
    ensures
        b == (head@ == sqlite_magic()),
{
    let magic: [u8; 16] = [
        0x53, 0x51, 0x4c, 0x69, 0x74, 0x65, 0x20, 0x66, 0x6f, 0x72, 0x6d, 0x61, 0x74, 0x20, 0x33,
        0x00,
    ];
    assert(magic@ =~= sqlite_magic());
    if head.len() != 16 {
        return false;
    }
    let mut i: usize = 0;
    while i < 16
        invariant
            i <= 16,
            head@.len() == 16,
            magic@ == sqlite_magic(),
            forall|j: int| 0 <= j < i ==> head@[j] == magic@[j],
        decreases 16 - i,
    {
        if head[i] != magic[i] {
            return false;
        }
        i = i + 1;
    }
    assert(head@ =~= sqlite_magic());
    true
}

/// A row of an export's `enemies` table: monster, zone, kills.
pub type EnemyTableRow = (String, Option<String>, i64);

/// A row of an export's `loot` table: monster, zone and the item's drops.
pub type LootTableRow = (String, Option<String>, ExportedLoot);

pub open spec fn enemy_row_key(r: EnemyTableRow) -> (Seq<char>, Option<Seq<char>>) {
    (r.0@, opt_text(r.1))
}

pub open spec fn loot_row_key(r: LootTableRow) -> (Seq<char>, Option<Seq<char>>) {
    (r.0@, opt_text(r.1))
}

/// The loot rows of a (monster, zone), in table order.
pub open spec fn table_loot(loot: Seq<LootTableRow>, key: (Seq<char>, Option<Seq<char>>)) -> Seq<
    LootView,
>
    decreases loot.len(),
{
    if loot.len() == 0 {
        Seq::empty()
    } else if loot_row_key(loot.last()) == key {
        table_loot(loot.drop_last(), key).push(loot_view(loot.last().2))
    } else {
        table_loot(loot.drop_last(), key)
    }
}

/// An earlier enemy row has the same (monster, zone).
pub open spec fn key_seen_before(enemies: Seq<EnemyTableRow>, i: int) -> bool {
    exists|j: int| 0 <= j < i && enemy_row_key(#[trigger] enemies[j]) == enemy_row_key(enemies[i])
}

/// The drop data of a SQLite export: one entry per enemy row, in order,
/// with the loot rows of its (monster, zone); a (monster, zone) listed
/// twice gets its loot at its first row only.
pub open spec fn table_drop_data(enemies: Seq<EnemyTableRow>, loot: Seq<LootTableRow>) -> Seq<
    EnemyDropView,
> {
    Seq::new(
        enemies.len(),
        |i: int|
            (
                enemies[i].0@,
                opt_text(enemies[i].1),
                enemies[i].2 as int,
                if key_seen_before(enemies, i) {
                    Seq::empty()
                } else {
                    table_loot(loot, enemy_row_key(enemies[i]))
                },
            ),
    )
}

fn loot_of_key(loot: &[LootTableRow], name: &String, zone: &Option<String>) -> (r: Vec<
    ExportedLoot,
>)
    ensures
        r@.map_values(|l: ExportedLoot| loot_view(l)) == table_loot(loot@, (name@, opt_text(*zone))),
{
    let ghost key = (name@, opt_text(*zone));
    let mut out: Vec<ExportedLoot> = Vec::new();
    let mut i: usize = 0;
    assert(loot@.take(0) =~= Seq::<LootTableRow>::empty());
    while i < loot.len()
        invariant
            i <= loot@.len(),
            key == (name@, opt_text(*zone)),
            out@.map_values(|l: ExportedLoot| loot_view(l)) == table_loot(loot@.take(i as int), key),
        decreases loot@.len() - i,
    {
        proof {
            assert(loot@.take(i + 1).drop_last() =~= loot@.take(i as int));
            assert(loot@.take(i + 1).last() == loot@[i as int]);
        }
        let r = &loot[i];
        if r.0 == *name && same_zone(&r.1, zone) {
            let l = ExportedLoot {
                item_name: r.2.item_name.clone(),
                total_quantity: r.2.total_quantity,
                times_dropped: r.2.times_dropped,
            };
            let ghost before = out@;
            out.push(l);
            proof {
                assert(out@.map_values(|l: ExportedLoot| loot_view(l)) =~= before.map_values(
                    |l: ExportedLoot| loot_view(l),
                ).push(loot_view(l)));
            }
        }
        i = i + 1;
    }
    assert(loot@.take(loot@.len() as int) =~= loot@);
    out
}

/// See [`table_drop_data`].
pub fn attach_table_loot(enemies: &[EnemyTableRow], loot: &[LootTableRow]) -> (r: Vec<ExportedEnemy>)
    ensures
        enemy_drop_views(r@) == table_drop_data(enemies@, loot@),
{
    let mut out: Vec<ExportedEnemy> = Vec::new();
    let mut i: usize = 0;
    while i < enemies.len()
        invariant
            i <= enemies@.len(),
            enemy_drop_views(out@) == table_drop_data(enemies@, loot@).take(i as int),
        decreases enemies@.len() - i,
    {
        let e = &enemies[i];
        let mut seen = false;
        let mut j: usize = 0;
        while j < i
            invariant
                j <= i < enemies@.len(),
                e == enemies@[i as int],
                seen == exists|q: int|
                    0 <= q < j && enemy_row_key(#[trigger] enemies@[q]) == enemy_row_key(enemies@[i as int]),
            decreases i - j,
        {
            if enemies[j].0 == e.0 && same_zone(&enemies[j].1, &e.1) {
                seen = true;
                proof {
                    assert(enemy_row_key(enemies@[j as int]) == enemy_row_key(enemies@[i as int]));
                }
            }
            j = j + 1;
        }
        let items = if seen {
            Vec::new()
        } else {
            loot_of_key(loot, &e.0, &e.1)
        };
        let z = match &e.1 {
            Some(s) => Some(s.clone()),
            None => None,
        };
        let ent = ExportedEnemy { enemy_name: e.0.clone(), zone: z, total_kills: e.2, loot: items };
        let ghost before = out@;
        out.push(ent);
        proof {
            assert(enemy_drop_view(ent) == table_drop_data(enemies@, loot@)[i as int]);
            assert(enemy_drop_views(out@) =~= enemy_drop_views(before).push(enemy_drop_view(ent)));
            assert(table_drop_data(enemies@, loot@).take(i + 1) =~= table_drop_data(enemies@, loot@).take(
                i as int,
            ).push(table_drop_data(enemies@, loot@)[i as int]));
        }
        i = i + 1;
    }
    assert(table_drop_data(enemies@, loot@).take(enemies@.len() as int) =~= table_drop_data(
        enemies@,
        loot@,
    ));
    out
}


// ───────────────────────────── writing CSV ─────────────────────────────

/// A `csv::Writer` with the default configuration over a byte buffer
/// (Verus cannot declare the writer's type itself: its parameter is bound
/// by `std::io::Write`).
#[verifier::external_body]
pub struct CsvSheet {
    writer: csv::Writer<Vec<u8>>,
}

/// The records a sheet has written.
pub uninterp spec fn csv_records_written(w: CsvSheet) -> Seq<Seq<Seq<char>>>;

/// The bytes the `csv` crate's default writer produces for `records`.
pub uninterp spec fn csv_bytes(records: Seq<Seq<Seq<char>>>) -> Seq<u8>;

/// `csv::Writer::from_writer(Vec::new())`: a writer with the default
/// configuration over an empty buffer, nothing written yet.
#[verifier::external_body]
fn new_csv_writer() -> (w: CsvSheet)
    ensures
        csv_records_written(w) == Seq::<Seq<Seq<char>>>::empty(),
{
    CsvSheet { writer: csv::Writer::from_writer(Vec::new()) }
}

/// `csv::Writer::write_record`, the error rendered as text. The default
/// writer is not flexible: it refuses a record whose number of fields
/// differs from that of the first record written, and over a byte buffer
/// it meets no other error. The sheet is handed back after a write and
/// dropped after a refusal.
#[verifier::external_body]
fn write_csv_record(w: CsvSheet, record: &Vec<String>) -> (r: Result<CsvSheet, String>)
    ensures
        r is Ok <==> (csv_records_written(w).len() == 0 || record@.len()
            == csv_records_written(w)[0].len()),
        r matches Ok(w2) ==> csv_records_written(w2) == csv_records_written(w).push(
            crate::text::texts(record@),
        ),
{
    let mut w = w;
    match w.writer.write_record(record) {
        Ok(()) => Ok(w),
        Err(e) => Err(format!("{e}")),
    }
}

/// `csv::Writer::into_inner`, the error rendered as text: the buffer holding
/// the bytes written for the records. Flushing into a byte buffer cannot
/// fail, so it always succeeds.
#[verifier::external_body]
fn finish_csv(w: CsvSheet) -> (r: Result<Vec<u8>, String>)
    ensures
        r is Ok,
        r matches Ok(b) ==> b@ == csv_bytes(csv_records_written(w)),
{
    w.writer.into_inner().map_err(|e| format!("{e}"))
}


/// The records of a CSV export: the header, then each row of
/// [`export_rows_of`] with its drop-rate cell `rates[i]`.
pub open spec fn export_records(enemies: Seq<ExportedEnemy>, rates: Seq<Seq<char>>) -> Seq<
    Seq<Seq<char>>,
> {
    seq![export_header()] + Seq::new(
        export_rows_of(enemies).len(),
        |i: int| export_rows_of(enemies)[i].0.push(rates[i]),
    )
}

/// Every export row has six cells before its drop-rate cell.
proof fn lemma_export_rows_have_six_cells(es: Seq<ExportedEnemy>)
    ensures
        forall|i: int|
            0 <= i < export_rows_of(es).len() ==> #[trigger] export_rows_of(es)[i].0.len() == 6,
    decreases es.len(),
{
    if es.len() > 0 {
        lemma_export_rows_have_six_cells(es.drop_last());
        let a = export_rows_of(es.drop_last());
        let b = enemy_export_rows(es.last());
        assert forall|i: int| 0 <= i < export_rows_of(es).len() implies #[trigger] export_rows_of(
            es,
        )[i].0.len() == 6 by {
            if i < a.len() {
                assert(export_rows_of(es)[i] == a[i]);
            } else {
                assert(export_rows_of(es)[i] == b[i - a.len()]);
            }
        }
    }
}

/// The CSV export of drop data, as bytes: the header, then one row per
/// monster, zone and item, a monster without loot on one row of its own
/// (see [`csv_export_rows`]). `rates[i]` is the drop-rate cell of the
/// `i`-th row, empty for a row without loot. Every record has the header's
/// seven fields, so writing never fails.
pub fn drop_data_csv(enemies: &[ExportedEnemy], rates: &[String]) -> (r: Result<Vec<u8>, String>)
    requires
        rates@.len() == export_rows_of(enemies@).len(),
    ensures
        r is Ok,
        r matches Ok(b) ==> b@ == csv_bytes(export_records(enemies@, crate::text::texts(rates@))),
{
    let ghost want = export_records(enemies@, crate::text::texts(rates@));
    proof {
        lemma_export_rows_have_six_cells(enemies@);
    }
    let rows = csv_export_rows(enemies);
    let ghost rv = export_row_views(rows@);
    let w0 = new_csv_writer();
    let header = export_header_fields();
    assert(header@.len() == crate::text::texts(header@).len());
    let mut w = match write_csv_record(w0, &header) {
        Ok(w1) => w1,
        Err(e) => {
            return Err(join3("Failed to write CSV header: ", e.as_str(), ""));
        },
    };
    assert(csv_records_written(w)[0] == export_header());
    let mut i: usize = 0;
    while i < rows.len()
        invariant
            i <= rows@.len(),
            rows@.len() == rates@.len(),
            rv == export_row_views(rows@),
            rv == export_rows_of(enemies@),
            forall|k: int|
                0 <= k < export_rows_of(enemies@).len() ==> #[trigger] export_rows_of(
                    enemies@,
                )[k].0.len() == 6,
            want == export_records(enemies@, crate::text::texts(rates@)),
            csv_records_written(w) == want.take(i + 1),
        decreases rows@.len() - i,
    {
        let mut record = rows[i].0.clone();
        record.push(rates[i].clone());
        proof {
            assert(crate::text::texts(record@) =~= want[i + 1]);
            assert(want.take(i + 2) =~= want.take(i + 1).push(want[i + 1]));
            assert(rv[i as int].0.len() == 6);
            assert(record@.len() == crate::text::texts(record@).len());
            assert(csv_records_written(w)[0] == want[0]);
        }
        w = match write_csv_record(w, &record) {
            Ok(w1) => w1,
            Err(e) => {
                return Err(join3("Failed to write CSV row: ", e.as_str(), ""));
            },
        };
        i = i + 1;
    }
    assert(want.take(rows@.len() as int + 1) =~= want);
    match finish_csv(w) {
        Ok(b) => Ok(b),
        Err(e) => Err(join3("Failed to finalize CSV: ", e.as_str(), "")),
    }
}

} // verus!
