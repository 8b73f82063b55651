//! Kill and loot drop-rate statistics: query filters, merging of the player's
//! own and imported loot rows, and the result records of the drop-rate
//! database.
//!
//! Three data scopes exist: "mine" (the player's own observed kills),
//! "imported" (aggregates imported from other players' exports) and
//! "combined" (both, summed).
use vstd::prelude::*;

use crate::text::{chars_of, eq_ignore_case, join3, same_ignoring_case, string_of, trim, trimmed};

verus! {

broadcast use vstd::string::group_string_axioms;

/// Which zone bucket a drop-rate query is scoped to. `All` ignores the zone,
/// `Unknown` matches rows whose zone is NULL (kills recorded before zones were
/// captured), `Zone(z)` matches one area key.
#[derive(Debug, Clone)]
pub enum ZoneFilter {
    All,
    Unknown,
    Zone(String),
}

/// Filter on the equipped combat-skill loadout recorded per kill. `Match`
/// keeps that loadout plus the unattributed (NULL) baseline.
#[derive(Debug, Clone)]
pub enum LoadoutFilter {
    All,
    Match(String),
}

/// The content of a [`ZoneFilter`]: `None` for all zones, `Some(None)` for the
/// unknown zone, `Some(Some(z))` for zone `z`.
pub open spec fn zone_view(z: ZoneFilter) -> Option<Option<Seq<char>>> {
    match z {
        ZoneFilter::All => None,
        ZoneFilter::Unknown => Some(None),
        ZoneFilter::Zone(s) => Some(Some(s@)),
    }
}

/// The content of a [`LoadoutFilter`]: the loadout matched, if any.
pub open spec fn loadout_view(l: LoadoutFilter) -> Option<Seq<char>> {
    match l {
        LoadoutFilter::All => None,
        LoadoutFilter::Match(s) => Some(s@),
    }
}

pub open spec fn opt_str(o: Option<&str>) -> Option<Seq<char>> {
    match o {
        Some(s) => Some(s@),
        None => None,
    }
}

pub open spec fn opt_string(o: Option<String>) -> Option<Seq<char>> {
    match o {
        Some(s) => Some(s@),
        None => None,
    }
}

/// A command's zone argument: absent = all zones, "" = the unknown zone,
/// otherwise that zone.
pub open spec fn zone_from_opt(zone: Option<Seq<char>>) -> Option<Option<Seq<char>>> {
    match zone {
        None => None,
        Some(z) => if z.len() == 0 {
            Some(None)
        } else {
            Some(Some(z))
        },
    }
}

/// The SQL clause a zone filter appends after a `WHERE` on the enemy name.
pub open spec fn zone_sql(z: Option<Option<Seq<char>>>, col: Seq<char>) -> Seq<char> {
    match z {
        None => Seq::empty(),
        Some(None) => " AND "@ + col + " IS NULL"@,
        Some(Some(_)) => " AND "@ + col + " IS ?"@,
    }
}

/// The loadout a command's argument selects: its trimmed text, unless blank.
pub open spec fn loadout_from_opt(l: Option<Seq<char>>) -> Option<Seq<char>> {
    match l {
        Some(s) => if trim(s).len() > 0 {
            Some(trim(s))
        } else {
            None
        },
        None => None,
    }
}

/// The SQL test a loadout filter adds (`lead` is " AND " or " WHERE ").
pub open spec fn loadout_sql(l: Option<Seq<char>>, lead: Seq<char>, col: Seq<char>) -> Seq<char> {
    match l {
        None => Seq::empty(),
        Some(_) => lead + "("@ + col + " = ? OR "@ + col + " IS NULL)"@,
    }
}

impl ZoneFilter {
    /// From a command's `zone` argument: absent = all, "" = unknown, otherwise
    /// that zone.
    pub fn from_opt(zone: Option<&str>) -> (r: Self)
        ensures
            zone_view(r) == zone_from_opt(opt_str(zone)),
    {
        match zone {
            None => ZoneFilter::All,
            Some(z) => {
                if z.is_empty() {
                    ZoneFilter::Unknown
                } else {
                    ZoneFilter::Zone(z.to_owned())
                }
            },
        }
    }

    /// From a stored zone value: NULL is the unknown bucket, a value that zone.
    pub fn from_stored(zone: Option<String>) -> (r: Self)
        ensures
            zone_view(r) == Some(opt_string(zone)),
    {
        match zone {
            None => ZoneFilter::Unknown,
            Some(z) => ZoneFilter::Zone(z),
        }
    }

    /// SQL appended after a `WHERE` that already constrains the enemy name;
    /// `col` is the qualified zone column. Uses an anonymous `?` placeholder.
    pub fn sql(&self, col: &str) -> (r: String)
        ensures
            r@ == zone_sql(zone_view(*self), col@),
    {
        match self {
            ZoneFilter::All => String::new(),
            ZoneFilter::Unknown => join3(" AND ", col, " IS NULL"),
            ZoneFilter::Zone(_) => join3(" AND ", col, " IS ?"),
        }
    }

    /// The value bound to the placeholder of the `Zone` case.
    pub fn bind(&self) -> (r: Option<String>)
        ensures
            opt_string(r) == match zone_view(*self) {
                Some(Some(z)) => Some(z),
                _ => None,
            },
    {
        match self {
            ZoneFilter::Zone(z) => Some(z.clone()),
            _ => None,
        }
    }
}

impl LoadoutFilter {
    /// From a command's `combat_skills` argument: absent or blank = all,
    /// otherwise the trimmed loadout.
    pub fn from_opt(loadout: Option<&str>) -> (r: Self)
        ensures
            loadout_view(r) == loadout_from_opt(opt_str(loadout)),
    {
        match loadout {
            Some(l) => {
                let c = chars_of(l);
                let t = trimmed(&c);
                if t.len() > 0 {
                    LoadoutFilter::Match(string_of(&t))
                } else {
                    LoadoutFilter::All
                }
            },
            None => LoadoutFilter::All,
        }
    }

    /// Clause appended after an existing `WHERE …`; `col` is the qualified column.
    pub fn sql(&self, col: &str) -> (r: String)
        ensures
            r@ == loadout_sql(loadout_view(*self), " AND "@, col@),
    {
        match self {
            LoadoutFilter::All => String::new(),
            LoadoutFilter::Match(_) => {
                let head = join3(" AND (", col, " = ? OR ");
                let tail = join3(head.as_str(), col, " IS NULL)");
                proof {
                    reveal_strlit(" AND (");
                    reveal_strlit(" AND ");
                    reveal_strlit("(");
                    assert(" AND ("@ =~= " AND "@ + "("@);
                }
                tail
            },
        }
    }

    /// Standalone `WHERE …` for queries that don't otherwise filter.
    pub fn where_clause(&self, col: &str) -> (r: String)
        ensures
            r@ == loadout_sql(loadout_view(*self), " WHERE "@, col@),
    {
        match self {
            LoadoutFilter::All => String::new(),
            LoadoutFilter::Match(_) => {
                let head = join3(" WHERE (", col, " = ? OR ");
                let tail = join3(head.as_str(), col, " IS NULL)");
                proof {
                    reveal_strlit(" WHERE (");
                    reveal_strlit(" WHERE ");
                    reveal_strlit("(");
                    assert(" WHERE ("@ =~= " WHERE "@ + "("@);
                }
                tail
            },
        }
    }

    /// The value bound to the placeholder of the `Match` case.
    pub fn bind(&self) -> (r: Option<String>)
        ensures
            opt_string(r) == loadout_view(*self),
    {
        match self {
            LoadoutFilter::Match(l) => Some(l.clone()),
            _ => None,
        }
    }
}

/// The values bound to a drop-rate query: the enemy name, then the zone (if
/// the filter has a placeholder), then the loadout (likewise).
pub open spec fn drop_binds_spec(
    enemy: Seq<char>,
    z: Option<Option<Seq<char>>>,
    l: Option<Seq<char>>,
) -> Seq<Seq<char>> {
    seq![enemy] + match z {
        Some(Some(zone)) => seq![zone],
        _ => Seq::empty(),
    } + match l {
        Some(lo) => seq![lo],
        None => Seq::empty(),
    }
}

/// The values bound to a drop-rate query, in placeholder order.
pub fn drop_binds(enemy_name: &str, zf: &ZoneFilter, lf: &LoadoutFilter) -> (r: Vec<String>)
    ensures
        r@.map_values(|s: String| s@) == drop_binds_spec(enemy_name@, zone_view(*zf), loadout_view(*lf)),
{
    let mut binds: Vec<String> = Vec::new();
    binds.push(enemy_name.to_owned());
    if let Some(b) = zf.bind() {
        binds.push(b);
    }
    if let Some(b) = lf.bind() {
        binds.push(b);
    }
    assert(binds@.map_values(|s: String| s@) =~= drop_binds_spec(
        enemy_name@,
        zone_view(*zf),
        loadout_view(*lf),
    ));
    binds
}

// ───────────────────────────── merging loot rows ─────────────────────────────

/// A loot row: (item name, total quantity, times dropped).
pub type LootRow = (String, i64, i64);

/// The content of loot rows.
pub open spec fn loot_view(rows: Seq<LootRow>) -> Seq<(Seq<char>, int, int)> {
    rows.map_values(|r: LootRow| (r.0@, r.1 as int, r.2 as int))
}

/// Sums of quantity and times dropped over the rows for `item`.
pub open spec fn sums_for(rows: Seq<(Seq<char>, int, int)>, item: Seq<char>) -> (int, int)
    decreases rows.len(),
{
    if rows.len() == 0 {
        (0, 0)
    } else {
        let rest = sums_for(rows.drop_last(), item);
        if rows.last().0 == item {
            (rest.0 + rows.last().1, rest.1 + rows.last().2)
        } else {
            rest
        }
    }
}

pub open spec fn fits_i64(x: int) -> bool {
    i64::MIN <= x <= i64::MAX
}

/// Summing the rows in order never leaves the `i64` range.
pub open spec fn sums_fit(rows: Seq<(Seq<char>, int, int)>) -> bool {
    forall|k: int, item: Seq<char>|
        0 <= k <= rows.len() ==> fits_i64(#[trigger] sums_for(rows.take(k), item).0) && fits_i64(
            sums_for(rows.take(k), item).1,
        )
}

/// `item` is named by some row.
pub open spec fn names_item(rows: Seq<(Seq<char>, int, int)>, item: Seq<char>) -> bool {
    exists|k: int| 0 <= k < rows.len() && #[trigger] rows[k].0 == item
}

/// `out` has one row per item named in `rows`, with that item's sums, and no
/// other rows.
pub open spec fn groups_rows(out: Seq<(Seq<char>, int, int)>, rows: Seq<(Seq<char>, int, int)>) -> bool {
    &&& forall|i: int, j: int| 0 <= i < j < out.len() ==> #[trigger] out[i].0 != #[trigger] out[j].0
    &&& forall|i: int|
        0 <= i < out.len() ==> names_item(rows, #[trigger] out[i].0) && (out[i].1, out[i].2)
            == sums_for(rows, out[i].0)
    &&& forall|item: Seq<char>| #[trigger] names_item(rows, item) ==> names_item(out, item)
}

proof fn lemma_sums_push(rows: Seq<(Seq<char>, int, int)>, i: int, item: Seq<char>)
    requires
        0 <= i < rows.len(),
    ensures
        sums_for(rows.take(i + 1), item) == if rows[i].0 == item {
            (sums_for(rows.take(i), item).0 + rows[i].1, sums_for(rows.take(i), item).1 + rows[i].2)
        } else {
            sums_for(rows.take(i), item)
        },
{
    assert(rows.take(i + 1).drop_last() =~= rows.take(i));
}

proof fn lemma_sums_absent(rows: Seq<(Seq<char>, int, int)>, item: Seq<char>)
    requires
        !names_item(rows, item),
    ensures
        sums_for(rows, item) == (0int, 0int),
    decreases rows.len(),
{
    if rows.len() > 0 {
        assert(rows.last() == rows[rows.len() - 1]);
        assert(!names_item(rows.drop_last(), item)) by {
            if names_item(rows.drop_last(), item) {
                let k = choose|k: int| 0 <= k < rows.drop_last().len() && #[trigger] rows.drop_last()[k].0 == item;
                assert(rows[k].0 == item);
            }
        }
        lemma_sums_absent(rows.drop_last(), item);
    }
}

/// Adding a row for an item already grouped adds to that item's sums.
proof fn lemma_group_add(
    out: Seq<(Seq<char>, int, int)>,
    prev: Seq<(Seq<char>, int, int)>,
    it: Seq<char>,
    qty: int,
    dropped: int,
    j: int,
)
    requires
        groups_rows(out, prev),
        0 <= j < out.len(),
        out[j].0 == it,
    ensures
        groups_rows(
            out.update(j, (it, out[j].1 + qty, out[j].2 + dropped)),
            prev.push((it, qty, dropped)),
        ),
{
    let no = out.update(j, (it, out[j].1 + qty, out[j].2 + dropped));
    let nr = prev.push((it, qty, dropped));
    assert(nr.drop_last() =~= prev);
    assert forall|q1: int, q2: int| 0 <= q1 < q2 < no.len() implies #[trigger] no[q1].0
        != #[trigger] no[q2].0 by {
        assert(out[q1].0 != out[q2].0);
    }
    assert forall|q: int| 0 <= q < no.len() implies names_item(nr, #[trigger] no[q].0) && (
    no[q].1, no[q].2) == sums_for(nr, no[q].0) by {
        assert(names_item(prev, out[q].0));
        let k = choose|k: int| 0 <= k < prev.len() && #[trigger] prev[k].0 == out[q].0;
        assert(nr[k].0 == out[q].0);
        if q != j {
            assert(out[q].0 != it) by {
                if q < j {
                    assert(out[q].0 != out[j].0);
                } else {
                    assert(out[j].0 != out[q].0);
                }
            }
        }
    }
    assert forall|item2: Seq<char>| #[trigger] names_item(nr, item2) implies names_item(
        no,
        item2,
    ) by {
        let k = choose|k: int| 0 <= k < nr.len() && #[trigger] nr[k].0 == item2;
        if item2 == it {
            assert(no[j].0 == item2);
        } else {
            assert(prev[k].0 == item2);
            assert(names_item(prev, item2));
            let q = choose|q: int| 0 <= q < out.len() && #[trigger] out[q].0 == item2;
            assert(no[q].0 == item2);
        }
    }
}

/// Adding a row for an item not grouped yet appends that item.
proof fn lemma_group_new(
    out: Seq<(Seq<char>, int, int)>,
    prev: Seq<(Seq<char>, int, int)>,
    it: Seq<char>,
    qty: int,
    dropped: int,
)
    requires
        groups_rows(out, prev),
        forall|k: int| 0 <= k < out.len() ==> out[k].0 != it,
    ensures
        groups_rows(out.push((it, qty, dropped)), prev.push((it, qty, dropped))),
{
    let no = out.push((it, qty, dropped));
    let nr = prev.push((it, qty, dropped));
    assert(nr.drop_last() =~= prev);
    assert(!names_item(prev, it)) by {
        if names_item(prev, it) {
            assert(names_item(out, it));
            let q = choose|q: int| 0 <= q < out.len() && #[trigger] out[q].0 == it;
            assert(out[q].0 != it);
        }
    }
    lemma_sums_absent(prev, it);
    assert forall|q1: int, q2: int| 0 <= q1 < q2 < no.len() implies #[trigger] no[q1].0
        != #[trigger] no[q2].0 by {
        if q2 < out.len() {
            assert(out[q1].0 != out[q2].0);
        } else {
            assert(out[q1].0 != it);
        }
    }
    assert forall|q: int| 0 <= q < no.len() implies names_item(nr, #[trigger] no[q].0) && (
    no[q].1, no[q].2) == sums_for(nr, no[q].0) by {
        if q < out.len() {
            assert(names_item(prev, out[q].0));
            let k = choose|k: int| 0 <= k < prev.len() && #[trigger] prev[k].0 == out[q].0;
            assert(nr[k].0 == out[q].0);
            assert(out[q].0 != it);
        } else {
            assert(nr[prev.len() as int].0 == it);
        }
    }
    assert forall|item2: Seq<char>| #[trigger] names_item(nr, item2) implies names_item(
        no,
        item2,
    ) by {
        let k = choose|k: int| 0 <= k < nr.len() && #[trigger] nr[k].0 == item2;
        if item2 == it {
            assert(no[out.len() as int].0 == item2);
        } else {
            assert(prev[k].0 == item2);
            assert(names_item(prev, item2));
            let q = choose|q: int| 0 <= q < out.len() && #[trigger] out[q].0 == item2;
            assert(no[q].0 == item2);
        }
    }
}

/// Index of the row for `item` in `out`, if any.
fn position_of(out: &Vec<LootRow>, item: &String) -> (r: Option<usize>)
    ensures
        match r {
            Some(j) => j < out@.len() && loot_view(out@)[j as int].0 == item@,
            None => forall|k: int| 0 <= k < out@.len() ==> loot_view(out@)[k].0 != item@,
        },
{
    let mut j: usize = 0;
    while j < out.len()
        invariant
            j <= out@.len(),
            forall|k: int| 0 <= k < j ==> loot_view(out@)[k].0 != item@,
        decreases out@.len() - j,
    {
        if out[j].0 == *item {
            return Some(j);
        }
        j = j + 1;
    }
    None
}

/// Sum two loot-row lists into one row per item ("combined" scope): each item
/// named in either list appears once, with its quantities and drop counts
/// summed over both lists. Rows come out in order of first appearance.
pub fn combine_loot_rows(mine: Vec<LootRow>, imported: Vec<LootRow>) -> (r: Vec<LootRow>)
    requires
        sums_fit(loot_view(mine@ + imported@)),
    ensures
        groups_rows(loot_view(r@), loot_view(mine@ + imported@)),
{
    let mut all = mine;
    let mut more = imported;
    let ghost m0 = all@;
    let ghost i0 = more@;
    all.append(&mut more);
    let ghost rows = loot_view(all@);
    assert(all@ =~= m0 + i0);
    let mut out: Vec<LootRow> = Vec::new();
    let mut i: usize = 0;
    while i < all.len()
        invariant
            i <= all@.len(),
            rows == loot_view(all@),
            sums_fit(rows),
            groups_rows(loot_view(out@), rows.take(i as int)),
        decreases all@.len() - i,
    {
        let item = all[i].0.clone();
        let qty = all[i].1;
        let dropped = all[i].2;
        let ghost prev = rows.take(i as int);
        let ghost nr = rows.take(i + 1);
        proof {
            assert(rows[i as int] == (item@, qty as int, dropped as int));
            assert(nr.take(i as int) =~= prev);
            assert(nr.take(i + 1) =~= nr);
            lemma_sums_push(rows, i as int, item@);
        }
        let ghost old_out = loot_view(out@);
        let pos = position_of(&out, &item);
        match pos {
            Some(j) => {
                proof {
                    assert(fits_i64(sums_for(nr, item@).0));
                    assert(fits_i64(sums_for(nr, item@).1));
                }
                let nq = out[j].1 + qty;
                let nd = out[j].2 + dropped;
                out.set(j, (item, nq, nd));
            },
            None => {
                proof {
                    if names_item(prev, item@) {
                        assert(names_item(old_out, item@));
                        let q = choose|q: int| 0 <= q < old_out.len() && #[trigger] old_out[q].0 == item@;
                        assert(false);
                    }
                    lemma_sums_absent(prev, item@);
                }
                out.push((item, qty, dropped));
            },
        }
        proof {
            let no = loot_view(out@);
            assert(nr =~= prev.push((item@, qty as int, dropped as int)));
            match pos {
                Some(j) => {
                    assert(no =~= old_out.update(
                        j as int,
                        (item@, old_out[j as int].1 + qty, old_out[j as int].2 + dropped),
                    ));
                    lemma_group_add(old_out, prev, item@, qty as int, dropped as int, j as int);
                },
                None => {
                    assert(no =~= old_out.push((item@, qty as int, dropped as int)));
                    lemma_group_new(old_out, prev, item@, qty as int, dropped as int);
                },
            }
        }
        i = i + 1;
    }
    assert(rows.take(all@.len() as int) =~= rows);
    out
}

// ───────────────────────────── file types ─────────────────────────────

/// What `std::path::Path::extension` of std gives for a path, as text.
pub uninterp spec fn path_extension(path: Seq<char>) -> Option<Seq<char>>;

/// `Path::new(path).extension()` of std, read as text. Its result is named
/// [`path_extension`]; how std splits paths into components is not stated.
#[verifier::external_body]
fn extension_of(path: &str) -> (r: Option<String>)
    ensures
        opt_string(r) == path_extension(path@),
{
    std::path::Path::new(path).extension().and_then(|e| e.to_str()).map(|e| e.to_owned())
}

/// Most dropped first, then largest quantity.
pub open spec fn loot_order_key(r: LootRow) -> Seq<i128> {
    seq![(-r.2) as i128, (-r.1) as i128]
}

pub open spec fn loot_order_keys(rows: Seq<LootRow>) -> Seq<Seq<i128>> {
    rows.map_values(|r: LootRow| loot_order_key(r))
}

/// Loot rows most dropped first, then largest quantity; rows that tie keep
/// their order.
pub fn order_loot_rows(rows: Vec<LootRow>) -> (r: Vec<LootRow>)
    ensures
        crate::sort::stably_sorted(r@, rows@, loot_order_keys(rows@)),
{
    let mut keys: Vec<Vec<i128>> = Vec::new();
    let mut i: usize = 0;
    while i < rows.len()
        invariant
            i <= rows@.len(),
            crate::sort::key_views(keys@) == loot_order_keys(rows@).take(i as int),
        decreases rows@.len() - i,
    {
        let mut k: Vec<i128> = Vec::new();
        k.push(-(rows[i].2 as i128));
        k.push(-(rows[i].1 as i128));
        let ghost before = keys@;
        keys.push(k);
        proof {
            assert(k@ =~= loot_order_key(rows@[i as int]));
            assert(keys@ =~= before.push(k));
            assert(crate::sort::key_views(keys@) =~= crate::sort::key_views(before).push(k@));
            assert(loot_order_keys(rows@).take(i + 1) =~= loot_order_keys(rows@).take(i as int).push(
                loot_order_key(rows@[i as int]),
            ));
        }
        i = i + 1;
    }
    proof {
        assert(crate::sort::key_views(keys@) =~= loot_order_keys(rows@));
    }
    crate::sort::sort_by_keys(rows, keys)
}

/// The path's extension names a SQLite database.
pub open spec fn is_sqlite_extension(ext: Option<Seq<char>>) -> bool {
    match ext {
        Some(e) => eq_ignore_case(e, "db"@) || eq_ignore_case(e, "sqlite"@) || eq_ignore_case(
            e,
            "sqlite3"@,
        ),
        None => false,
    }
}

/// True if `path` names a SQLite database by extension (.db / .sqlite /
/// .sqlite3, ASCII case ignored). Drives the export writer choice.
pub fn is_sqlite_path(path: &str) -> (b: bool)
    ensures
        b == is_sqlite_extension(path_extension(path@)),
{
    match extension_of(path) {
        Some(e) => {
            let ec = chars_of(e.as_str());
            let db = chars_of("db");
            let sq = chars_of("sqlite");
            let sq3 = chars_of("sqlite3");
            same_ignoring_case(&ec, &db) || same_ignoring_case(&ec, &sq) || same_ignoring_case(
                &ec,
                &sq3,
            )
        },
        None => false,
    }
}

// ───────────────────────────── result records ─────────────────────────────

/// One (monster, zone) entry of the drop-rate database search.
#[derive(Debug, Clone)]
pub struct EnemySearchResult {
    pub enemy_name: String,
    /// Area key these stats are for (`None` = unknown zone).
    pub zone: Option<String>,
    pub total_kills: i64,
    pub distinct_loot_items: i64,
}

/// One item of the drop-rate database search.
#[derive(Debug, Clone)]
pub struct ItemSearchResult {
    pub item_name: String,
    pub total_quantity: i64,
    pub distinct_enemies: i64,
}

/// One harvested item of the database search.
#[derive(Debug, Clone)]
pub struct HarvestSearchResult {
    pub item_name: String,
    pub total_quantity: i64,
    /// Distinct corpse types this item was harvested from.
    pub distinct_corpses: i64,
    /// How many harvest pulls yielded this item.
    pub total_extracts: i64,
}

/// Outcome of importing another player's drop-rate export.
#[derive(Debug, Clone)]
pub struct ImportSummary {
    pub source_label: String,
    pub enemies_imported: usize,
    pub loot_rows_imported: usize,
}

/// One entry of the imported-sources list.
#[derive(Debug, Clone)]
pub struct ImportedSource {
    pub source_label: String,
    pub display_name: String,
    pub imported_at: String,
    pub enemy_count: i64,
}

/// Conditions under which an item was harvested from a corpse type.
#[derive(Debug, Clone)]
pub struct ExtractDetail {
    pub corpse_name: Option<String>,
    pub skill: String,
    pub times: i64,
    pub total_quantity: i64,
    pub skill_level: Option<i64>,
    pub equipment_bonus: Option<i64>,
    pub anatomy_family: Option<String>,
    pub anatomy_level: Option<i64>,
}

/// One harvested item of a corpse type.
#[derive(Debug, Clone)]
pub struct EnemyHarvestStat {
    pub item_name: String,
    /// "Butchering" or "Skinning".
    pub skill: String,
    pub total_quantity: i64,
    /// How many harvest pulls yielded this item.
    pub times: i64,
}

/// Harvest breakdown of a corpse type.
#[derive(Debug, Clone)]
pub struct EnemyHarvestStats {
    pub corpse_name: String,
    /// Total harvest yields recorded for this corpse type.
    pub total_extracts: i64,
    pub harvests: Vec<EnemyHarvestStat>,
}

/// Sum of the `times` of the first `k` harvest rows.
pub open spec fn extracts_upto(h: Seq<EnemyHarvestStat>, k: int) -> int
    decreases k,
{
    if k <= 0 {
        0
    } else {
        extracts_upto(h, k - 1) + h[k - 1].times
    }
}

/// The running total of harvest pulls stays within `i64`.
pub open spec fn extracts_fit(h: Seq<EnemyHarvestStat>) -> bool {
    forall|k: int| 0 <= k <= h.len() ==> fits_i64(#[trigger] extracts_upto(h, k))
}

/// The harvest breakdown of a corpse type from its per-item rows; the total
/// is the sum of the rows' pull counts.
pub fn harvest_stats(corpse_name: String, harvests: Vec<EnemyHarvestStat>) -> (r: EnemyHarvestStats)
    requires
        extracts_fit(harvests@),
    ensures
        r.corpse_name == corpse_name,
        r.harvests@ == harvests@,
        r.total_extracts == extracts_upto(harvests@, harvests@.len() as int),
{
    let mut total: i64 = 0;
    let mut i: usize = 0;
    while i < harvests.len()
        invariant
            i <= harvests@.len(),
            extracts_fit(harvests@),
            total == extracts_upto(harvests@, i as int),
        decreases harvests@.len() - i,
    {
        assert(fits_i64(extracts_upto(harvests@, i + 1)));
        total = total + harvests[i].times;
        i = i + 1;
    }
    EnemyHarvestStats { corpse_name, total_extracts: total, harvests }
}


// ───────────────────────────── imports ─────────────────────────────

/// What `Path::new(path).file_name()` of std gives, read as text.
pub uninterp spec fn path_file_name(path: Seq<char>) -> Option<Seq<char>>;

/// `Path::new(path).file_name()` of std, read as text (lossless, since the
/// path is UTF-8). Its result is named [`path_file_name`]; how std splits
/// paths into components is not stated.
#[verifier::external_body]
fn file_name_of(path: &str) -> (r: Option<String>)
    ensures
        opt_string(r) == path_file_name(path@),
{
    std::path::Path::new(path).file_name().map(|n| n.to_string_lossy().to_string())
}

/// The label an imported file's data is kept under: its file name, or
/// `imported` when the path has none. Re-importing a file of the same name
/// replaces its rows.
pub fn source_label(path: &str) -> (r: String)
    ensures
        r@ == match path_file_name(path@) {
            Some(n) => n,
            None => "imported"@,
        },
{
    match file_name_of(path) {
        Some(n) => n,
        None => "imported".to_owned(),
    }
}

/// Number of loot rows over all monsters of a drop-data list.
pub open spec fn loot_row_count(es: Seq<crate::csv_import::ExportedEnemy>) -> int
    decreases es.len(),
{
    if es.len() == 0 {
        0
    } else {
        loot_row_count(es.drop_last()) + es.last().loot@.len()
    }
}

/// The summary of an import of `enemies` under `label`: the monsters and
/// the loot rows written.
pub fn import_summary(label: String, enemies: &[crate::csv_import::ExportedEnemy]) -> (r: ImportSummary)
    requires
        loot_row_count(enemies@) <= usize::MAX,
    ensures
        r.source_label == label,
        r.enemies_imported == enemies@.len(),
        r.loot_rows_imported == loot_row_count(enemies@),
{
    let mut n: usize = 0;
    let mut i: usize = 0;
    assert(enemies@.take(0) =~= Seq::<crate::csv_import::ExportedEnemy>::empty());
    while i < enemies.len()
        invariant
            i <= enemies@.len(),
            loot_row_count(enemies@) <= usize::MAX,
            n == loot_row_count(enemies@.take(i as int)),
        decreases enemies@.len() - i,
    {
        proof {
            assert(enemies@.take(i + 1).drop_last() =~= enemies@.take(i as int));
            assert(enemies@.take(i + 1).last() == enemies@[i as int]);
            lemma_loot_count_prefix(enemies@, i + 1);
        }
        n = n + enemies[i].loot.len();
        i = i + 1;
    }
    assert(enemies@.take(enemies@.len() as int) =~= enemies@);
    ImportSummary { source_label: label, enemies_imported: enemies.len(), loot_rows_imported: n }
}

/// A prefix has no more loot rows than the whole list.
proof fn lemma_loot_count_prefix(es: Seq<crate::csv_import::ExportedEnemy>, k: int)
    requires
        0 <= k <= es.len(),
    ensures
        loot_row_count(es.take(k)) <= loot_row_count(es),
    decreases es.len() - k,
{
    if k < es.len() {
        lemma_loot_count_prefix(es, k + 1);
        assert(es.take(k + 1).drop_last() =~= es.take(k));
    } else {
        assert(es.take(k) =~= es);
    }
}

} // verus!
