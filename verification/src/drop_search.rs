//! Searching the drop-rate database: monsters and items by name, with their
//! aggregates, and the sources an item drops from.
//!
//! The grouped rows come from SQLite; here they are merged across the local
//! and imported data, filtered by a case-insensitive substring, ordered and
//! cut to the requested number.
use vstd::prelude::*;

use crate::chat::opt_text;
use crate::kill_tracking::{EnemySearchResult, HarvestSearchResult, ItemSearchResult};
use crate::sort::{key_views, push_text_key, sort_by_keys, stably_sorted, text_key_asc};
use crate::text::{chars_of, contains, has, to_lowercase, trim, trimmed, unicode_lowercase, string_of};

verus! {

// ───────────────────────────── sets in order ─────────────────────────────

/// The elements of `s` in order, each at its first occurrence only.
pub open spec fn dedup<T>(s: Seq<T>) -> Seq<T>
    decreases s.len(),
{
    if s.len() == 0 {
        s
    } else {
        let d = dedup(s.drop_last());
        if d.contains(s.last()) {
            d
        } else {
            d.push(s.last())
        }
    }
}

/// No element occurs twice.
pub open spec fn no_dups<T>(s: Seq<T>) -> bool {
    forall|i: int, j: int| 0 <= i < j < s.len() ==> s[i] != s[j]
}

/// `dedup(s)` holds every element of `s` once.
pub proof fn lemma_dedup<T>(s: Seq<T>)
    ensures
        no_dups(dedup(s)),
        forall|x: T| #[trigger] dedup(s).contains(x) <==> s.contains(x),
        dedup(s).len() <= s.len(),
    decreases s.len(),
{
    if s.len() > 0 {
        let p = s.drop_last();
        lemma_dedup(p);
        let d = dedup(p);
        assert forall|x: T| #[trigger] dedup(s).contains(x) <==> s.contains(x) by {
            if s.contains(x) {
                let k = choose|k: int| 0 <= k < s.len() && s[k] == x;
                if k < s.len() - 1 {
                    assert(p[k] == x);
                    assert(p.contains(x));
                    assert(d.contains(x));
                    if !d.contains(s.last()) {
                        let q = choose|q: int| 0 <= q < d.len() && d[q] == x;
                        assert(d.push(s.last())[q] == x);
                    }
                } else {
                    if !d.contains(s.last()) {
                        assert(d.push(s.last())[d.len() as int] == x);
                    }
                }
            }
            if dedup(s).contains(x) {
                if d.contains(s.last()) {
                    assert(dedup(s) == d);
                    assert(d.contains(x));
                    assert(p.contains(x));
                    let k = choose|k: int| 0 <= k < p.len() && p[k] == x;
                    assert(s[k] == x);
                } else {
                    let q = choose|q: int| 0 <= q < d.len() + 1 && d.push(s.last())[q] == x;
                    if q < d.len() {
                        assert(d[q] == x);
                        assert(d.contains(x));
                        assert(p.contains(x));
                        let k = choose|k: int| 0 <= k < p.len() && p[k] == x;
                        assert(s[k] == x);
                    } else {
                        assert(s[s.len() - 1] == x);
                    }
                }
            }
        }
    }
}

// ───────────────────────────── name filter ─────────────────────────────

/// The search text: the query trimmed and lower-cased.
pub open spec fn needle_spec(query: Seq<char>) -> Seq<char> {
    unicode_lowercase(trim(query))
}

/// A name passes the search when the search text is empty or its
/// lower-cased form contains it.
pub open spec fn passes(needle: Seq<char>, name: Seq<char>) -> bool {
    needle.len() == 0 || contains(unicode_lowercase(name), needle)
}

/// The name filter is a substring test at any position: a name passes
/// exactly when the search text is empty or occurs somewhere in the
/// lower-cased name, whatever the offset.
pub proof fn lemma_passes_anywhere(needle: Seq<char>, name: Seq<char>)
    ensures
        passes(needle, name) <==> (needle.len() == 0 || exists|i: int|
            0 <= i && i + needle.len() <= unicode_lowercase(name).len()
                && #[trigger] unicode_lowercase(name).subrange(i, i + needle.len()) == needle),
{
    let lc = unicode_lowercase(name);
    if exists|i: int|
        0 <= i && i + needle.len() <= lc.len() && #[trigger] lc.subrange(i, i + needle.len()) == needle {
        let i = choose|i: int|
            0 <= i && i + needle.len() <= lc.len() && #[trigger] lc.subrange(i, i + needle.len())
                == needle;
        assert(crate::text::occurs_at(lc, needle, i));
    }
}

/// See [`needle_spec`].
pub fn search_needle(query: &str) -> (n: Vec<char>)
    ensures
        n@ == needle_spec(query@),
{
    let c = chars_of(query);
    let t = trimmed(&c);
    let ts = string_of(&t);
    let l = to_lowercase(ts.as_str());
    chars_of(l.as_str())
}

/// See [`passes`].
pub fn name_passes(needle: &[char], name: &str) -> (b: bool)
    ensures
        b == passes(needle@, name@),
{
    if needle.len() == 0 {
        return true;
    }
    let l = to_lowercase(name);
    let lc = chars_of(l.as_str());
    has(&lc, needle)
}

/// The first `limit` of `s` (all of it without a limit).
pub open spec fn limited<T>(s: Seq<T>, limit: Option<usize>) -> Seq<T> {
    match limit {
        Some(n) => if n < s.len() {
            s.take(n as int)
        } else {
            s
        },
        None => s,
    }
}

fn cut<T>(v: &mut Vec<T>, limit: Option<usize>)
    ensures
        final(v)@ == limited(old(v)@, limit),
{
    match limit {
        Some(n) => {
            if n < v.len() {
                v.truncate(n);
            }
        },
        None => {},
    }
}

/// The sort key part of an optional zone: no zone first, then zones in text
/// order.
pub open spec fn zone_key(zone: Option<Seq<char>>) -> Seq<i128> {
    match zone {
        None => seq![0i128],
        Some(z) => seq![1i128] + text_key_asc(z),
    }
}

fn push_zone_key(k: &mut Vec<i128>, zone: &Option<String>)
    ensures
        final(k)@ == old(k)@ + zone_key(opt_text(*zone)),
{
    match zone {
        None => {
            k.push(0);
            assert(k@ =~= old(k)@ + zone_key(opt_text(*zone)));
        },
        Some(z) => {
            let ghost k0 = k@;
            k.push(1);
            push_text_key(k, z.as_str(), false);
            assert(k@ =~= k0 + zone_key(opt_text(*zone)));
        },
    }
}

pub(crate) fn same_zone(a: &Option<String>, b: &Option<String>) -> (r: bool)
    ensures
        r == (opt_text(*a) == opt_text(*b)),
{
    match (a, b) {
        (None, None) => true,
        (Some(x), Some(y)) => *x == *y,
        _ => false,
    }
}

// ───────────────────────────── monsters ─────────────────────────────

/// Kills of a monster in a zone, from one grouped query.
pub struct EnemyKillRow {
    pub enemy_name: String,
    pub zone: Option<String>,
    pub kills: i64,
}

/// An item a monster in a zone dropped, from one query.
pub struct EnemyLootItemRow {
    pub enemy_name: String,
    pub zone: Option<String>,
    pub item_name: String,
}

/// A (monster, zone) pair.
pub type SourceKey = (Seq<char>, Option<Seq<char>>);

pub open spec fn kill_keys(rows: Seq<EnemyKillRow>) -> Seq<SourceKey> {
    rows.map_values(|r: EnemyKillRow| (r.enemy_name@, opt_text(r.zone)))
}

pub open spec fn loot_keys(rows: Seq<EnemyLootItemRow>) -> Seq<SourceKey> {
    rows.map_values(|r: EnemyLootItemRow| (r.enemy_name@, opt_text(r.zone)))
}

/// Kills summed over the rows for `key`.
pub open spec fn kills_for(rows: Seq<EnemyKillRow>, key: SourceKey) -> int
    decreases rows.len(),
{
    if rows.len() == 0 {
        0
    } else {
        kills_for(rows.drop_last(), key) + if (rows.last().enemy_name@, opt_text(rows.last().zone))
            == key {
            rows.last().kills as int
        } else {
            0
        }
    }
}

/// The items dropped by `key`, in order of the rows.
pub open spec fn items_for(rows: Seq<EnemyLootItemRow>, key: SourceKey) -> Seq<Seq<char>>
    decreases rows.len(),
{
    if rows.len() == 0 {
        Seq::empty()
    } else {
        let p = items_for(rows.drop_last(), key);
        if (rows.last().enemy_name@, opt_text(rows.last().zone)) == key {
            p.push(rows.last().item_name@)
        } else {
            p
        }
    }
}

/// (monster, zone, kills, distinct loot items)
pub type EnemyView = (Seq<char>, Option<Seq<char>>, int, int);

pub open spec fn enemy_view(e: EnemySearchResult) -> EnemyView {
    (e.enemy_name@, opt_text(e.zone), e.total_kills as int, e.distinct_loot_items as int)
}

pub open spec fn enemy_views(es: Seq<EnemySearchResult>) -> Seq<EnemyView> {
    es.map_values(|e: EnemySearchResult| enemy_view(e))
}

/// The search entry of a (monster, zone) pair.
pub open spec fn enemy_entry(
    kills: Seq<EnemyKillRow>,
    loot: Seq<EnemyLootItemRow>,
    key: SourceKey,
) -> EnemyView {
    (key.0, key.1, kills_for(kills, key), dedup(items_for(loot, key)).len() as int)
}

/// The entries before ordering: every (monster, zone) pair in the kill or
/// loot rows, once, whose monster passes the search.
pub open spec fn enemy_candidates(
    kills: Seq<EnemyKillRow>,
    loot: Seq<EnemyLootItemRow>,
    needle: Seq<char>,
) -> Seq<EnemyView> {
    passing(dedup(kill_keys(kills) + loot_keys(loot)), needle).map_values(
        |k: SourceKey| enemy_entry(kills, loot, k),
    )
}

/// The pairs whose monster passes the search, in order.
pub open spec fn passing(keys: Seq<SourceKey>, needle: Seq<char>) -> Seq<SourceKey>
    decreases keys.len(),
{
    if keys.len() == 0 {
        keys
    } else {
        let p = passing(keys.drop_last(), needle);
        if passes(needle, keys.last().0) {
            p.push(keys.last())
        } else {
            p
        }
    }
}

/// Most kills first, then by lower-cased name, then by zone.
pub open spec fn enemy_order_key(e: EnemyView) -> Seq<i128> {
    seq![(-e.2) as i128] + text_key_asc(unicode_lowercase(e.0)) + zone_key(e.1)
}

pub open spec fn enemy_order_keys(es: Seq<EnemyView>) -> Seq<Seq<i128>> {
    es.map_values(|e: EnemyView| enemy_order_key(e))
}

/// Every running sum of kills of every pair fits an `i64`.
pub open spec fn kills_fit(rows: Seq<EnemyKillRow>) -> bool {
    forall|k: int, key: SourceKey|
        0 <= k <= rows.len() ==> i64::MIN <= #[trigger] kills_for(rows.take(k), key) <= i64::MAX
}

fn key_index(keys: &Vec<(String, Option<String>)>, name: &String, zone: &Option<String>) -> (r: bool)
    ensures
        r == keys@.map_values(|k: (String, Option<String>)| (k.0@, opt_text(k.1))).contains(
            (name@, opt_text(*zone)),
        ),
{
    let ghost kv = keys@.map_values(|k: (String, Option<String>)| (k.0@, opt_text(k.1)));
    let mut i: usize = 0;
    while i < keys.len()
        invariant
            i <= keys@.len(),
            kv == keys@.map_values(|k: (String, Option<String>)| (k.0@, opt_text(k.1))),
            forall|j: int| 0 <= j < i ==> kv[j] != (name@, opt_text(*zone)),
        decreases keys@.len() - i,
    {
        if keys[i].0 == *name && same_zone(&keys[i].1, zone) {
            assert(kv[i as int] == (name@, opt_text(*zone)));
            return true;
        }
        i = i + 1;
    }
    false
}

pub open spec fn key_list_view(keys: Seq<(String, Option<String>)>) -> Seq<SourceKey> {
    keys.map_values(|k: (String, Option<String>)| (k.0@, opt_text(k.1)))
}

pub(crate) fn add_key(keys: &mut Vec<(String, Option<String>)>, name: &String, zone: &Option<String>)
    ensures
        key_list_view(final(keys)@) == if key_list_view(old(keys)@).contains((name@, opt_text(*zone))) {
            key_list_view(old(keys)@)
        } else {
            key_list_view(old(keys)@).push((name@, opt_text(*zone)))
        },
{
    if !key_index(keys, name, zone) {
        let z = match zone {
            Some(s) => Some(s.clone()),
            None => None,
        };
        let ghost before = keys@;
        keys.push((name.clone(), z));
        assert(key_list_view(keys@) =~= key_list_view(before).push((name@, opt_text(*zone))));
    }
}

fn kills_of(rows: &[EnemyKillRow], name: &String, zone: &Option<String>) -> (n: i64)
    requires
        kills_fit(rows@),
    ensures
        n == kills_for(rows@, (name@, opt_text(*zone))),
{
    let ghost key = (name@, opt_text(*zone));
    let mut total: i64 = 0;
    let mut i: usize = 0;
    assert(rows@.take(0) =~= Seq::<EnemyKillRow>::empty());
    while i < rows.len()
        invariant
            i <= rows@.len(),
            kills_fit(rows@),
            key == (name@, opt_text(*zone)),
            total == kills_for(rows@.take(i as int), key),
        decreases rows@.len() - i,
    {
        proof {
            assert(rows@.take(i + 1).drop_last() =~= rows@.take(i as int));
            assert(rows@.take(i + 1).last() == rows@[i as int]);
            assert(i64::MIN <= kills_for(rows@.take(i + 1), key) <= i64::MAX);
        }
        if rows[i].enemy_name == *name && same_zone(&rows[i].zone, zone) {
            total = total + rows[i].kills;
        }
        i = i + 1;
    }
    assert(rows@.take(rows@.len() as int) =~= rows@);
    total
}

fn distinct_items(rows: &[EnemyLootItemRow], name: &String, zone: &Option<String>) -> (n: usize)
    ensures
        n == dedup(items_for(rows@, (name@, opt_text(*zone)))).len(),
{
    let ghost key = (name@, opt_text(*zone));
    let mut seen: Vec<String> = Vec::new();
    let mut i: usize = 0;
    assert(rows@.take(0) =~= Seq::<EnemyLootItemRow>::empty());
    while i < rows.len()
        invariant
            i <= rows@.len(),
            key == (name@, opt_text(*zone)),
            seen@.map_values(|s: String| s@) == dedup(items_for(rows@.take(i as int), key)),
        decreases rows@.len() - i,
    {
        let ghost pre = rows@.take(i as int);
        proof {
            assert(rows@.take(i + 1).drop_last() =~= pre);
            assert(rows@.take(i + 1).last() == rows@[i as int]);
        }
        if rows[i].enemy_name == *name && same_zone(&rows[i].zone, zone) {
            let item = &rows[i].item_name;
            let mut found = false;
            let mut j: usize = 0;
            while j < seen.len()
                invariant
                    j <= seen@.len(),
                    found == seen@.map_values(|s: String| s@).take(j as int).contains(item@),
                decreases seen@.len() - j,
            {
                proof {
                    let sv = seen@.map_values(|s: String| s@);
                    assert(sv.take(j + 1) =~= sv.take(j as int).push(sv[j as int]));
                    if sv.take(j as int).contains(item@) {
                        let q = choose|q: int| 0 <= q < j && #[trigger] sv.take(j as int)[q] == item@;
                        assert(sv.take(j + 1)[q] == item@);
                    }
                    if sv.take(j + 1).contains(item@) && sv[j as int] != item@ {
                        let q = choose|q: int| 0 <= q < j + 1 && #[trigger] sv.take(j + 1)[q] == item@;
                        assert(sv.take(j as int)[q] == item@);
                    }
                }
                proof {
                    let sv = seen@.map_values(|s: String| s@);
                    assert(sv[j as int] == seen@[j as int]@);
                    if sv[j as int] == item@ {
                        assert(sv.take(j + 1)[j as int] == item@);
                    }
                }
                if seen[j] == *item {
                    found = true;
                }
                j = j + 1;
            }
            proof {
                let sv = seen@.map_values(|s: String| s@);
                assert(sv.take(sv.len() as int) =~= sv);
                assert(items_for(rows@.take(i + 1), key) == items_for(pre, key).push(item@));
                let q = items_for(pre, key);
                assert(q.push(item@).drop_last() =~= q);
                assert(q.push(item@).last() == item@);
            }
            if !found {
                let ghost before = seen@;
                seen.push(item.clone());
                proof {
                    assert(seen@.map_values(|s: String| s@) =~= before.map_values(|s: String| s@).push(
                        item@,
                    ));
                }
            }
        }
        i = i + 1;
    }
    assert(rows@.take(rows@.len() as int) =~= rows@);
    seen.len()
}

/// The monster search: every (monster, zone) pair in the kill or loot rows
/// whose monster passes the search, with its total kills and number of
/// distinct loot items; most kills first, then by lower-cased name, then by
/// zone; at most `limit` of them.
pub fn search_enemies(
    kills: &[EnemyKillRow],
    loot: &[EnemyLootItemRow],
    query: &str,
    limit: Option<usize>,
) -> (r: Vec<EnemySearchResult>)
    requires
        kills_fit(kills@),
        loot@.len() <= i64::MAX,
    ensures
        exists|s: Seq<EnemyView>|
            stably_sorted(
                s,
                enemy_candidates(kills@, loot@, needle_spec(query@)),
                enemy_order_keys(enemy_candidates(kills@, loot@, needle_spec(query@))),
            ) && enemy_views(r@) == limited(s, limit),
{
    let needle = search_needle(query);
    let ghost all = kill_keys(kills@) + loot_keys(loot@);
    let mut keys: Vec<(String, Option<String>)> = Vec::new();
    let mut i: usize = 0;
    assert(all.take(0) =~= Seq::<SourceKey>::empty());
    while i < kills.len()
        invariant
            i <= kills@.len(),
            all == kill_keys(kills@) + loot_keys(loot@),
            key_list_view(keys@) == dedup(all.take(i as int)),
        decreases kills@.len() - i,
    {
        proof {
            assert(all.take(i + 1).drop_last() =~= all.take(i as int));
            assert(all.take(i + 1).last() == all[i as int]);
        }
        add_key(&mut keys, &kills[i].enemy_name, &kills[i].zone);
        i = i + 1;
    }
    let mut j: usize = 0;
    while j < loot.len()
        invariant
            j <= loot@.len(),
            all == kill_keys(kills@) + loot_keys(loot@),
            key_list_view(keys@) == dedup(all.take(kills@.len() + j)),
        decreases loot@.len() - j,
    {
        let ghost n = kills@.len() + j;
        proof {
            assert(all.take(n + 1).drop_last() =~= all.take(n));
            assert(all.take(n + 1).last() == all[n]);
            assert(all[n] == loot_keys(loot@)[j as int]);
        }
        add_key(&mut keys, &loot[j].enemy_name, &loot[j].zone);
        j = j + 1;
    }
    proof {
        assert(all.take(all.len() as int) =~= all);
    }
    let ghost groups = dedup(all);
    let ghost nd = needle@;
    let mut out: Vec<EnemySearchResult> = Vec::new();
    let mut sort_keys: Vec<Vec<i128>> = Vec::new();
    let mut g: usize = 0;
    assert(passing(groups.take(0), nd) =~= Seq::<SourceKey>::empty());
    while g < keys.len()
        invariant
            g <= keys@.len(),
            key_list_view(keys@) == groups,
            nd == needle@,
            nd == needle_spec(query@),
            kills_fit(kills@),
            loot@.len() <= i64::MAX,
            enemy_views(out@) == passing(groups.take(g as int), nd).map_values(
                |k: SourceKey| enemy_entry(kills@, loot@, k),
            ),
            key_views(sort_keys@) == enemy_order_keys(enemy_views(out@)),
        decreases keys@.len() - g,
    {
        proof {
            assert(groups.take(g + 1).drop_last() =~= groups.take(g as int));
            assert(groups.take(g + 1).last() == groups[g as int]);
        }
        let name = &keys[g].0;
        let zone = &keys[g].1;
        if name_passes(&needle, name.as_str()) {
            let total = kills_of(kills, name, zone);
            let distinct = distinct_items(loot, name, zone);
            proof {
                lemma_dedup(items_for(loot@, (name@, opt_text(*zone))));
                lemma_items_bound(loot@, (name@, opt_text(*zone)));
            }
            let z = match zone {
                Some(s) => Some(s.clone()),
                None => None,
            };
            let e = EnemySearchResult {
                enemy_name: name.clone(),
                zone: z,
                total_kills: total,
                distinct_loot_items: distinct as i64,
            };
            let mut k: Vec<i128> = Vec::new();
            k.push(-(total as i128));
            let lower = to_lowercase(name.as_str());
            push_text_key(&mut k, lower.as_str(), false);
            push_zone_key(&mut k, zone);
            proof {
                assert(k@ =~= enemy_order_key(enemy_view(e)));
            }
            let ghost ob = out@;
            let ghost kb = sort_keys@;
            out.push(e);
            sort_keys.push(k);
            proof {
                assert(enemy_views(out@) =~= enemy_views(ob).push(enemy_view(e)));
                assert(key_views(sort_keys@) =~= key_views(kb).push(k@));
                assert(enemy_order_keys(enemy_views(out@)) =~= enemy_order_keys(enemy_views(ob)).push(
                    enemy_order_key(enemy_view(e)),
                ));
            }
        }
        g = g + 1;
    }
    proof {
        assert(groups.take(groups.len() as int) =~= groups);
    }
    let ghost before_sort = out@;
    let mut sorted = sort_by_keys(out, sort_keys);
    proof {
        let p = choose|p: Seq<int>|
            crate::sort::stable_order(enemy_order_keys(enemy_views(before_sort)), p)
                && crate::sort::arranged(sorted@, before_sort, p);
        assert(crate::sort::arranged(enemy_views(sorted@), enemy_views(before_sort), p));
    }
    let ghost s = enemy_views(sorted@);
    cut(&mut sorted, limit);
    proof {
        assert(enemy_views(sorted@) =~= limited(s, limit));
    }
    sorted
}

proof fn lemma_items_bound(rows: Seq<EnemyLootItemRow>, key: SourceKey)
    ensures
        items_for(rows, key).len() <= rows.len(),
    decreases rows.len(),
{
    if rows.len() > 0 {
        lemma_items_bound(rows.drop_last(), key);
    }
}


// ───────────────────────────── shared helpers ─────────────────────────────

pub open spec fn text_views(v: Seq<String>) -> Seq<Seq<char>> {
    v.map_values(|s: String| s@)
}

/// Adds `s` to the list of distinct texts unless it is there.
pub(crate) fn add_text(seen: &mut Vec<String>, s: &String)
    ensures
        text_views(final(seen)@) == if text_views(old(seen)@).contains(s@) {
            text_views(old(seen)@)
        } else {
            text_views(old(seen)@).push(s@)
        },
{
    let ghost sv = text_views(seen@);
    let mut j: usize = 0;
    while j < seen.len()
        invariant
            j <= seen@.len(),
            sv == text_views(seen@),
            forall|q: int| 0 <= q < j ==> sv[q] != s@,
        decreases seen@.len() - j,
    {
        if seen[j] == *s {
            assert(sv[j as int] == s@);
            return;
        }
        j = j + 1;
    }
    assert(!sv.contains(s@)) by {
        if sv.contains(s@) {
            let q = choose|q: int| 0 <= q < sv.len() && sv[q] == s@;
        }
    }
    seen.push(s.clone());
    assert(text_views(seen@) =~= sv.push(s@));
}

// ───────────────────────────── items ─────────────────────────────

/// Quantity of an item dropped by one (monster, zone), from one grouped
/// query.
pub struct ItemSourceRow {
    pub item_name: String,
    pub quantity: i64,
    pub enemy_name: String,
    pub zone: Option<String>,
}

pub open spec fn item_names(rows: Seq<ItemSourceRow>) -> Seq<Seq<char>> {
    rows.map_values(|r: ItemSourceRow| r.item_name@)
}

/// Quantity of `item` summed over the rows.
pub open spec fn quantity_for(rows: Seq<ItemSourceRow>, item: Seq<char>) -> int
    decreases rows.len(),
{
    if rows.len() == 0 {
        0
    } else {
        quantity_for(rows.drop_last(), item) + if rows.last().item_name@ == item {
            rows.last().quantity as int
        } else {
            0
        }
    }
}

/// The (monster, zone) pairs that dropped `item`, in row order.
pub open spec fn sources_for(rows: Seq<ItemSourceRow>, item: Seq<char>) -> Seq<SourceKey>
    decreases rows.len(),
{
    if rows.len() == 0 {
        Seq::empty()
    } else {
        let p = sources_for(rows.drop_last(), item);
        if rows.last().item_name@ == item {
            p.push((rows.last().enemy_name@, opt_text(rows.last().zone)))
        } else {
            p
        }
    }
}

/// (item, quantity, distinct sources)
pub type ItemView = (Seq<char>, int, int);

pub open spec fn item_view(i: ItemSearchResult) -> ItemView {
    (i.item_name@, i.total_quantity as int, i.distinct_enemies as int)
}

pub open spec fn item_views(v: Seq<ItemSearchResult>) -> Seq<ItemView> {
    v.map_values(|i: ItemSearchResult| item_view(i))
}

/// The item names that pass the search, in order.
pub open spec fn passing_names(names: Seq<Seq<char>>, needle: Seq<char>) -> Seq<Seq<char>>
    decreases names.len(),
{
    if names.len() == 0 {
        names
    } else {
        let p = passing_names(names.drop_last(), needle);
        if passes(needle, names.last()) {
            p.push(names.last())
        } else {
            p
        }
    }
}

/// The entries before ordering: every item in the rows, once, that passes
/// the search, with its total quantity and number of distinct sources.
pub open spec fn item_candidates(rows: Seq<ItemSourceRow>, needle: Seq<char>) -> Seq<ItemView> {
    passing_names(dedup(item_names(rows)), needle).map_values(
        |n: Seq<char>| (n, quantity_for(rows, n), dedup(sources_for(rows, n)).len() as int),
    )
}

/// Largest quantity first, then by lower-cased name.
pub open spec fn quantity_order_key(name: Seq<char>, quantity: int) -> Seq<i128> {
    seq![(-quantity) as i128] + text_key_asc(unicode_lowercase(name))
}

pub open spec fn item_order_keys(v: Seq<ItemView>) -> Seq<Seq<i128>> {
    v.map_values(|i: ItemView| quantity_order_key(i.0, i.1))
}

/// Every running quantity sum of every item fits an `i64`.
pub open spec fn quantities_fit(rows: Seq<ItemSourceRow>) -> bool {
    forall|k: int, item: Seq<char>|
        0 <= k <= rows.len() ==> i64::MIN <= #[trigger] quantity_for(rows.take(k), item) <= i64::MAX
}

fn item_totals(rows: &[ItemSourceRow], item: &String) -> (r: (i64, usize))
    requires
        quantities_fit(rows@),
    ensures
        r.0 == quantity_for(rows@, item@),
        r.1 == dedup(sources_for(rows@, item@)).len(),
{
    let mut total: i64 = 0;
    let mut seen: Vec<(String, Option<String>)> = Vec::new();
    let mut i: usize = 0;
    assert(rows@.take(0) =~= Seq::<ItemSourceRow>::empty());
    while i < rows.len()
        invariant
            i <= rows@.len(),
            quantities_fit(rows@),
            total == quantity_for(rows@.take(i as int), item@),
            key_list_view(seen@) == dedup(sources_for(rows@.take(i as int), item@)),
        decreases rows@.len() - i,
    {
        let ghost pre = rows@.take(i as int);
        proof {
            assert(rows@.take(i + 1).drop_last() =~= pre);
            assert(rows@.take(i + 1).last() == rows@[i as int]);
            assert(i64::MIN <= quantity_for(rows@.take(i + 1), item@) <= i64::MAX);
        }
        if rows[i].item_name == *item {
            total = total + rows[i].quantity;
            add_key(&mut seen, &rows[i].enemy_name, &rows[i].zone);
            proof {
                let q = sources_for(pre, item@);
                let x = (rows@[i as int].enemy_name@, opt_text(rows@[i as int].zone));
                assert(q.push(x).drop_last() =~= q);
                assert(q.push(x).last() == x);
            }
        }
        i = i + 1;
    }
    assert(rows@.take(rows@.len() as int) =~= rows@);
    (total, seen.len())
}

proof fn lemma_sources_bound(rows: Seq<ItemSourceRow>, item: Seq<char>)
    ensures
        sources_for(rows, item).len() <= rows.len(),
    decreases rows.len(),
{
    if rows.len() > 0 {
        lemma_sources_bound(rows.drop_last(), item);
    }
}

/// The item search: every item in the rows that passes the search, with its
/// total quantity and number of distinct (monster, zone) sources; largest
/// quantity first, then by lower-cased name; at most `limit` of them.
pub fn search_items(rows: &[ItemSourceRow], query: &str, limit: Option<usize>) -> (r: Vec<
    ItemSearchResult,
>)
    requires
        quantities_fit(rows@),
        rows@.len() <= i64::MAX,
    ensures
        exists|s: Seq<ItemView>|
            stably_sorted(
                s,
                item_candidates(rows@, needle_spec(query@)),
                item_order_keys(item_candidates(rows@, needle_spec(query@))),
            ) && item_views(r@) == limited(s, limit),
{
    let needle = search_needle(query);
    let ghost nd = needle@;
    let ghost names = item_names(rows@);
    let mut items: Vec<String> = Vec::new();
    let mut i: usize = 0;
    assert(names.take(0) =~= Seq::<Seq<char>>::empty());
    while i < rows.len()
        invariant
            i <= rows@.len(),
            names == item_names(rows@),
            text_views(items@) == dedup(names.take(i as int)),
        decreases rows@.len() - i,
    {
        proof {
            assert(names.take(i + 1).drop_last() =~= names.take(i as int));
            assert(names.take(i + 1).last() == names[i as int]);
        }
        add_text(&mut items, &rows[i].item_name);
        i = i + 1;
    }
    proof {
        assert(names.take(names.len() as int) =~= names);
    }
    let ghost groups = dedup(names);
    let mut out: Vec<ItemSearchResult> = Vec::new();
    let mut sort_keys: Vec<Vec<i128>> = Vec::new();
    let mut g: usize = 0;
    assert(passing_names(groups.take(0), nd) =~= Seq::<Seq<char>>::empty());
    while g < items.len()
        invariant
            g <= items@.len(),
            text_views(items@) == groups,
            nd == needle@,
            nd == needle_spec(query@),
            quantities_fit(rows@),
            rows@.len() <= i64::MAX,
            item_views(out@) == passing_names(groups.take(g as int), nd).map_values(
                |n: Seq<char>| (n, quantity_for(rows@, n), dedup(sources_for(rows@, n)).len() as int),
            ),
            key_views(sort_keys@) == item_order_keys(item_views(out@)),
        decreases items@.len() - g,
    {
        proof {
            assert(groups.take(g + 1).drop_last() =~= groups.take(g as int));
            assert(groups.take(g + 1).last() == groups[g as int]);
            assert(text_views(items@)[g as int] == items@[g as int]@);
        }
        let name = &items[g];
        if name_passes(&needle, name.as_str()) {
            let (total, distinct) = item_totals(rows, name);
            proof {
                lemma_dedup(sources_for(rows@, name@));
                lemma_sources_bound(rows@, name@);
            }
            let e = ItemSearchResult {
                item_name: name.clone(),
                total_quantity: total,
                distinct_enemies: distinct as i64,
            };
            let mut k: Vec<i128> = Vec::new();
            k.push(-(total as i128));
            let lower = to_lowercase(name.as_str());
            push_text_key(&mut k, lower.as_str(), false);
            proof {
                assert(k@ =~= quantity_order_key(name@, total as int));
            }
            let ghost ob = out@;
            let ghost kb = sort_keys@;
            out.push(e);
            sort_keys.push(k);
            proof {
                assert(item_views(out@) =~= item_views(ob).push(item_view(e)));
                assert(key_views(sort_keys@) =~= key_views(kb).push(k@));
                assert(item_order_keys(item_views(out@)) =~= item_order_keys(item_views(ob)).push(
                    quantity_order_key(name@, total as int),
                ));
            }
        }
        g = g + 1;
    }
    proof {
        assert(groups.take(groups.len() as int) =~= groups);
    }
    let ghost before_sort = out@;
    let mut sorted = sort_by_keys(out, sort_keys);
    proof {
        let p = choose|p: Seq<int>|
            crate::sort::stable_order(item_order_keys(item_views(before_sort)), p)
                && crate::sort::arranged(sorted@, before_sort, p);
        assert(crate::sort::arranged(item_views(sorted@), item_views(before_sort), p));
    }
    let ghost s = item_views(sorted@);
    cut(&mut sorted, limit);
    proof {
        assert(item_views(sorted@) =~= limited(s, limit));
    }
    sorted
}

// ───────────────────────────── harvested items ─────────────────────────────

/// (item, quantity, distinct corpses, extracts)
pub type HarvestView = (Seq<char>, int, int, int);

pub open spec fn harvest_view(h: HarvestSearchResult) -> HarvestView {
    (h.item_name@, h.total_quantity as int, h.distinct_corpses as int, h.total_extracts as int)
}

pub open spec fn harvest_views(v: Seq<HarvestSearchResult>) -> Seq<HarvestView> {
    v.map_values(|h: HarvestSearchResult| harvest_view(h))
}

/// The harvested items that pass the search, in order.
pub open spec fn passing_harvests(v: Seq<HarvestView>, needle: Seq<char>) -> Seq<HarvestView>
    decreases v.len(),
{
    if v.len() == 0 {
        v
    } else {
        let p = passing_harvests(v.drop_last(), needle);
        if passes(needle, v.last().0) {
            p.push(v.last())
        } else {
            p
        }
    }
}

pub open spec fn harvest_order_keys(v: Seq<HarvestView>) -> Seq<Seq<i128>> {
    v.map_values(|h: HarvestView| quantity_order_key(h.0, h.1))
}

/// The harvested-item search over the per-item totals: those that pass the
/// search, largest quantity first, then by lower-cased name; at most
/// `limit` of them.
pub fn search_harvested(rows: Vec<HarvestSearchResult>, query: &str, limit: Option<usize>) -> (r: Vec<
    HarvestSearchResult,
>)
    ensures
        exists|s: Seq<HarvestView>|
            stably_sorted(
                s,
                passing_harvests(harvest_views(rows@), needle_spec(query@)),
                harvest_order_keys(passing_harvests(harvest_views(rows@), needle_spec(query@))),
            ) && harvest_views(r@) == limited(s, limit),
{
    let needle = search_needle(query);
    let ghost nd = needle@;
    let ghost hv = harvest_views(rows@);
    let ghost r0 = rows@;
    let mut rows = rows;
    let mut kept: Vec<HarvestSearchResult> = Vec::new();
    let mut sort_keys: Vec<Vec<i128>> = Vec::new();
    let mut taken: usize = 0;
    assert(hv.take(0) =~= Seq::<HarvestView>::empty());
    assert(r0.skip(0) =~= r0);
    let n0 = rows.len();
    while rows.len() > 0
        invariant
            taken + rows@.len() == hv.len(),
            hv.len() == n0,
            hv == harvest_views(r0),
            rows@ == r0.skip(taken as int),
            nd == needle@,
            harvest_views(kept@) == passing_harvests(hv.take(taken as int), nd),
            key_views(sort_keys@) == harvest_order_keys(harvest_views(kept@)),
        decreases rows@.len(),
    {
        let h = rows.remove(0);
        proof {
            assert(h == r0[taken as int]);
            assert(harvest_view(h) == hv[taken as int]);
            assert(rows@ =~= r0.skip(taken + 1));
            assert(hv.take(taken + 1).drop_last() =~= hv.take(taken as int));
            assert(hv.take(taken + 1).last() == hv[taken as int]);
        }
        if name_passes(&needle, h.item_name.as_str()) {
            let mut k: Vec<i128> = Vec::new();
            k.push(-(h.total_quantity as i128));
            let lower = to_lowercase(h.item_name.as_str());
            push_text_key(&mut k, lower.as_str(), false);
            proof {
                assert(k@ =~= quantity_order_key(h.item_name@, h.total_quantity as int));
            }
            let ghost ob = kept@;
            let ghost kb = sort_keys@;
            let ghost hvv = harvest_view(h);
            kept.push(h);
            sort_keys.push(k);
            proof {
                assert(harvest_views(kept@) =~= harvest_views(ob).push(hvv));
                assert(key_views(sort_keys@) =~= key_views(kb).push(k@));
                assert(harvest_order_keys(harvest_views(kept@)) =~= harvest_order_keys(
                    harvest_views(ob),
                ).push(quantity_order_key(hvv.0, hvv.1)));
            }
        }
        taken = taken + 1;
    }
    proof {
        assert(hv.take(hv.len() as int) =~= hv);
    }
    let ghost before_sort = kept@;
    let mut sorted = sort_by_keys(kept, sort_keys);
    proof {
        let p = choose|p: Seq<int>|
            crate::sort::stable_order(harvest_order_keys(harvest_views(before_sort)), p)
                && crate::sort::arranged(sorted@, before_sort, p);
        assert(crate::sort::arranged(harvest_views(sorted@), harvest_views(before_sort), p));
    }
    let ghost s = harvest_views(sorted@);
    cut(&mut sorted, limit);
    proof {
        assert(harvest_views(sorted@) =~= limited(s, limit));
    }
    sorted
}


// ───────────────────────────── drop sources ─────────────────────────────

/// How often an item dropped from one (monster, zone), from one grouped
/// query.
pub struct SourceDropRow {
    pub enemy_name: String,
    pub zone: Option<String>,
    pub times_dropped: i64,
    pub quantity: i64,
}

/// An item's drops from one (monster, zone), over the scope searched.
pub struct DropSourceTally {
    pub enemy_name: String,
    pub zone: Option<String>,
    pub times_dropped: i64,
    pub total_quantity: i64,
}

pub open spec fn drop_keys(rows: Seq<SourceDropRow>) -> Seq<SourceKey> {
    rows.map_values(|r: SourceDropRow| (r.enemy_name@, opt_text(r.zone)))
}

/// Times dropped and quantity summed over the rows for `key`.
pub open spec fn drops_for(rows: Seq<SourceDropRow>, key: SourceKey) -> (int, int)
    decreases rows.len(),
{
    if rows.len() == 0 {
        (0, 0)
    } else {
        let p = drops_for(rows.drop_last(), key);
        if (rows.last().enemy_name@, opt_text(rows.last().zone)) == key {
            (p.0 + rows.last().times_dropped, p.1 + rows.last().quantity)
        } else {
            p
        }
    }
}

/// (monster, zone, times dropped, quantity)
pub type TallyView = (Seq<char>, Option<Seq<char>>, int, int);

pub open spec fn tally_view(t: DropSourceTally) -> TallyView {
    (t.enemy_name@, opt_text(t.zone), t.times_dropped as int, t.total_quantity as int)
}

pub open spec fn tally_views(v: Seq<DropSourceTally>) -> Seq<TallyView> {
    v.map_values(|t: DropSourceTally| tally_view(t))
}

/// One entry per (monster, zone) in the rows, with its summed drops.
pub open spec fn tally_candidates(rows: Seq<SourceDropRow>) -> Seq<TallyView> {
    dedup(drop_keys(rows)).map_values(
        |k: SourceKey| (k.0, k.1, drops_for(rows, k).0, drops_for(rows, k).1),
    )
}

/// Most drops first, then largest quantity.
pub open spec fn tally_order_keys(v: Seq<TallyView>) -> Seq<Seq<i128>> {
    v.map_values(|t: TallyView| seq![(-t.2) as i128, (-t.3) as i128])
}

/// Every running sum of every (monster, zone) fits an `i64`.
pub open spec fn drops_fit(rows: Seq<SourceDropRow>) -> bool {
    forall|k: int, key: SourceKey|
        0 <= k <= rows.len() ==> i64::MIN <= #[trigger] drops_for(rows.take(k), key).0 <= i64::MAX
            && i64::MIN <= drops_for(rows.take(k), key).1 <= i64::MAX
}

fn drops_of(rows: &[SourceDropRow], name: &String, zone: &Option<String>) -> (r: (i64, i64))
    requires
        drops_fit(rows@),
    ensures
        (r.0 as int, r.1 as int) == drops_for(rows@, (name@, opt_text(*zone))),
{
    let ghost key = (name@, opt_text(*zone));
    let mut times: i64 = 0;
    let mut qty: i64 = 0;
    let mut i: usize = 0;
    assert(rows@.take(0) =~= Seq::<SourceDropRow>::empty());
    while i < rows.len()
        invariant
            i <= rows@.len(),
            drops_fit(rows@),
            key == (name@, opt_text(*zone)),
            (times as int, qty as int) == drops_for(rows@.take(i as int), key),
        decreases rows@.len() - i,
    {
        proof {
            assert(rows@.take(i + 1).drop_last() =~= rows@.take(i as int));
            assert(rows@.take(i + 1).last() == rows@[i as int]);
            assert(i64::MIN <= drops_for(rows@.take(i + 1), key).0 <= i64::MAX);
            assert(i64::MIN <= drops_for(rows@.take(i + 1), key).1 <= i64::MAX);
        }
        if rows[i].enemy_name == *name && same_zone(&rows[i].zone, zone) {
            times = times + rows[i].times_dropped;
            qty = qty + rows[i].quantity;
        }
        i = i + 1;
    }
    assert(rows@.take(rows@.len() as int) =~= rows@);
    (times, qty)
}

/// The sources an item dropped from: one per (monster, zone) in the rows
/// (those of the local data, the imported data or both, per the scope),
/// with times dropped and quantity summed; most drops first, then largest
/// quantity.
pub fn drop_source_tallies(rows: &[SourceDropRow]) -> (r: Vec<DropSourceTally>)
    requires
        drops_fit(rows@),
    ensures
        stably_sorted(tally_views(r@), tally_candidates(rows@), tally_order_keys(tally_candidates(rows@))),
{
    let ghost all = drop_keys(rows@);
    let mut keys: Vec<(String, Option<String>)> = Vec::new();
    let mut i: usize = 0;
    assert(all.take(0) =~= Seq::<SourceKey>::empty());
    while i < rows.len()
        invariant
            i <= rows@.len(),
            all == drop_keys(rows@),
            key_list_view(keys@) == dedup(all.take(i as int)),
        decreases rows@.len() - i,
    {
        proof {
            assert(all.take(i + 1).drop_last() =~= all.take(i as int));
            assert(all.take(i + 1).last() == all[i as int]);
        }
        add_key(&mut keys, &rows[i].enemy_name, &rows[i].zone);
        i = i + 1;
    }
    proof {
        assert(all.take(all.len() as int) =~= all);
    }
    let ghost groups = dedup(all);
    let mut out: Vec<DropSourceTally> = Vec::new();
    let mut sort_keys: Vec<Vec<i128>> = Vec::new();
    let mut g: usize = 0;
    while g < keys.len()
        invariant
            g <= keys@.len(),
            key_list_view(keys@) == groups,
            drops_fit(rows@),
            tally_views(out@) == groups.take(g as int).map_values(
                |k: SourceKey| (k.0, k.1, drops_for(rows@, k).0, drops_for(rows@, k).1),
            ),
            key_views(sort_keys@) == tally_order_keys(tally_views(out@)),
        decreases keys@.len() - g,
    {
        let name = &keys[g].0;
        let zone = &keys[g].1;
        let (times, qty) = drops_of(rows, name, zone);
        let z = match zone {
            Some(s) => Some(s.clone()),
            None => None,
        };
        let t = DropSourceTally { enemy_name: name.clone(), zone: z, times_dropped: times, total_quantity: qty };
        let mut k: Vec<i128> = Vec::new();
        k.push(-(times as i128));
        k.push(-(qty as i128));
        assert(k@ =~= seq![(-(times as int)) as i128, (-(qty as int)) as i128]);
        let ghost ob = out@;
        let ghost kb = sort_keys@;
        out.push(t);
        sort_keys.push(k);
        proof {
            assert(tally_views(out@) =~= tally_views(ob).push(tally_view(t)));
            assert(key_views(sort_keys@) =~= key_views(kb).push(k@));
            assert(tally_order_keys(tally_views(out@)) =~= tally_order_keys(tally_views(ob)).push(
                seq![(-(times as int)) as i128, (-(qty as int)) as i128],
            ));
            assert(groups.take(g + 1) =~= groups.take(g as int).push(groups[g as int]));
        }
        g = g + 1;
    }
    proof {
        assert(groups.take(groups.len() as int) =~= groups);
    }
    let ghost before_sort = out@;
    let sorted = sort_by_keys(out, sort_keys);
    proof {
        let p = choose|p: Seq<int>|
            crate::sort::stable_order(tally_order_keys(tally_views(before_sort)), p)
                && crate::sort::arranged(sorted@, before_sort, p);
        assert(crate::sort::arranged(tally_views(sorted@), tally_views(before_sort), p));
    }
    sorted
}

// ───────────────────────────── scope ─────────────────────────────

/// The search reads the local kills for the scopes `mine` and `combined`.
pub fn scope_reads_mine(scope: &str) -> (b: bool)
    ensures
        b == (scope@ == "mine"@ || scope@ == "combined"@),
{
    let s = chars_of(scope);
    crate::text::equals_str(&s, "mine") || crate::text::equals_str(&s, "combined")
}

/// The search reads the imported data for the scopes `imported` and
/// `combined`.
pub fn scope_reads_imported(scope: &str) -> (b: bool)
    ensures
        b == (scope@ == "imported"@ || scope@ == "combined"@),
{
    let s = chars_of(scope);
    crate::text::equals_str(&s, "imported") || crate::text::equals_str(&s, "combined")
}

/// The kill count a drop rate is taken over: the local kills for `mine`,
/// the imported ones for `imported`, both together for any other scope.
pub fn scope_total_kills(scope: &str, mine: i64, imported: i64) -> (n: i64)
    requires
        i64::MIN <= mine + imported <= i64::MAX,
    ensures
        scope@ == "mine"@ ==> n == mine,
        scope@ == "imported"@ ==> n == imported,
        scope@ != "mine"@ && scope@ != "imported"@ ==> n == mine + imported,
{
    let s = chars_of(scope);
    proof {
        reveal_strlit("mine");
        reveal_strlit("imported");
        assert("mine"@.len() == 4);
        assert("imported"@.len() == 8);
        assert("mine"@ != "imported"@);
    }
    if crate::text::equals_str(&s, "mine") {
        mine
    } else if crate::text::equals_str(&s, "imported") {
        imported
    } else {
        mine + imported
    }
}

} // verus!
