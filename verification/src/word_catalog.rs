//! Static catalog mapping known Word of Power effect names to a category and
//! level.
//!
//! The game groups word-of-power scrolls into six tiers (levels 0/3/5/7/9/19);
//! several effect names recur across tiers. The discovery log line gives only
//! the effect name, so each name is pinned to the lowest tier it appears at —
//! a deterministic, if approximate, single level per name.
use vstd::prelude::*;

use crate::text::{chars_of, same, string_of, to_lowercase, trim, trimmed, unicode_lowercase};

verus! {

broadcast use vstd::string::group_string_axioms;

/// The category of names that are not in the catalog.
pub const UNKNOWN_CATEGORY: &'static str = "Unknown";

/// (power name, category, level), in catalog order.
pub open spec fn catalog_spec() -> Seq<(Seq<char>, Seq<char>, u32)> {
    seq![
        // Level 0
        ("Teleport to Crypt"@, "Teleports"@, 0u32),
        ("Teleport to Eltibule Keep"@, "Teleports"@, 0u32),
        ("Teleport to Goblin Dungeon"@, "Teleports"@, 0u32),
        ("Teleport to Serbule"@, "Teleports"@, 0u32),
        ("Weak Life Regeneration"@, "Combat"@, 0u32),
        ("Weak Max-Power Boost"@, "Combat"@, 0u32),
        ("Cure Bovinity"@, "Utility"@, 0u32),
        ("Increase inventory"@, "Utility"@, 0u32),
        ("Fast Swimmer"@, "Utility"@, 0u32),
        ("Hold your Breath"@, "Utility"@, 0u32),
        ("Instant Death"@, "Debuffs"@, 0u32),
        ("Anemia"@, "Debuffs"@, 0u32),
        ("Fear of Water"@, "Debuffs"@, 0u32),
        // Level 3
        ("Teleport to Kur Mountains"@, "Teleports"@, 3u32),
        ("Teleport to Crystal Cavern"@, "Teleports"@, 3u32),
        ("Teleport to Hogan's Keep"@, "Teleports"@, 3u32),
        ("Modest Life Regeneration"@, "Combat"@, 3u32),
        ("Modest Max Power Boost"@, "Combat"@, 3u32),
        ("Iron Skin"@, "Combat"@, 3u32),
        ("Whiney Voice"@, "Combat"@, 3u32),
        ("Mind Shield"@, "Combat"@, 3u32),
        ("Flapskull Incubation"@, "Combat"@, 3u32),
        ("Unarmed Knowledge"@, "Experience"@, 3u32),
        ("Sword Knowledge"@, "Experience"@, 3u32),
        ("Cure Arachnia"@, "Utility"@, 3u32),
        ("Super Jumping"@, "Utility"@, 3u32),
        ("Unnatural Gravity"@, "Debuffs"@, 3u32),
        ("Leprosy"@, "Debuffs"@, 3u32),
        // Level 5
        ("Teleport to Sun Vale"@, "Teleports"@, 5u32),
        ("Teleport to Red Wing Casino"@, "Teleports"@, 5u32),
        ("Perfect Health"@, "Combat"@, 5u32),
        ("Diamond Skin"@, "Combat"@, 5u32),
        ("Archery Master"@, "Combat"@, 5u32),
        ("Impressive Life Regeneration"@, "Combat"@, 5u32),
        ("Impressive Max-Power Boost"@, "Combat"@, 5u32),
        ("Slug Incubation"@, "Combat"@, 5u32),
        ("Resurrect"@, "Combat"@, 5u32),
        ("Alchemy Knowledge"@, "Experience"@, 5u32),
        ("Cure Deeriness"@, "Utility"@, 5u32),
        ("Cure Disease"@, "Utility"@, 5u32),
        ("Cure Pigification"@, "Utility"@, 5u32),
        ("Flight"@, "Utility"@, 5u32),
        ("Human Illusion"@, "Utility"@, 5u32),
        ("Preparedness"@, "Utility"@, 5u32),
        ("Increased Inventory"@, "Utility"@, 5u32),
        ("Rare Loot"@, "Utility"@, 5u32),
        ("Lame Leg"@, "Inutile"@, 5u32),
        // Level 7
        ("Unreasonable Life Regeneration"@, "Combat"@, 7u32),
        ("Unreasonable Max-Power Boost"@, "Combat"@, 7u32),
        ("Poison Slug Incubation"@, "Combat"@, 7u32),
        ("Hateable Face"@, "Combat"@, 7u32),
        ("Deer Form"@, "Combat"@, 7u32),
        ("Experience Boost"@, "Combat"@, 7u32),
        ("Resurrection"@, "Utility"@, 7u32),
        ("Teleport to Ilmari"@, "Utility"@, 7u32),
        ("Epic Loot"@, "Utility"@, 7u32),
        ("Elf Illusion"@, "Utility"@, 7u32),
        ("Camel Essence"@, "Utility"@, 7u32),
        // Level 9
        ("Teleport to Trollvale (Fae Realm)"@, "Teleports"@, 9u32),
        ("Disgusting Body Odor"@, "Combat"@, 9u32),
        ("Unimaginable Max-Power Boost"@, "Utility"@, 9u32),
        ("Rakshasa Illusion"@, "Utility"@, 9u32),
        // Level 19
        ("Teleport to Vidaria"@, "Teleports"@, 19u32),
        ("Teleport into the Rubywall"@, "Teleports"@, 19u32),
        ("Teleport to Povus"@, "Teleports"@, 19u32),
        ("Everlasting Body Odor"@, "Combat"@, 19u32),
        ("Healing Funnel"@, "Combat"@, 19u32),
        ("Elemental Immunity"@, "Combat"@, 19u32),
        ("Empower Steed"@, "Utility"@, 19u32),
        ("Inner Flame"@, "Utility"@, 19u32),
    ]
}

/// The catalog's entries as text.
pub open spec fn entries_view(v: Seq<(&str, &str, u32)>) -> Seq<(Seq<char>, Seq<char>, u32)> {
    v.map_values(|e: (&str, &str, u32)| (e.0@, e.1@, e.2))
}

/// The catalog, in order.
fn catalog() -> (v: Vec<(&'static str, &'static str, u32)>)
    ensures
        entries_view(v@) == catalog_spec(),
{
    let mut v: Vec<(&'static str, &'static str, u32)> = Vec::new();
    // Level 0
    v.push(("Teleport to Crypt", "Teleports", 0));
    v.push(("Teleport to Eltibule Keep", "Teleports", 0));
    v.push(("Teleport to Goblin Dungeon", "Teleports", 0));
    v.push(("Teleport to Serbule", "Teleports", 0));
    v.push(("Weak Life Regeneration", "Combat", 0));
    v.push(("Weak Max-Power Boost", "Combat", 0));
    v.push(("Cure Bovinity", "Utility", 0));
    v.push(("Increase inventory", "Utility", 0));
    v.push(("Fast Swimmer", "Utility", 0));
    v.push(("Hold your Breath", "Utility", 0));
    v.push(("Instant Death", "Debuffs", 0));
    v.push(("Anemia", "Debuffs", 0));
    v.push(("Fear of Water", "Debuffs", 0));
    // Level 3
    v.push(("Teleport to Kur Mountains", "Teleports", 3));
    v.push(("Teleport to Crystal Cavern", "Teleports", 3));
    v.push(("Teleport to Hogan's Keep", "Teleports", 3));
    v.push(("Modest Life Regeneration", "Combat", 3));
    v.push(("Modest Max Power Boost", "Combat", 3));
    v.push(("Iron Skin", "Combat", 3));
    v.push(("Whiney Voice", "Combat", 3));
    v.push(("Mind Shield", "Combat", 3));
    v.push(("Flapskull Incubation", "Combat", 3));
    v.push(("Unarmed Knowledge", "Experience", 3));
    v.push(("Sword Knowledge", "Experience", 3));
    v.push(("Cure Arachnia", "Utility", 3));
    v.push(("Super Jumping", "Utility", 3));
    v.push(("Unnatural Gravity", "Debuffs", 3));
    v.push(("Leprosy", "Debuffs", 3));
    // Level 5
    v.push(("Teleport to Sun Vale", "Teleports", 5));
    v.push(("Teleport to Red Wing Casino", "Teleports", 5));
    v.push(("Perfect Health", "Combat", 5));
    v.push(("Diamond Skin", "Combat", 5));
    v.push(("Archery Master", "Combat", 5));
    v.push(("Impressive Life Regeneration", "Combat", 5));
    v.push(("Impressive Max-Power Boost", "Combat", 5));
    v.push(("Slug Incubation", "Combat", 5));
    v.push(("Resurrect", "Combat", 5));
    v.push(("Alchemy Knowledge", "Experience", 5));
    v.push(("Cure Deeriness", "Utility", 5));
    v.push(("Cure Disease", "Utility", 5));
    v.push(("Cure Pigification", "Utility", 5));
    v.push(("Flight", "Utility", 5));
    v.push(("Human Illusion", "Utility", 5));
    v.push(("Preparedness", "Utility", 5));
    v.push(("Increased Inventory", "Utility", 5));
    v.push(("Rare Loot", "Utility", 5));
    v.push(("Lame Leg", "Inutile", 5));
    // Level 7
    v.push(("Unreasonable Life Regeneration", "Combat", 7));
    v.push(("Unreasonable Max-Power Boost", "Combat", 7));
    v.push(("Poison Slug Incubation", "Combat", 7));
    v.push(("Hateable Face", "Combat", 7));
    v.push(("Deer Form", "Combat", 7));
    v.push(("Experience Boost", "Combat", 7));
    v.push(("Resurrection", "Utility", 7));
    v.push(("Teleport to Ilmari", "Utility", 7));
    v.push(("Epic Loot", "Utility", 7));
    v.push(("Elf Illusion", "Utility", 7));
    v.push(("Camel Essence", "Utility", 7));
    // Level 9
    v.push(("Teleport to Trollvale (Fae Realm)", "Teleports", 9));
    v.push(("Disgusting Body Odor", "Combat", 9));
    v.push(("Unimaginable Max-Power Boost", "Utility", 9));
    v.push(("Rakshasa Illusion", "Utility", 9));
    // Level 19
    v.push(("Teleport to Vidaria", "Teleports", 19));
    v.push(("Teleport into the Rubywall", "Teleports", 19));
    v.push(("Teleport to Povus", "Teleports", 19));
    v.push(("Everlasting Body Odor", "Combat", 19));
    v.push(("Healing Funnel", "Combat", 19));
    v.push(("Elemental Immunity", "Combat", 19));
    v.push(("Empower Steed", "Utility", 19));
    v.push(("Inner Flame", "Utility", 19));
    assert(entries_view(v@) =~= catalog_spec());
    v
}

/// Catalog entry `i` is the entry for the lower-cased name `key`.
pub open spec fn entry_matches(i: int, key: Seq<char>) -> bool {
    unicode_lowercase(catalog_spec()[i].0) == key
}

/// The last catalog entry below index `n` whose lower-cased name is `key`
/// (a lookup table built from the catalog in order keeps the last entry of a
/// name).
pub open spec fn last_match_below(key: Seq<char>, n: int) -> Option<int>
    decreases n,
{
    if n <= 0 {
        None
    } else if entry_matches(n - 1, key) {
        Some(n - 1)
    } else {
        last_match_below(key, n - 1)
    }
}

/// (category, level) for a power name: its trimmed, lower-cased form is
/// looked up among the lower-cased catalog names; unknown names get
/// `("Unknown", None)`.
pub open spec fn lookup_spec(power_name: Seq<char>) -> (Seq<char>, Option<u32>) {
    match last_match_below(unicode_lowercase(trim(power_name)), catalog_spec().len() as int) {
        Some(i) => (catalog_spec()[i].1, Some(catalog_spec()[i].2)),
        None => ("Unknown"@, None),
    }
}

/// Look up the (category, level) for a known word-of-power effect name.
/// Returns `(UNKNOWN_CATEGORY, None)` for names not in the catalog (e.g.
/// manually-added or not-yet-cataloged words).
pub fn lookup(power_name: &str) -> (r: (&'static str, Option<u32>))
    ensures
        (r.0@, r.1) == lookup_spec(power_name@),
{
    let raw = chars_of(power_name);
    let t = trimmed(&raw);
    let ts = string_of(&t);
    let key = to_lowercase(ts.as_str());
    let kc = chars_of(key.as_str());
    let cat = catalog();
    let ghost spec_key = unicode_lowercase(trim(power_name@));
    assert(kc@ == spec_key);
    let mut i: usize = cat.len();
    while i > 0
        invariant
            i <= cat@.len(),
            entries_view(cat@) == catalog_spec(),
            kc@ == spec_key,
            spec_key == unicode_lowercase(trim(power_name@)),
            last_match_below(spec_key, catalog_spec().len() as int) == last_match_below(
                spec_key,
                i as int,
            ),
        decreases i,
    {
        let (name, category, level) = cat[i - 1];
        let low = to_lowercase(name);
        let lc = chars_of(low.as_str());
        assert(catalog_spec()[i - 1] == (name@, category@, level));
        if same(&lc, &kc) {
            assert(entry_matches(i - 1, spec_key));
            return (category, Some(level));
        }
        i = i - 1;
    }
    (UNKNOWN_CATEGORY, None)
}

/// A discovered word of power, with its catalog category and level.
#[derive(Debug, Clone)]
pub struct WordOfPower {
    pub id: i64,
    pub character_name: String,
    pub server_name: String,
    pub word: String,
    pub power_name: String,
    pub description: Option<String>,
    pub discovered_at: String,
    pub source: String,
    /// From the catalog; "Unknown" for names not cataloged.
    pub category: String,
    /// From the catalog; `None` if `power_name` is not cataloged.
    pub level: Option<u32>,
}

/// A manually added word of power.
#[derive(Debug, Clone)]
pub struct AddWordInput {
    pub word: String,
    pub power_name: String,
    pub description: Option<String>,
}

impl WordOfPower {
    /// A stored word of power, completed with the catalog's category and level
    /// for its power name.
    pub fn with_catalog_lookup(
        id: i64,
        character_name: String,
        server_name: String,
        word: String,
        power_name: String,
        description: Option<String>,
        discovered_at: String,
        source: String,
    ) -> (w: Self)
        ensures
            w.id == id,
            w.character_name == character_name,
            w.server_name == server_name,
            w.word == word,
            w.power_name == power_name,
            w.description == description,
            w.discovered_at == discovered_at,
            w.source == source,
            (w.category@, w.level) == lookup_spec(power_name@),
    {
        let (category, level) = lookup(power_name.as_str());
        WordOfPower {
            id,
            character_name,
            server_name,
            word,
            power_name,
            description,
            discovered_at,
            source,
            category: category.to_owned(),
            level,
        }
    }
}

/// One of the six scroll tiers.
pub open spec fn is_tier(level: u32) -> bool {
    level == 0 || level == 3 || level == 5 || level == 7 || level == 9 || level == 19
}

/// A catalog entry at a scroll tier, with a category other than the
/// unknown one.
pub open spec fn entry_ok(e: (Seq<char>, Seq<char>, u32)) -> bool {
    is_tier(e.2) && e.1 != "Unknown"@
}

/// Every entry from index `k` on is [`entry_ok`].
pub open spec fn entries_ok_from(s: Seq<(Seq<char>, Seq<char>, u32)>, k: int) -> bool
    decreases s.len() - k,
{
    if k < 0 || k >= s.len() {
        true
    } else {
        entry_ok(s[k]) && entries_ok_from(s, k + 1)
    }
}

proof fn lemma_entries_ok_from(s: Seq<(Seq<char>, Seq<char>, u32)>, k: int, i: int)
    requires
        0 <= k <= i < s.len(),
        entries_ok_from(s, k),
    ensures
        entry_ok(s[i]),
    decreases i - k,
{
    if k < i {
        lemma_entries_ok_from(s, k + 1, i);
    }
}

#[verifier::rlimit(100)]
proof fn lemma_catalog_entries_ok()
    ensures
        entries_ok_from(catalog_spec(), 0),
{
    reveal_strlit("Unknown");
    reveal_strlit("Teleports");
    reveal_strlit("Combat");
    reveal_strlit("Utility");
    reveal_strlit("Experience");
    reveal_strlit("Debuffs");
    reveal_strlit("Inutile");
    assert("Utility"@[1] != "Unknown"@[1]);
    assert("Debuffs"@[0] != "Unknown"@[0]);
    assert("Inutile"@[0] != "Unknown"@[0]);
    let c = catalog_spec();
    assert(c.len() == 70);
    assert(entries_ok_from(c, 70));
    assert(entries_ok_from(c, 69));
    assert(entries_ok_from(c, 68));
    assert(entries_ok_from(c, 67));
    assert(entries_ok_from(c, 66));
    assert(entries_ok_from(c, 65));
    assert(entries_ok_from(c, 64));
    assert(entries_ok_from(c, 63));
    assert(entries_ok_from(c, 62));
    assert(entries_ok_from(c, 61));
    assert(entries_ok_from(c, 60));
    assert(entries_ok_from(c, 59));
    assert(entries_ok_from(c, 58));
    assert(entries_ok_from(c, 57));
    assert(entries_ok_from(c, 56));
    assert(entries_ok_from(c, 55));
    assert(entries_ok_from(c, 54));
    assert(entries_ok_from(c, 53));
    assert(entries_ok_from(c, 52));
    assert(entries_ok_from(c, 51));
    assert(entries_ok_from(c, 50));
    assert(entries_ok_from(c, 49));
    assert(entries_ok_from(c, 48));
    assert(entries_ok_from(c, 47));
    assert(entries_ok_from(c, 46));
    assert(entries_ok_from(c, 45));
    assert(entries_ok_from(c, 44));
    assert(entries_ok_from(c, 43));
    assert(entries_ok_from(c, 42));
    assert(entries_ok_from(c, 41));
    assert(entries_ok_from(c, 40));
    assert(entries_ok_from(c, 39));
    assert(entries_ok_from(c, 38));
    assert(entries_ok_from(c, 37));
    assert(entries_ok_from(c, 36));
    assert(entries_ok_from(c, 35));
    assert(entries_ok_from(c, 34));
    assert(entries_ok_from(c, 33));
    assert(entries_ok_from(c, 32));
    assert(entries_ok_from(c, 31));
    assert(entries_ok_from(c, 30));
    assert(entries_ok_from(c, 29));
    assert(entries_ok_from(c, 28));
    assert(entries_ok_from(c, 27));
    assert(entries_ok_from(c, 26));
    assert(entries_ok_from(c, 25));
    assert(entries_ok_from(c, 24));
    assert(entries_ok_from(c, 23));
    assert(entries_ok_from(c, 22));
    assert(entries_ok_from(c, 21));
    assert(entries_ok_from(c, 20));
    assert(entries_ok_from(c, 19));
    assert(entries_ok_from(c, 18));
    assert(entries_ok_from(c, 17));
    assert(entries_ok_from(c, 16));
    assert(entries_ok_from(c, 15));
    assert(entries_ok_from(c, 14));
    assert(entries_ok_from(c, 13));
    assert(entries_ok_from(c, 12));
    assert(entries_ok_from(c, 11));
    assert(entries_ok_from(c, 10));
    assert(entries_ok_from(c, 9));
    assert(entries_ok_from(c, 8));
    assert(entries_ok_from(c, 7));
    assert(entries_ok_from(c, 6));
    assert(entries_ok_from(c, 5));
    assert(entries_ok_from(c, 4));
    assert(entries_ok_from(c, 3));
    assert(entries_ok_from(c, 2));
    assert(entries_ok_from(c, 1));
    assert(entries_ok_from(c, 0));
}

proof fn lemma_last_match_in_range(key: Seq<char>, n: int)
    ensures
        last_match_below(key, n) matches Some(i) ==> 0 <= i < n,
    decreases n,
{
    if n > 0 {
        lemma_last_match_in_range(key, n - 1);
    }
}

/// A lookup finds no level exactly when it answers the unknown category,
/// and every level it finds is one of the six scroll tiers (0, 3, 5, 7, 9,
/// 19).
pub proof fn lemma_lookup_tiers(power_name: Seq<char>)
    ensures
        lookup_spec(power_name).1 is None <==> lookup_spec(power_name).0 == "Unknown"@,
        lookup_spec(power_name).1 matches Some(l) ==> is_tier(l),
{
    lemma_catalog_entries_ok();
    let key = unicode_lowercase(trim(power_name));
    lemma_last_match_in_range(key, catalog_spec().len() as int);
    if let Some(i) = last_match_below(key, catalog_spec().len() as int) {
        lemma_entries_ok_from(catalog_spec(), 0, i);
    }
}

} // verus!
