//! Where each food comes from — the Gourmand tracker's source filter.
//!
//! Every food is classified into a set of source kinds derived from the item
//! source data (a food can be both crafted and sold by a vendor), plus the
//! display names of the skills that can craft it. The kinds come in a fixed
//! priority order, so `kinds[0]` is the primary kind for badges and grouping.
use vstd::prelude::*;

use std::collections::HashMap;

use crate::text::{
    chars_of, ends_with, has_prefix_str, has_suffix_str, insert_sorted, same, starts_with,
    strictly_sorted, texts,
};

verus! {

broadcast use {vstd::string::group_string_axioms, vstd::std_specs::hash::group_hash_axioms};

/// What the classification reads of an item.
#[derive(Debug, Clone)]
pub struct ItemInfo {
    pub id: u32,
    pub name: String,
    pub internal_name: Option<String>,
    pub keywords: Vec<String>,
}

/// One source of an item: its type ("Recipe", "Vendor", ...) and, for
/// recipes, the recipe id.
#[derive(Debug, Clone)]
pub struct SourceEntry {
    pub source_type: String,
    pub recipe_id: Option<u32>,
}

/// All known sources of an item.
#[derive(Debug, Clone)]
pub struct SourceInfo {
    pub entries: Vec<SourceEntry>,
}

/// What the classification reads of a recipe: its crafting skill.
#[derive(Debug, Clone)]
pub struct RecipeInfo {
    pub id: u32,
    pub skill: Option<String>,
}

/// A skill's internal and display names.
#[derive(Debug, Clone)]
pub struct SkillInfo {
    pub id: u32,
    pub internal_name: String,
    pub name: String,
}

/// The classification of a single food.
#[derive(Debug, Clone, PartialEq, Eq, Default)]
pub struct FoodSources {
    /// Applicable source kinds, most significant first. Never empty — a food
    /// with no known source gets `["other"]`.
    pub kinds: Vec<String>,
    /// Display names of the skills that can craft this food, ascending.
    pub craft_skills: Vec<String>,
}

/// The hand-curated list of event and commemorative foods (by internal name)
/// that no name pattern covers.
pub open spec fn event_items() -> Seq<Seq<char>> {
    seq![
        "SugarStick"@,
        "CandyDrops"@,
        "FrozenFruitPop"@,
        "SummerSucker"@,
        "SugarCaterpillar"@,
        "CandyPebbles"@,
        "CelebratoryCake"@,
        "WelcomeCake"@,
        "ApologyCake"@,
        "ApologyCakeAttuned"@,
        "ThankYouCake"@,
        "BackerSnackCake"@,
    ]
}

/// `v` holds the text `s`.
pub open spec fn has_text(v: Seq<String>, s: Seq<char>) -> bool {
    exists|i: int| 0 <= i < v.len() && #[trigger] v[i]@ == s
}

/// A food handed out during a seasonal event or as a commemorative gift: the
/// Halloween candy keyword, any candy cane, any Steam anniversary cake, or one
/// of the curated event items.
pub open spec fn is_event_food_spec(item: ItemInfo) -> bool {
    ||| has_text(item.keywords@, "HalloweenCandy"@)
    ||| match item.internal_name {
        Some(n) => ends_with(n@, "CandyCane"@) || starts_with(n@, "SteamCake"@) || event_items().contains(n@),
        None => false,
    }
}

/// `v` holds the text `s`.
fn contains_text(v: &Vec<String>, s: &str) -> (b: bool)
    ensures
        b == has_text(v@, s@),
{
    let sc = chars_of(s);
    let mut i: usize = 0;
    while i < v.len()
        invariant
            i <= v@.len(),
            sc@ == s@,
            forall|j: int| 0 <= j < i ==> v@[j]@ != s@,
        decreases v@.len() - i,
    {
        let c = chars_of(v[i].as_str());
        if same(&c, &sc) {
            return true;
        }
        i = i + 1;
    }
    false
}

/// Is the food handed out during an event (see [`is_event_food_spec`])?
pub fn is_event_food(item: &ItemInfo) -> (b: bool)
    ensures
        b == is_event_food_spec(*item),
{
    if contains_text(&item.keywords, "HalloweenCandy") {
        return true;
    }
    let internal = match &item.internal_name {
        Some(n) => n,
        None => return false,
    };
    let n = chars_of(internal.as_str());
    if has_suffix_str(&n, "CandyCane") {
        return true;
    }
    if has_prefix_str(&n, "SteamCake") {
        return true;
    }
    let mut list: Vec<String> = Vec::new();
    list.push("SugarStick".to_owned());
    list.push("CandyDrops".to_owned());
    list.push("FrozenFruitPop".to_owned());
    list.push("SummerSucker".to_owned());
    list.push("SugarCaterpillar".to_owned());
    list.push("CandyPebbles".to_owned());
    list.push("CelebratoryCake".to_owned());
    list.push("WelcomeCake".to_owned());
    list.push("ApologyCake".to_owned());
    list.push("ApologyCakeAttuned".to_owned());
    list.push("ThankYouCake".to_owned());
    list.push("BackerSnackCake".to_owned());
    assert(texts(list@) =~= event_items());
    let mut i: usize = 0;
    while i < list.len()
        invariant
            i <= list@.len(),
            texts(list@) == event_items(),
            n@ == internal@,
            item.internal_name is Some,
            item.internal_name->0@ == internal@,
            forall|j: int| 0 <= j < i ==> event_items()[j] != internal@,
        decreases list@.len() - i,
    {
        let c = chars_of(list[i].as_str());
        if same(&c, &n) {
            assert(event_items()[i as int] == internal@);
            assert(event_items().contains(internal@));
            return true;
        }
        i = i + 1;
    }
    false
}

/// The display name for a skill's internal name: the last pair naming it,
/// or the internal name itself.
pub open spec fn display_name(names: Seq<(Seq<char>, Seq<char>)>, skill: Seq<char>) -> Seq<char>
    decreases names.len(),
{
    if names.len() == 0 {
        skill
    } else if names.last().0 == skill {
        names.last().1
    } else {
        display_name(names.drop_last(), skill)
    }
}

pub open spec fn pairs_view(v: Seq<(String, String)>) -> Seq<(Seq<char>, Seq<char>)> {
    v.map_values(|p: (String, String)| (p.0@, p.1@))
}

/// The crafting skill a source entry contributes: a `Recipe` entry whose
/// recipe is known and has a skill.
pub open spec fn entry_skill(e: SourceEntry, recipes: Map<u32, RecipeInfo>) -> Option<Seq<char>> {
    if e.source_type@ == "Recipe"@ && e.recipe_id is Some && recipes.contains_key(e.recipe_id->0)
        && recipes[e.recipe_id->0].skill is Some {
        Some(recipes[e.recipe_id->0].skill->0@)
    } else {
        None
    }
}

/// `s` is the display name of the skill of some entry.
pub open spec fn is_craft_skill(
    entries: Seq<SourceEntry>,
    recipes: Map<u32, RecipeInfo>,
    names: Seq<(Seq<char>, Seq<char>)>,
    s: Seq<char>,
) -> bool {
    exists|i: int|
        0 <= i < entries.len() && #[trigger] entry_skill(entries[i], recipes) is Some && display_name(
            names,
            entry_skill(entries[i], recipes)->0,
        ) == s
}

/// Some entry has source type `t`.
pub open spec fn has_type(entries: Seq<SourceEntry>, t: Seq<char>) -> bool {
    exists|i: int| 0 <= i < entries.len() && #[trigger] entries[i].source_type@ == t
}

/// `[k]` when `b`, else nothing.
pub open spec fn kind_if(b: bool, k: Seq<char>) -> Seq<Seq<char>> {
    if b {
        seq![k]
    } else {
        Seq::empty()
    }
}

/// The applicable kinds of a food, most significant first, or `["other"]`
/// when none applies.
pub open spec fn kinds_spec(item: ItemInfo, entries: Seq<SourceEntry>) -> Seq<Seq<char>> {
    let k = kind_if(has_text(item.keywords@, "Lint_NotObtainable"@), "unobtainable"@) + kind_if(
        has_type(entries, "Recipe"@),
        "crafted"@,
    ) + kind_if(is_event_food_spec(item), "event"@) + kind_if(has_type(entries, "Vendor"@), "vendor"@)
        + kind_if(has_type(entries, "Quest"@), "quest"@) + kind_if(
        has_type(entries, "NpcGift"@),
        "npc-gift"@,
    ) + kind_if(has_type(entries, "HangOut"@), "hangout"@) + kind_if(
        has_type(entries, "Barter"@),
        "barter"@,
    ) + kind_if(has_type(entries, "Item"@), "container"@);
    if k.len() == 0 {
        seq!["other"@]
    } else {
        k
    }
}

/// A food always has at least one source kind, so the first kind is its
/// primary one.
pub proof fn lemma_kinds_never_empty(item: ItemInfo, entries: Seq<SourceEntry>)
    ensures
        kinds_spec(item, entries).len() > 0,
{
}

/// A food that some skill crafts is classified as crafted: craft skills
/// come only from recipe entries.
pub proof fn lemma_craft_skill_means_crafted(
    item: ItemInfo,
    entries: Seq<SourceEntry>,
    recipes: Map<u32, RecipeInfo>,
    names: Seq<(Seq<char>, Seq<char>)>,
    s: Seq<char>,
)
    requires
        is_craft_skill(entries, recipes, names, s),
    ensures
        kinds_spec(item, entries).contains("crafted"@),
{
    let i = choose|i: int|
        0 <= i < entries.len() && #[trigger] entry_skill(entries[i], recipes) is Some && display_name(
            names,
            entry_skill(entries[i], recipes)->0,
        ) == s;
    assert(entries[i].source_type@ == "Recipe"@);
    assert(has_type(entries, "Recipe"@));
    let u = kind_if(has_text(item.keywords@, "Lint_NotObtainable"@), "unobtainable"@);
    let c = kind_if(has_type(entries, "Recipe"@), "crafted"@);
    let k = kinds_spec(item, entries);
    assert(k[u.len() as int] == "crafted"@);
}

pub open spec fn source_entries(sources: Option<&SourceInfo>) -> Seq<SourceEntry> {
    match sources {
        Some(s) => s.entries@,
        None => Seq::empty(),
    }
}

/// Does some entry have source type `t`?
fn any_type(entries: &Vec<SourceEntry>, t: &str) -> (b: bool)
    ensures
        b == has_type(entries@, t@),
{
    let tc = chars_of(t);
    let mut i: usize = 0;
    while i < entries.len()
        invariant
            i <= entries@.len(),
            tc@ == t@,
            forall|j: int| 0 <= j < i ==> entries@[j].source_type@ != t@,
        decreases entries@.len() - i,
    {
        let c = chars_of(entries[i].source_type.as_str());
        if same(&c, &tc) {
            return true;
        }
        i = i + 1;
    }
    false
}

/// The display name for a skill (see [`display_name`]).
fn display_of(names: &[(String, String)], skill: &String) -> (r: String)
    ensures
        r@ == display_name(pairs_view(names@), skill@),
{
    let sc = chars_of(skill.as_str());
    let ghost all = pairs_view(names@);
    let mut k: usize = names.len();
    assert(all.subrange(0, all.len() as int) =~= all);
    while k > 0
        invariant
            k <= names@.len(),
            all == pairs_view(names@),
            sc@ == skill@,
            display_name(all, skill@) == display_name(all.subrange(0, k as int), skill@),
        decreases k,
    {
        let c = chars_of(names[k - 1].0.as_str());
        proof {
            let s = all.subrange(0, k as int);
            assert(s.last() == all[k - 1]);
            assert(s.drop_last() =~= all.subrange(0, k - 1));
        }
        if same(&c, &sc) {
            return names[k - 1].1.clone();
        }
        k = k - 1;
    }
    skill.clone()
}

/// Appends `k` to `v` when `b`.
fn push_kind(v: &mut Vec<String>, b: bool, k: &str)
    ensures
        texts(final(v)@) == texts(old(v)@) + kind_if(b, k@),
{
    if b {
        v.push(k.to_owned());
    }
    assert(texts(v@) =~= texts(old(v)@) + kind_if(b, k@));
}

/// The display names of the crafting skills of `entries`, ascending and
/// without repeats.
fn craft_skills_of(
    entries: &Vec<SourceEntry>,
    recipes: &HashMap<u32, RecipeInfo>,
    skill_display_names: &[(String, String)],
) -> (craft: Vec<String>)
    ensures
        strictly_sorted(texts(craft@)),
        forall|s: Seq<char>|
            texts(craft@).contains(s) <==> is_craft_skill(
                entries@,
                recipes@,
                pairs_view(skill_display_names@),
                s,
            ),
{
    let ghost es = entries@;
    let ghost names = pairs_view(skill_display_names@);
    let mut craft: Vec<String> = Vec::new();
    let mut i: usize = 0;
    while i < entries.len()
        invariant
            i <= entries@.len(),
            es == entries@,
            names == pairs_view(skill_display_names@),
            strictly_sorted(texts(craft@)),
            forall|s: Seq<char>|
                texts(craft@).contains(s) <==> is_craft_skill(es.take(i as int), recipes@, names, s),
        decreases entries@.len() - i,
    {
        let e = &entries[i];
        let ghost before = texts(craft@);
        let rc = chars_of(e.source_type.as_str());
        let mut added: Option<String> = None;
        if crate::text::equals_str(&rc, "Recipe") {
            if let Some(id) = e.recipe_id {
                if let Some(r) = recipes.get(&id) {
                    if let Some(skill) = &r.skill {
                        let d = display_of(skill_display_names, skill);
                        added = Some(d);
                    }
                }
            }
        }
        proof {
            assert(entry_skill(es[i as int], recipes@) is Some ==> added is Some);
        }
        match added {
            Some(d) => {
                let ghost dv = d@;
                insert_sorted(&mut craft, d);
                proof {
                    assert(entry_skill(es[i as int], recipes@) is Some);
                    assert(display_name(names, entry_skill(es[i as int], recipes@)->0) == dv);
                    assert forall|s: Seq<char>| texts(craft@).contains(s) <==> is_craft_skill(
                        es.take(i + 1),
                        recipes@,
                        names,
                        s,
                    ) by {
                        if is_craft_skill(es.take(i + 1), recipes@, names, s) {
                            let k = choose|k: int|
                                0 <= k < es.take(i + 1).len() && #[trigger] entry_skill(
                                    es.take(i + 1)[k],
                                    recipes@,
                                ) is Some && display_name(
                                    names,
                                    entry_skill(es.take(i + 1)[k], recipes@)->0,
                                ) == s;
                            if k < i {
                                assert(es.take(i as int)[k] == es[k]);
                                assert(is_craft_skill(es.take(i as int), recipes@, names, s));
                            }
                        }
                        if before.contains(s) {
                            let k = choose|k: int|
                                0 <= k < es.take(i as int).len() && #[trigger] entry_skill(
                                    es.take(i as int)[k],
                                    recipes@,
                                ) is Some && display_name(
                                    names,
                                    entry_skill(es.take(i as int)[k], recipes@)->0,
                                ) == s;
                            assert(es.take(i + 1)[k] == es[k]);
                        }
                        if s == dv {
                            assert(es.take(i + 1)[i as int] == es[i as int]);
                        }
                    }
                }
            },
            None => {
                proof {
                    assert(entry_skill(es[i as int], recipes@) is None);
                    assert forall|s: Seq<char>| texts(craft@).contains(s) <==> is_craft_skill(
                        es.take(i + 1),
                        recipes@,
                        names,
                        s,
                    ) by {
                        if is_craft_skill(es.take(i + 1), recipes@, names, s) {
                            let k = choose|k: int|
                                0 <= k < es.take(i + 1).len() && #[trigger] entry_skill(
                                    es.take(i + 1)[k],
                                    recipes@,
                                ) is Some && display_name(
                                    names,
                                    entry_skill(es.take(i + 1)[k], recipes@)->0,
                                ) == s;
                            assert(es.take(i as int)[k] == es[k]);
                        }
                        if is_craft_skill(es.take(i as int), recipes@, names, s) {
                            let k = choose|k: int|
                                0 <= k < es.take(i as int).len() && #[trigger] entry_skill(
                                    es.take(i as int)[k],
                                    recipes@,
                                ) is Some && display_name(
                                    names,
                                    entry_skill(es.take(i as int)[k], recipes@)->0,
                                ) == s;
                            assert(es.take(i + 1)[k] == es[k]);
                        }
                    }
                }
            },
        }
        i = i + 1;
    }
    assert(es.take(es.len() as int) =~= es);
    craft
}

/// The applicable kinds of a food (see [`kinds_spec`]).
fn kinds_of(item: &ItemInfo, entries: &Vec<SourceEntry>) -> (kinds: Vec<String>)
    ensures
        texts(kinds@) == kinds_spec(*item, entries@),
{
    let mut kinds: Vec<String> = Vec::new();
    let unobtainable = contains_text(&item.keywords, "Lint_NotObtainable");
    push_kind(&mut kinds, unobtainable, "unobtainable");
    let crafted = any_type(entries, "Recipe");
    push_kind(&mut kinds, crafted, "crafted");
    let event = is_event_food(item);
    push_kind(&mut kinds, event, "event");
    let vendor = any_type(entries, "Vendor");
    push_kind(&mut kinds, vendor, "vendor");
    let quest = any_type(entries, "Quest");
    push_kind(&mut kinds, quest, "quest");
    let gift = any_type(entries, "NpcGift");
    push_kind(&mut kinds, gift, "npc-gift");
    let hangout = any_type(entries, "HangOut");
    push_kind(&mut kinds, hangout, "hangout");
    let barter = any_type(entries, "Barter");
    push_kind(&mut kinds, barter, "barter");
    let container = any_type(entries, "Item");
    push_kind(&mut kinds, container, "container");
    if kinds.len() == 0 {
        kinds.push("other".to_owned());
        assert(texts(kinds@) =~= seq!["other"@]);
    }
    kinds
}

/// Classify one food: its source kinds in priority order and the display
/// names of the skills that craft it. `sources` is the item's source entry
/// list (absent when none is known), `recipes` resolves `Recipe` entries to
/// their crafting skill, and `skill_display_names` maps a skill's internal
/// name to its display name.
pub fn classify(
    item: &ItemInfo,
    sources: Option<&SourceInfo>,
    recipes: &HashMap<u32, RecipeInfo>,
    skill_display_names: &[(String, String)],
) -> (r: FoodSources)
    ensures
        texts(r.kinds@) == kinds_spec(*item, source_entries(sources)),
        strictly_sorted(texts(r.craft_skills@)),
        forall|s: Seq<char>|
            texts(r.craft_skills@).contains(s) <==> is_craft_skill(
                source_entries(sources),
                recipes@,
                pairs_view(skill_display_names@),
                s,
            ),
{
    let empty: Vec<SourceEntry> = Vec::new();
    let entries: &Vec<SourceEntry> = match sources {
        Some(s) => &s.entries,
        None => &empty,
    };
    assert(entries@ == source_entries(sources));
    let craft = craft_skills_of(entries, recipes, skill_display_names);
    let kinds = kinds_of(item, entries);
    FoodSources { kinds, craft_skills: craft }
}

/// The `internal name → display name` pairs [`classify`] expects, one per
/// skill, in the given order.
pub fn skill_display_names(skills: &[SkillInfo]) -> (r: Vec<(String, String)>)
    ensures
        pairs_view(r@).len() == skills@.len(),
        forall|j: int|
            0 <= j < skills@.len() ==> #[trigger] pairs_view(r@)[j] == (
                skills@[j].internal_name@,
                skills@[j].name@,
            ),
{
    let mut r: Vec<(String, String)> = Vec::new();
    let mut i: usize = 0;
    while i < skills.len()
        invariant
            i <= skills@.len(),
            r@.len() == i,
            forall|j: int|
                0 <= j < i ==> #[trigger] pairs_view(r@)[j] == (
                    skills@[j].internal_name@,
                    skills@[j].name@,
                ),
        decreases skills@.len() - i,
    {
        let a = skills[i].internal_name.clone();
        let b = skills[i].name.clone();
        let ghost old_r = r@;
        let ghost av = a@;
        let ghost bv = b@;
        r.push((a, b));
        proof {
            assert(r@[i as int].0@ == av);
            assert(pairs_view(r@)[i as int] == (av, bv));
            assert forall|j: int| 0 <= j < i + 1 implies #[trigger] pairs_view(r@)[j] == (
                skills@[j].internal_name@,
                skills@[j].name@,
            ) by {
                if j < i {
                    assert(r@[j] == old_r[j]);
                    assert(pairs_view(old_r)[j] == pairs_view(r@)[j]);
                }
            }
        }
        i = i + 1;
    }
    r
}

} // verus!
