//! Ability data: the ids of the ability table and the attribute tokens that
//! decide which gear mods feed which of an ability's numbers.
//!
//! An ability lists, per number it shows (direct damage, a damage-over-time
//! tick, a heal, a cost), the attribute tokens whose mods change it. Damage
//! over time is indirect damage: besides its own tokens, the generic
//! indirect tokens of its damage type and the universal ones apply. The
//! arithmetic on the mods' values is done by the caller.
use vstd::prelude::*;

use crate::text::{
    chars_of, contains, decimal, decimal_chars, find_last, join3, parse_u32, parse_u32_spec,
    ends_with, push_all, rfind, slice, string_of, texts, to_lowercase, to_uppercase, unicode_lowercase,
    unicode_uppercase,
};

verus! {

broadcast use vstd::string::group_string_axioms;

/// A group of ability tiers that are the same base ability at different
/// power levels.
pub struct AbilityFamily {
    /// Internal name of the base (tier 1) ability, the family key.
    pub base_internal_name: String,
    /// Display name of the base ability (without tier number).
    pub base_name: String,
    pub icon_id: Option<u32>,
    pub skill: Option<String>,
    pub damage_type: Option<String>,
    /// A monster-only ability (has the `Lint_MonsterAbility` keyword).
    pub is_monster_ability: bool,
    /// Tier ability ids, ascending by level.
    pub tier_ids: Vec<u32>,
}

// ───────────────────────────── ability table keys ─────────────────────────────

/// The part of a key after its last `_` (the whole key when it has none).
pub open spec fn last_piece(key: Seq<char>) -> Seq<char> {
    match find_last(key, seq!['_']) {
        Some(i) => key.subrange(i + 1, key.len() as int),
        None => key,
    }
}

/// The id an ability table key (`ability_<id>`) names: its last
/// `_`-separated piece read as a `u32`.
pub open spec fn key_id(key: Seq<char>) -> Option<u32> {
    parse_u32_spec(last_piece(key))
}

/// See [`key_id`]; keys that name no id are skipped by the caller.
pub fn ability_id_from_key(key: &str) -> (r: Option<u32>)
    ensures
        r == key_id(key@),
{
    let k = chars_of(key);
    let sep = vec!['_'];
    assert(sep@ =~= seq!['_']);
    let piece = match rfind(&k, &sep) {
        Some(i) => {
            assert(crate::text::occurs_at(k@, sep@, i as int));
            assert(sep@.len() == 1);
            let n = k.len();
            assert(i + 1 <= n);
            slice(&k, i + 1, n)
        },
        None => slice(&k, 0, k.len()),
    };
    assert(k@.subrange(0, k@.len() as int) =~= k@);
    parse_u32(&piece)
}

/// The name an ability is listed under: its own, or `Unknown Ability <id>`.
pub fn ability_name(name: Option<String>, id: u32) -> (r: String)
    ensures
        r@ == match name {
            Some(n) => n@,
            None => "Unknown Ability "@ + decimal(id as nat),
        },
{
    match name {
        Some(n) => n,
        None => {
            let mut v = chars_of("Unknown Ability ");
            let d = decimal_chars(id as u64);
            push_all(&mut v, &d);
            string_of(&v)
        },
    }
}

// ───────────────────────────── indirect tokens ─────────────────────────────

/// The generic indirect-damage tokens for a damage type: the universal one,
/// then the one of the type (upper-cased), e.g. `BOOST_UNIVERSAL_INDIRECT`,
/// `BOOST_PSYCHIC_INDIRECT`. `prefix` is `BOOST` (flat) or `MOD` (percent).
pub open spec fn indirect_token_list(prefix: Seq<char>, damage_type: Option<Seq<char>>) -> Seq<
    Seq<char>,
> {
    seq![prefix + "_UNIVERSAL_INDIRECT"@] + match damage_type {
        Some(dt) => seq![prefix + "_"@ + unicode_uppercase(dt) + "_INDIRECT"@],
        None => Seq::empty(),
    }
}

pub open spec fn opt_str(o: Option<&str>) -> Option<Seq<char>> {
    match o {
        Some(s) => Some(s@),
        None => None,
    }
}

/// See [`indirect_token_list`].
pub fn indirect_tokens(prefix: &str, damage_type: Option<&str>) -> (r: Vec<String>)
    ensures
        texts(r@) == indirect_token_list(prefix@, opt_str(damage_type)),
{
    let mut v: Vec<String> = Vec::new();
    v.push(join3(prefix, "_UNIVERSAL_INDIRECT", ""));
    proof {
        assert(""@ =~= Seq::<char>::empty()) by {
            reveal_strlit("");
        }
    }
    match damage_type {
        Some(dt) => {
            let up = to_uppercase(dt);
            let head = join3(prefix, "_", up.as_str());
            v.push(join3(head.as_str(), "_INDIRECT", ""));
            assert(texts(v@) =~= indirect_token_list(prefix@, opt_str(damage_type)));
        },
        None => {
            assert(texts(v@) =~= indirect_token_list(prefix@, opt_str(damage_type)));
        },
    }
    v
}

// ───────────────────────────── damage over time ─────────────────────────────

/// What the mod selection reads of a damage-over-time component.
pub struct DotTokens {
    pub damage_type: Option<String>,
    /// Flat additions to the per-tick damage.
    pub attributes_that_delta: Vec<String>,
    /// Percentage multipliers on the per-tick damage.
    pub attributes_that_mod: Vec<String>,
}

pub open spec fn opt_text(o: Option<String>) -> Option<Seq<char>> {
    match o {
        Some(s) => Some(s@),
        None => None,
    }
}

/// The tokens whose mods feed a tick: flat ones (the component's own, then
/// `BOOST_..._INDIRECT`) and percent ones (its own, then `MOD_..._INDIRECT`).
/// The ability's direct-damage and base-skill tokens never do.
pub fn dot_tokens(dot: &DotTokens) -> (r: (Vec<String>, Vec<String>))
    ensures
        texts(r.0@) == texts(dot.attributes_that_delta@) + indirect_token_list(
            "BOOST"@,
            opt_text(dot.damage_type),
        ),
        texts(r.1@) == texts(dot.attributes_that_mod@) + indirect_token_list(
            "MOD"@,
            opt_text(dot.damage_type),
        ),
{
    let dt: Option<&str> = match &dot.damage_type {
        Some(s) => Some(s.as_str()),
        None => None,
    };
    assert(opt_str(dt) == opt_text(dot.damage_type));
    let mut flat = dot.attributes_that_delta.clone();
    let mut more = indirect_tokens("BOOST", dt);
    let ghost f0 = flat@;
    let ghost m0 = more@;
    flat.append(&mut more);
    assert(texts(flat@) =~= texts(f0) + texts(m0));
    let mut pct = dot.attributes_that_mod.clone();
    let mut more2 = indirect_tokens("MOD", dt);
    let ghost p0 = pct@;
    let ghost m1 = more2@;
    pct.append(&mut more2);
    assert(texts(pct@) =~= texts(p0) + texts(m1));
    (flat, pct)
}

// ───────────────────────────── special values ─────────────────────────────

/// What the mod selection reads of a labeled value (heal, restore, ...).
pub struct SpecialValueTokens {
    pub label: Option<String>,
    pub suffix: Option<String>,
    /// Flat additions to the base value.
    pub attributes_that_delta_base: Vec<String>,
    /// Flat additions applied after the base.
    pub attributes_that_delta: Vec<String>,
    /// Percentage multipliers.
    pub attributes_that_mod: Vec<String>,
}

/// A token that marks damage over time.
pub open spec fn dot_marker(t: Seq<char>) -> bool {
    contains(t, "ABILITYDOT"@) || contains(t, "_INDIRECT"@)
}

/// Some token of the list marks damage over time.
pub open spec fn has_dot_marker(v: Seq<Seq<char>>) -> bool {
    exists|i: int| 0 <= i < v.len() && #[trigger] dot_marker(v[i])
}

/// A labeled value is indirect damage when one of its own tokens marks
/// damage over time; heals and armor over time carry no such token.
pub open spec fn is_indirect_spec(sv: SpecialValueTokens) -> bool {
    has_dot_marker(
        texts(sv.attributes_that_delta_base@) + texts(sv.attributes_that_delta@) + texts(
            sv.attributes_that_mod@,
        ),
    )
}

fn any_marker(v: &Vec<String>) -> (b: bool)
    ensures
        b == has_dot_marker(texts(v@)),
{
    let mut i: usize = 0;
    while i < v.len()
        invariant
            i <= v@.len(),
            forall|j: int| 0 <= j < i ==> !dot_marker(#[trigger] texts(v@)[j]),
        decreases v@.len() - i,
    {
        let c = chars_of(v[i].as_str());
        if crate::text::has_str(&c, "ABILITYDOT") || crate::text::has_str(&c, "_INDIRECT") {
            assert(dot_marker(texts(v@)[i as int]));
            return true;
        }
        i = i + 1;
    }
    false
}

proof fn lemma_marker_concat(a: Seq<Seq<char>>, b: Seq<Seq<char>>)
    ensures
        has_dot_marker(a + b) == (has_dot_marker(a) || has_dot_marker(b)),
{
    if has_dot_marker(a + b) {
        let i = choose|i: int| 0 <= i < (a + b).len() && #[trigger] dot_marker((a + b)[i]);
        if i < a.len() {
            assert(dot_marker(a[i]));
        } else {
            assert(dot_marker(b[i - a.len()]));
        }
    }
    if has_dot_marker(a) {
        let i = choose|i: int| 0 <= i < a.len() && #[trigger] dot_marker(a[i]);
        assert(dot_marker((a + b)[i]));
    }
    if has_dot_marker(b) {
        let i = choose|i: int| 0 <= i < b.len() && #[trigger] dot_marker(b[i]);
        assert(dot_marker((a + b)[a.len() + i]));
    }
}

/// See [`is_indirect_spec`].
pub fn is_indirect_damage(sv: &SpecialValueTokens) -> (b: bool)
    ensures
        b == is_indirect_spec(*sv),
{
    proof {
        lemma_marker_concat(texts(sv.attributes_that_delta_base@), texts(sv.attributes_that_delta@));
        lemma_marker_concat(
            texts(sv.attributes_that_delta_base@) + texts(sv.attributes_that_delta@),
            texts(sv.attributes_that_mod@),
        );
    }
    any_marker(&sv.attributes_that_delta_base) || any_marker(&sv.attributes_that_delta)
        || any_marker(&sv.attributes_that_mod)
}

/// The damage types whose upper-cased names appear in the generic
/// `*_<TYPE>_INDIRECT` tokens, in the order they are looked for.
pub open spec fn damage_types() -> Seq<Seq<char>> {
    seq![
        "Acid"@,
        "Cold"@,
        "Crushing"@,
        "Darkness"@,
        "Demonic"@,
        "Divine"@,
        "Electricity"@,
        "Fire"@,
        "Fungus"@,
        "Nature"@,
        "Piercing"@,
        "Poison"@,
        "Psychic"@,
        "Seafood"@,
        "Slashing"@,
        "Sonic"@,
        "Trauma"@,
    ]
}

/// The text a labeled value names its damage type in: label and suffix
/// (each empty when absent) joined by a space, lower-cased.
pub open spec fn label_text(sv: SpecialValueTokens) -> Seq<char> {
    let label = match sv.label {
        Some(l) => l@,
        None => Seq::empty(),
    };
    let suffix = match sv.suffix {
        Some(x) => x@,
        None => Seq::empty(),
    };
    unicode_lowercase(label + " "@ + suffix)
}

/// The first damage type, from the `k`-th on, whose lower-cased name the
/// text contains.
pub open spec fn first_type_from(text: Seq<char>, k: int) -> Option<Seq<char>>
    decreases damage_types().len() - k,
{
    if k < 0 || k >= damage_types().len() {
        None
    } else if contains(text, unicode_lowercase(damage_types()[k])) {
        Some(damage_types()[k])
    } else {
        first_type_from(text, k + 1)
    }
}

/// The damage type a labeled value names (e.g. "Trauma damage" names
/// Trauma), if any.
pub open spec fn named_damage_type(sv: SpecialValueTokens) -> Option<Seq<char>> {
    first_type_from(label_text(sv), 0)
}

/// See [`named_damage_type`].
pub fn damage_type_named(sv: &SpecialValueTokens) -> (r: Option<String>)
    ensures
        opt_text(r) == named_damage_type(*sv),
{
    let label: &str = match &sv.label {
        Some(l) => l.as_str(),
        None => "",
    };
    let suffix: &str = match &sv.suffix {
        Some(x) => x.as_str(),
        None => "",
    };
    proof {
        assert(""@ =~= Seq::<char>::empty()) by {
            reveal_strlit("");
        }
    }
    let joined = join3(label, " ", suffix);
    let lowered = to_lowercase(joined.as_str());
    let text = chars_of(lowered.as_str());
    let ghost tv = label_text(*sv);
    assert(text@ == tv);
    let types: [&str; 17] = [
        "Acid",
        "Cold",
        "Crushing",
        "Darkness",
        "Demonic",
        "Divine",
        "Electricity",
        "Fire",
        "Fungus",
        "Nature",
        "Piercing",
        "Poison",
        "Psychic",
        "Seafood",
        "Slashing",
        "Sonic",
        "Trauma",
    ];
    assert(types@.map_values(|t: &str| t@) =~= damage_types());
    let mut k: usize = 0;
    while k < 17
        invariant
            k <= 17,
            text@ == tv,
            tv == label_text(*sv),
            types@.map_values(|t: &str| t@) == damage_types(),
            first_type_from(tv, 0) == first_type_from(tv, k as int),
        decreases 17 - k,
    {
        let t = types[k];
        assert(t@ == damage_types()[k as int]);
        let low = to_lowercase(t);
        let lc = chars_of(low.as_str());
        if crate::text::has(&text, &lc) {
            assert(lc@ == unicode_lowercase(damage_types()[k as int]));
            assert(first_type_from(tv, k as int) == Some(damage_types()[k as int]));
            let found = t.to_owned();
            assert(found@ == t@);
            return Some(found);
        }
        k = k + 1;
    }
    None
}

/// The tokens whose mods feed a labeled value after its base: flat ones and
/// percent ones. An indirect-damage value also takes the generic indirect
/// tokens of the damage type it names, like a damage-over-time tick.
pub fn special_value_tokens(sv: &SpecialValueTokens) -> (r: (Vec<String>, Vec<String>))
    ensures
        is_indirect_spec(*sv) ==> texts(r.0@) == texts(sv.attributes_that_delta@)
            + indirect_token_list("BOOST"@, named_damage_type(*sv)) && texts(r.1@) == texts(
            sv.attributes_that_mod@,
        ) + indirect_token_list("MOD"@, named_damage_type(*sv)),
        !is_indirect_spec(*sv) ==> texts(r.0@) == texts(sv.attributes_that_delta@) && texts(r.1@)
            == texts(sv.attributes_that_mod@),
{
    let mut delta = sv.attributes_that_delta.clone();
    let mut mods = sv.attributes_that_mod.clone();
    if is_indirect_damage(sv) {
        let named = damage_type_named(sv);
        let dt: Option<&str> = match &named {
            Some(s) => Some(s.as_str()),
            None => None,
        };
        assert(opt_str(dt) == named_damage_type(*sv));
        let mut more = indirect_tokens("BOOST", dt);
        let ghost d0 = delta@;
        let ghost m0 = more@;
        delta.append(&mut more);
        assert(texts(delta@) =~= texts(d0) + texts(m0));
        let mut more2 = indirect_tokens("MOD", dt);
        let ghost p0 = mods@;
        let ghost m1 = more2@;
        mods.append(&mut more2);
        assert(texts(mods@) =~= texts(p0) + texts(m1));
    }
    (delta, mods)
}

// ───────────────────────────── buckets ─────────────────────────────

/// The positions, among the first `n` mods, of those whose token is listed,
/// in mod order.
pub open spec fn bucket_upto(mods: Seq<Seq<char>>, tokens: Seq<Seq<char>>, n: int) -> Seq<usize>
    decreases n,
{
    if n <= 0 {
        Seq::empty()
    } else {
        let r = bucket_upto(mods, tokens, n - 1);
        if tokens.contains(mods[n - 1]) {
            r.push((n - 1) as usize)
        } else {
            r
        }
    }
}

/// The mods that feed a bucket: those whose token is one of the bucket's
/// tokens, in mod order.
pub open spec fn bucket(mods: Seq<Seq<char>>, tokens: Seq<Seq<char>>) -> Seq<usize> {
    bucket_upto(mods, tokens, mods.len() as int)
}

fn listed(tokens: &[String], t: &[char]) -> (b: bool)
    ensures
        b == texts(tokens@).contains(t@),
{
    let mut i: usize = 0;
    while i < tokens.len()
        invariant
            i <= tokens@.len(),
            forall|j: int| 0 <= j < i ==> texts(tokens@)[j] != t@,
        decreases tokens@.len() - i,
    {
        let c = chars_of(tokens[i].as_str());
        if crate::text::same(&c, t) {
            assert(texts(tokens@)[i as int] == t@);
            return true;
        }
        i = i + 1;
    }
    false
}

/// The positions of the mods (given by their tokens) that feed a bucket
/// listing `tokens` (see [`bucket`]).
pub fn bucket_members(mod_tokens: &[String], tokens: &[String]) -> (r: Vec<usize>)
    ensures
        r@ == bucket(texts(mod_tokens@), texts(tokens@)),
{
    let ghost mv = texts(mod_tokens@);
    let ghost tv = texts(tokens@);
    let mut r: Vec<usize> = Vec::new();
    let mut i: usize = 0;
    while i < mod_tokens.len()
        invariant
            i <= mod_tokens@.len(),
            mv == texts(mod_tokens@),
            tv == texts(tokens@),
            r@ == bucket_upto(mv, tv, i as int),
        decreases mod_tokens@.len() - i,
    {
        let c = chars_of(mod_tokens[i].as_str());
        assert(c@ == mv[i as int]);
        if listed(tokens, &c) {
            r.push(i);
        }
        i = i + 1;
    }
    r
}

// ───────────────────────────── direct mods and ticks ─────────────────────────────

/// Every generic indirect token ends in `_INDIRECT`.
proof fn lemma_indirect_tokens_end(prefix: Seq<char>, damage_type: Option<Seq<char>>, j: int)
    requires
        0 <= j < indirect_token_list(prefix, damage_type).len(),
    ensures
        ends_with(indirect_token_list(prefix, damage_type)[j], "_INDIRECT"@),
{
    reveal_strlit("_INDIRECT");
    reveal_strlit("_UNIVERSAL_INDIRECT");
    let l = indirect_token_list(prefix, damage_type);
    let t = l[j];
    if j == 0 {
        assert(t == prefix + "_UNIVERSAL_INDIRECT"@);
        assert(t.subrange(t.len() - 9, t.len() as int) =~= "_INDIRECT"@);
    } else {
        let dt = damage_type->0;
        assert(t == prefix + "_"@ + unicode_uppercase(dt) + "_INDIRECT"@);
        assert(t.subrange(t.len() - 9, t.len() as int) =~= "_INDIRECT"@);
    }
}

/// A mod feeds a bucket of a damage-over-time tick only through the
/// tick's own tokens or a generic `_INDIRECT` one.
proof fn lemma_direct_token_not_listed(
    own: Seq<Seq<char>>,
    prefix: Seq<char>,
    damage_type: Option<Seq<char>>,
    t: Seq<char>,
)
    requires
        !own.contains(t),
        !ends_with(t, "_INDIRECT"@),
    ensures
        !(own + indirect_token_list(prefix, damage_type)).contains(t),
{
    let all = own + indirect_token_list(prefix, damage_type);
    if all.contains(t) {
        let k = choose|k: int| 0 <= k < all.len() && all[k] == t;
        if k < own.len() {
            assert(own[k] == t);
        } else {
            lemma_indirect_tokens_end(prefix, damage_type, k - own.len());
        }
    }
}

proof fn lemma_bucket_upto_members(mods: Seq<Seq<char>>, tokens: Seq<Seq<char>>, n: int, k: int)
    requires
        0 <= k < mods.len(),
        n <= mods.len(),
        mods.len() <= usize::MAX,
        !tokens.contains(mods[k]),
    ensures
        !bucket_upto(mods, tokens, n).contains(k as usize),
    decreases n,
{
    if n > 0 {
        lemma_bucket_upto_members(mods, tokens, n - 1, k);
        let r = bucket_upto(mods, tokens, n - 1);
        if tokens.contains(mods[n - 1]) {
            assert(n - 1 != k);
            let r2 = r.push((n - 1) as usize);
            if r2.contains(k as usize) {
                let q = choose|q: int| 0 <= q < r2.len() && #[trigger] r2[q] == k as usize;
                assert(r2[r.len() as int] == (n - 1) as usize);
                assert(q < r.len());
                assert(r[q] == k as usize);
            }
        }
    }
}

proof fn lemma_bucket_upto_push(mods: Seq<Seq<char>>, x: Seq<char>, tokens: Seq<Seq<char>>, n: int)
    requires
        n <= mods.len(),
    ensures
        bucket_upto(mods.push(x), tokens, n) == bucket_upto(mods, tokens, n),
    decreases n,
{
    if n > 0 {
        lemma_bucket_upto_push(mods, x, tokens, n - 1);
        assert(mods.push(x)[n - 1] == mods[n - 1]);
    }
}

/// Direct-only mods never reach damage over time: a mod whose token is none
/// of a tick's own tokens (`own`, its flat or its percent list) and no
/// generic `_INDIRECT` token is in neither of the tick's buckets (see
/// [`dot_tokens`]), and adding such a mod leaves the tick's bucket as it
/// was.
pub proof fn lemma_direct_mods_miss_dots(
    own: Seq<Seq<char>>,
    prefix: Seq<char>,
    damage_type: Option<Seq<char>>,
    mods: Seq<Seq<char>>,
    x: Seq<char>,
)
    requires
        !own.contains(x),
        !ends_with(x, "_INDIRECT"@),
        mods.len() <= usize::MAX,
    ensures
        forall|k: int|
            0 <= k < mods.len() && mods[k] == x ==> !bucket(
                mods,
                own + indirect_token_list(prefix, damage_type),
            ).contains(k as usize),
        bucket(mods.push(x), own + indirect_token_list(prefix, damage_type)) == bucket(
            mods,
            own + indirect_token_list(prefix, damage_type),
        ),
{
    let tokens = own + indirect_token_list(prefix, damage_type);
    lemma_direct_token_not_listed(own, prefix, damage_type, x);
    assert forall|k: int| 0 <= k < mods.len() && mods[k] == x implies !bucket(
        mods,
        tokens,
    ).contains(k as usize) by {
        lemma_bucket_upto_members(mods, tokens, mods.len() as int, k);
    }
    lemma_bucket_upto_push(mods, x, tokens, mods.len() as int);
    assert(mods.push(x)[mods.len() as int] == x);
}

} // verus!
