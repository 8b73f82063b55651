//! Chat Status channel parser: turns `[Status]` messages into structured
//! events.
//!
//! Stateless: each message maps to zero or one event. Accumulation and
//! cross-stream correlation are left to the features that subscribe to them.
use vstd::prelude::*;

use crate::chat::{opt_is, timestamp_text, ChatMessage};
use crate::text::{
    chars_of, contains, ends_with, equals_str, find, find_first, find_last, has_prefix,
    has_prefix_str, has_str, opt_chars, has_suffix, has_suffix_str, parse_i64, parse_i64_spec, parse_u32,
    parse_u32_spec, remove_char, rfind, slice, starts_with, string_of, strip_prefix, strip_suffix,
    trim, trimmed, without_char, all_digits, digits_value, is_ascii_digit,
};

verus! {

broadcast use vstd::string::group_string_axioms;

/// A structured event read from one `[Status]` message.
#[derive(Debug, Clone)]
pub enum ChatStatusEvent {
    /// "X added to inventory." / "X xN added to inventory."
    ItemGained { timestamp: String, item_name: String, quantity: u32 },
    /// "You earned N XP in Skill."
    XpGained { timestamp: String, skill: String, amount: u32 },
    /// "You earned N Prodigy XP in Skill." — combat XP overflow of a maxed
    /// combat skill, which feeds Prodigy Potential rather than skill XP.
    ProdigyXpGained { timestamp: String, skill: String, amount: u32 },
    /// "You earned N Combat Wisdom: Killed the Aktaari Queen". The reason names
    /// the monster after a verb, with an optional trailing " (Zone)"; the
    /// "Earned a Prodigy Level" reason is no monster (`source_name` is `None`).
    CombatWisdomEarned {
        timestamp: String,
        amount: u32,
        source_name: Option<String>,
        verb: String,
        zone: Option<String>,
    },
    /// "You earned N XP and reached level L in Skill!"
    LevelUp { timestamp: String, skill: String, level: u32, xp: u32 },
    /// "You searched the corpse and found N coins."
    CoinsLooted { timestamp: String, amount: u32 },
    /// A signed change of the council wallet.
    CouncilsChanged { timestamp: String, amount: i64 },
    /// "The treasure is N meters from here."
    TreasureDistance { timestamp: String, meters: u32 },
    /// "You bury the corpse." / "You botch the autopsy!"
    AnatomyResult { timestamp: String, success: bool },
    /// "Summoned X xN"
    Summoned { timestamp: String, item_name: String, quantity: u32 },
    /// "CrudBurst's Hammer of Thumping carefully studied!"
    ItemStudied { timestamp: String, item_name: String },
    /// "Saved report to C:/.../Reports/Character_Foo.json"
    ReportSaved { timestamp: String, file_path: String },
    /// "Roulette ball ended on N!" — the winning number of a roulette spin.
    RouletteResult { timestamp: String, number: u32 },
}

/// The mathematical content of a [`ChatStatusEvent`].
pub enum StatusEvent {
    ItemGained { timestamp: Seq<char>, item_name: Seq<char>, quantity: u32 },
    XpGained { timestamp: Seq<char>, skill: Seq<char>, amount: u32 },
    ProdigyXpGained { timestamp: Seq<char>, skill: Seq<char>, amount: u32 },
    CombatWisdomEarned {
        timestamp: Seq<char>,
        amount: u32,
        source_name: Option<Seq<char>>,
        verb: Seq<char>,
        zone: Option<Seq<char>>,
    },
    LevelUp { timestamp: Seq<char>, skill: Seq<char>, level: u32, xp: u32 },
    CoinsLooted { timestamp: Seq<char>, amount: u32 },
    CouncilsChanged { timestamp: Seq<char>, amount: i64 },
    TreasureDistance { timestamp: Seq<char>, meters: u32 },
    AnatomyResult { timestamp: Seq<char>, success: bool },
    Summoned { timestamp: Seq<char>, item_name: Seq<char>, quantity: u32 },
    ItemStudied { timestamp: Seq<char>, item_name: Seq<char> },
    ReportSaved { timestamp: Seq<char>, file_path: Seq<char> },
    RouletteResult { timestamp: Seq<char>, number: u32 },
}

pub open spec fn opt_view(o: Option<String>) -> Option<Seq<char>> {
    match o {
        Some(s) => Some(s@),
        None => None,
    }
}

impl View for ChatStatusEvent {
    type V = StatusEvent;

    open spec fn view(&self) -> StatusEvent {
        match *self {
            ChatStatusEvent::ItemGained { timestamp, item_name, quantity } => StatusEvent::ItemGained {
                timestamp: timestamp@,
                item_name: item_name@,
                quantity,
            },
            ChatStatusEvent::XpGained { timestamp, skill, amount } => StatusEvent::XpGained {
                timestamp: timestamp@,
                skill: skill@,
                amount,
            },
            ChatStatusEvent::ProdigyXpGained { timestamp, skill, amount } =>
                StatusEvent::ProdigyXpGained { timestamp: timestamp@, skill: skill@, amount },
            ChatStatusEvent::CombatWisdomEarned { timestamp, amount, source_name, verb, zone } =>
                StatusEvent::CombatWisdomEarned {
                timestamp: timestamp@,
                amount,
                source_name: opt_view(source_name),
                verb: verb@,
                zone: opt_view(zone),
            },
            ChatStatusEvent::LevelUp { timestamp, skill, level, xp } => StatusEvent::LevelUp {
                timestamp: timestamp@,
                skill: skill@,
                level,
                xp,
            },
            ChatStatusEvent::CoinsLooted { timestamp, amount } => StatusEvent::CoinsLooted {
                timestamp: timestamp@,
                amount,
            },
            ChatStatusEvent::CouncilsChanged { timestamp, amount } => StatusEvent::CouncilsChanged {
                timestamp: timestamp@,
                amount,
            },
            ChatStatusEvent::TreasureDistance { timestamp, meters } =>
                StatusEvent::TreasureDistance { timestamp: timestamp@, meters },
            ChatStatusEvent::AnatomyResult { timestamp, success } => StatusEvent::AnatomyResult {
                timestamp: timestamp@,
                success,
            },
            ChatStatusEvent::Summoned { timestamp, item_name, quantity } => StatusEvent::Summoned {
                timestamp: timestamp@,
                item_name: item_name@,
                quantity,
            },
            ChatStatusEvent::ItemStudied { timestamp, item_name } => StatusEvent::ItemStudied {
                timestamp: timestamp@,
                item_name: item_name@,
            },
            ChatStatusEvent::ReportSaved { timestamp, file_path } => StatusEvent::ReportSaved {
                timestamp: timestamp@,
                file_path: file_path@,
            },
            ChatStatusEvent::RouletteResult { timestamp, number } => StatusEvent::RouletteResult {
                timestamp: timestamp@,
                number,
            },
        }
    }
}

/// The content of an optional event.
pub open spec fn event_view(o: Option<ChatStatusEvent>) -> Option<StatusEvent> {
    match o {
        Some(e) => Some(e@),
        None => None,
    }
}

// ───────────────────────────── what each pattern means ─────────────────────────────

/// "ItemName xN" → (ItemName, N); without a parsable " xN" tail the whole text
/// is the name and the quantity is 1.
pub open spec fn name_and_quantity(t: Seq<char>) -> (Seq<char>, u32) {
    match find_last(t, " x"@) {
        Some(x) => match parse_u32_spec(t.subrange(x + " x"@.len(), t.len() as int)) {
            Some(q) => (t.subrange(0, x), q),
            None => (t, 1),
        },
        None => (t, 1),
    }
}

/// The highest number of the European single-zero wheel: a spin ends on
/// 0..=36.
pub const MAX_ROULETTE_NUMBER: u32 = 36;

/// "Roulette ball ended on N!" with N on the wheel (0..=36); any other number
/// is no spin result.
pub open spec fn roulette_spec(t: Seq<char>, ts: Seq<char>) -> Option<StatusEvent> {
    match strip_prefix(t, "Roulette ball ended on "@) {
        Some(a) => match strip_suffix(a, "!"@) {
            Some(inner) => match parse_u32_spec(inner) {
                Some(n) => if n <= MAX_ROULETTE_NUMBER {
                    Some(StatusEvent::RouletteResult { timestamp: ts, number: n })
                } else {
                    None
                },
                None => None,
            },
            None => None,
        },
        None => None,
    }
}

pub open spec fn item_gained_spec(t: Seq<char>, ts: Seq<char>) -> Option<StatusEvent> {
    match strip_suffix(t, " added to inventory."@) {
        Some(prefix) => Some(
            StatusEvent::ItemGained {
                timestamp: ts,
                item_name: name_and_quantity(prefix).0,
                quantity: name_and_quantity(prefix).1,
            },
        ),
        None => None,
    }
}

/// Splits "<Verb> <rest>" at the first space (no space: all verb, empty rest).
pub open spec fn verb_and_rest(reason: Seq<char>) -> (Seq<char>, Seq<char>) {
    match find_first(reason, seq![' ']) {
        Some(s) => (reason.subrange(0, s), reason.subrange(s + 1, reason.len() as int)),
        None => (reason, Seq::<char>::empty()),
    }
}

/// Splits "<name> (<zone>)" into the name and the zone; anything else is all name.
pub open spec fn name_and_zone(rest: Seq<char>) -> (Seq<char>, Option<Seq<char>>) {
    if ends_with(rest, seq![')']) && find_last(rest, " ("@) is Some {
        let open = find_last(rest, " ("@)->0;
        (rest.subrange(0, open), Some(rest.subrange(open + " ("@.len(), rest.len() - 1)))
    } else {
        (rest, None)
    }
}

/// The Combat Wisdom event for `amount` and a non-empty `reason`.
pub open spec fn wisdom_event(ts: Seq<char>, amount: u32, reason: Seq<char>) -> StatusEvent {
    if reason == "Earned a Prodigy Level"@ {
        StatusEvent::CombatWisdomEarned {
            timestamp: ts,
            amount,
            source_name: None,
            verb: "Earned"@,
            zone: None,
        }
    } else {
        let name = name_and_zone(verb_and_rest(reason).1).0;
        StatusEvent::CombatWisdomEarned {
            timestamp: ts,
            amount,
            source_name: if name.len() == 0 {
                None
            } else {
                Some(name)
            },
            verb: verb_and_rest(reason).0,
            zone: name_and_zone(verb_and_rest(reason).1).1,
        }
    }
}

pub open spec fn combat_wisdom_spec(t: Seq<char>, ts: Seq<char>) -> Option<StatusEvent> {
    match strip_prefix(t, "You earned "@) {
        Some(after) => match find_first(after, " Combat Wisdom: "@) {
            Some(k) => match parse_u32_spec(after.subrange(0, k)) {
                Some(amount) => {
                    let reason = trim(
                        after.subrange(k + " Combat Wisdom: "@.len(), after.len() as int),
                    );
                    if reason.len() == 0 {
                        None
                    } else {
                        Some(wisdom_event(ts, amount, reason))
                    }
                },
                None => None,
            },
            None => None,
        },
        None => None,
    }
}

/// The text between "You earned " and the final one-character terminator.
pub open spec fn earned_inner(t: Seq<char>) -> Seq<char> {
    t.subrange("You earned "@.len() as int, t.len() - 1)
}

/// "<N><infix><Skill>" → (N, Skill).
pub open spec fn amount_and_skill(inner: Seq<char>, infix: Seq<char>) -> Option<(u32, Seq<char>)> {
    match find_first(inner, infix) {
        Some(k) => match parse_u32_spec(inner.subrange(0, k)) {
            Some(a) => Some((a, inner.subrange(k + infix.len(), inner.len() as int))),
            None => None,
        },
        None => None,
    }
}

pub open spec fn prodigy_spec(t: Seq<char>, ts: Seq<char>) -> Option<StatusEvent> {
    if !starts_with(t, "You earned "@) || !ends_with(t, "."@) {
        None
    } else {
        match amount_and_skill(earned_inner(t), " Prodigy XP in "@) {
            Some((a, skill)) => Some(
                StatusEvent::ProdigyXpGained { timestamp: ts, skill: skill, amount: a },
            ),
            None => None,
        }
    }
}

pub open spec fn xp_spec(t: Seq<char>, ts: Seq<char>) -> Option<StatusEvent> {
    if !starts_with(t, "You earned "@) || !ends_with(t, "."@) || contains(t, "reached level"@) {
        None
    } else {
        match amount_and_skill(earned_inner(t), " XP in "@) {
            Some((a, skill)) => Some(StatusEvent::XpGained { timestamp: ts, skill: skill, amount: a }),
            None => None,
        }
    }
}

pub open spec fn level_up_spec(t: Seq<char>, ts: Seq<char>) -> Option<StatusEvent> {
    if !starts_with(t, "You earned "@) || !ends_with(t, "!"@) || !contains(t, "reached level"@) {
        None
    } else {
        match amount_and_skill(earned_inner(t), " XP and reached level "@) {
            Some((xp, after_level)) => match amount_and_skill(after_level, " in "@) {
                Some((level, skill)) => Some(
                    StatusEvent::LevelUp { timestamp: ts, skill: skill, level: level, xp: xp },
                ),
                None => None,
            },
            None => None,
        }
    }
}

/// `t` starts with `p` and ends with `s`, but the two overlap: slicing the
/// text between them would fail.
pub open spec fn overlapping(t: Seq<char>, p: Seq<char>, s: Seq<char>) -> bool {
    starts_with(t, p) && ends_with(t, s) && t.len() < p.len() + s.len()
}

/// The text strictly between prefix `p` and suffix `s`.
pub open spec fn between(t: Seq<char>, p: Seq<char>, s: Seq<char>) -> Seq<char> {
    t.subrange(p.len() as int, t.len() - s.len())
}

pub open spec fn framed(t: Seq<char>, p: Seq<char>, s: Seq<char>) -> bool {
    starts_with(t, p) && ends_with(t, s)
}

pub open spec fn treasure_spec(t: Seq<char>, ts: Seq<char>) -> Option<StatusEvent> {
    if !framed(t, "The treasure is "@, " meters from here."@) {
        None
    } else {
        match parse_u32_spec(between(t, "The treasure is "@, " meters from here."@)) {
            Some(m) => Some(StatusEvent::TreasureDistance { timestamp: ts, meters: m }),
            None => None,
        }
    }
}

pub open spec fn anatomy_spec(t: Seq<char>, ts: Seq<char>) -> Option<StatusEvent> {
    if t == "You bury the corpse."@ {
        Some(StatusEvent::AnatomyResult { timestamp: ts, success: true })
    } else if t == "You botch the autopsy!"@ {
        Some(StatusEvent::AnatomyResult { timestamp: ts, success: false })
    } else {
        None
    }
}

pub open spec fn coins_spec(t: Seq<char>, ts: Seq<char>) -> Option<StatusEvent> {
    if !framed(t, "You searched the corpse and found "@, " coins."@) {
        None
    } else {
        match parse_u32_spec(between(t, "You searched the corpse and found "@, " coins."@)) {
            Some(a) => Some(StatusEvent::CoinsLooted { timestamp: ts, amount: a }),
            None => None,
        }
    }
}

/// A comma-grouped integer ("1,700" → 1700).
pub open spec fn grouped_number(n: Seq<char>) -> Option<i64> {
    parse_i64_spec(remove_char(n, ','))
}

/// The wallet change for a parsed amount, negated for losses.
pub open spec fn wallet_event(ts: Seq<char>, amount: Option<i64>, loss: bool) -> Option<StatusEvent> {
    match amount {
        Some(a) => Some(
            StatusEvent::CouncilsChanged {
                timestamp: ts,
                amount: if loss {
                    (0 - a) as i64
                } else {
                    a
                },
            },
        ),
        None => None,
    }
}

pub open spec fn councils_changed_spec(t: Seq<char>, ts: Seq<char>) -> Option<StatusEvent> {
    if framed(t, "You received "@, " Councils."@) {
        wallet_event(ts, grouped_number(between(t, "You received "@, " Councils."@)), false)
    } else if framed(t, "You used "@, " councils."@) {
        wallet_event(ts, grouped_number(between(t, "You used "@, " councils."@)), true)
    } else {
        None
    }
}

/// Digits and comma thousands separators.
pub open spec fn comma_grouped(n: Seq<char>) -> bool {
    forall|i: int| 0 <= i < n.len() ==> is_ascii_digit(#[trigger] n[i]) || n[i] == ','
}

proof fn lemma_commas_removed(n: Seq<char>)
    requires
        comma_grouped(n),
    ensures
        all_digits(remove_char(n, ',')),
    decreases n.len(),
{
    if n.len() > 0 {
        lemma_commas_removed(n.drop_last());
        let d = remove_char(n.drop_last(), ',');
        if n.last() != ',' {
            assert(is_ascii_digit(n[n.len() - 1]));
            assert forall|i: int| 0 <= i < d.push(n.last()).len() implies is_ascii_digit(
                #[trigger] d.push(n.last())[i],
            ) by {
                if i < d.len() {
                    assert(d.push(n.last())[i] == d[i]);
                }
            }
        }
    }
}

/// "You received N Councils." with N written in digits and comma thousands
/// separators is a wallet gain of the value of N's digits, and the status
/// parser reads it so (it fails on no such text).
pub proof fn lemma_received_councils(n: Seq<char>, ts: Seq<char>)
    requires
        comma_grouped(n),
        remove_char(n, ',').len() > 0,
        digits_value(remove_char(n, ',')) <= i64::MAX,
    ensures
        councils_changed_spec("You received "@ + n + " Councils."@, ts) == Some(
            StatusEvent::CouncilsChanged {
                timestamp: ts,
                amount: digits_value(remove_char(n, ',')) as i64,
            },
        ),
        status_text_event("You received "@ + n + " Councils."@, ts) == Some(
            StatusEvent::CouncilsChanged {
                timestamp: ts,
                amount: digits_value(remove_char(n, ',')) as i64,
            },
        ),
        !status_text_fails("You received "@ + n + " Councils."@, ts),
{
    reveal_strlit("You received ");
    reveal_strlit(" Councils.");
    reveal_strlit("You used ");
    reveal_strlit(" councils.");
    reveal_strlit(" added to inventory.");
    reveal_strlit("You earned ");
    reveal_strlit("The treasure is ");
    reveal_strlit("You bury the corpse.");
    reveal_strlit("You botch the autopsy!");
    reveal_strlit("You searched the corpse and found ");
    let p = "You received "@;
    let sfx = " Councils."@;
    let t = p + n + sfx;
    let d = remove_char(n, ',');
    lemma_commas_removed(n);
    assert(t.subrange(0, p.len() as int) =~= p);
    assert(t.subrange(t.len() - sfx.len(), t.len() as int) =~= sfx);
    assert(between(t, p, sfx) =~= n);
    assert(is_ascii_digit(d[0]));
    assert(parse_i64_spec(d) == Some(digits_value(d) as i64));
    assert(t[4] == 'r');
    assert(t[0] == 'Y');
    assert(t[t.len() - 2] == 's');
    assert(!starts_with(t, "You earned "@)) by {
        assert(t.subrange(0, 11)[4] != "You earned "@[4]);
    }
    assert(!ends_with(t, " added to inventory."@)) by {
        if t.len() >= 20 {
            assert(t.subrange(t.len() - 20, t.len() as int)[18] != " added to inventory."@[18]);
        }
    }
    assert(!starts_with(t, "The treasure is "@)) by {
        assert(t.subrange(0, 16)[0] != "The treasure is "@[0]);
    }
    assert(t != "You bury the corpse."@) by {
        assert("You bury the corpse."@[4] == 'b');
    }
    assert(t != "You botch the autopsy!"@) by {
        assert("You botch the autopsy!"@[4] == 'b');
    }
    assert(!starts_with(t, "You searched the corpse and found "@)) by {
        if t.len() >= 34 {
            assert(t.subrange(0, 34)[4] != "You searched the corpse and found "@[4]);
        }
    }
}

/// "You used N councils." with N written in digits and comma thousands
/// separators is a wallet loss of the value of N's digits, and the status
/// parser reads it so.
pub proof fn lemma_used_councils(n: Seq<char>, ts: Seq<char>)
    requires
        comma_grouped(n),
        remove_char(n, ',').len() > 0,
        digits_value(remove_char(n, ',')) <= i64::MAX,
    ensures
        councils_changed_spec("You used "@ + n + " councils."@, ts) == Some(
            StatusEvent::CouncilsChanged {
                timestamp: ts,
                amount: (0 - digits_value(remove_char(n, ','))) as i64,
            },
        ),
        status_text_event("You used "@ + n + " councils."@, ts) == Some(
            StatusEvent::CouncilsChanged {
                timestamp: ts,
                amount: (0 - digits_value(remove_char(n, ','))) as i64,
            },
        ),
        !status_text_fails("You used "@ + n + " councils."@, ts),
{
    reveal_strlit("You received ");
    reveal_strlit(" Councils.");
    reveal_strlit("You used ");
    reveal_strlit(" councils.");
    reveal_strlit(" added to inventory.");
    reveal_strlit("You earned ");
    reveal_strlit("The treasure is ");
    reveal_strlit("You bury the corpse.");
    reveal_strlit("You botch the autopsy!");
    reveal_strlit("You searched the corpse and found ");
    let p = "You used "@;
    let sfx = " councils."@;
    let t = p + n + sfx;
    let d = remove_char(n, ',');
    lemma_commas_removed(n);
    crate::text::lemma_digits_value_nonneg(d);
    assert(t.subrange(0, p.len() as int) =~= p);
    assert(t.subrange(t.len() - sfx.len(), t.len() as int) =~= sfx);
    assert(between(t, p, sfx) =~= n);
    assert(is_ascii_digit(d[0]));
    assert(parse_i64_spec(d) == Some(digits_value(d) as i64));
    assert(t[4] == 'u');
    assert(t[0] == 'Y');
    assert(t[t.len() - 2] == 's');
    assert(!starts_with(t, "You received "@)) by {
        if t.len() >= 13 {
            assert(t.subrange(0, 13)[4] != "You received "@[4]);
        }
    }
    assert(!starts_with(t, "You earned "@)) by {
        if t.len() >= 11 {
            assert(t.subrange(0, 11)[4] != "You earned "@[4]);
        }
    }
    assert(!ends_with(t, " added to inventory."@)) by {
        if t.len() >= 20 {
            assert(t.subrange(t.len() - 20, t.len() as int)[18] != " added to inventory."@[18]);
        }
    }
    assert(!starts_with(t, "The treasure is "@)) by {
        if t.len() >= 16 {
            assert(t.subrange(0, 16)[0] != "The treasure is "@[0]);
        }
    }
    assert(t != "You bury the corpse."@) by {
        assert("You bury the corpse."@[4] == 'b');
    }
    assert(t != "You botch the autopsy!"@) by {
        assert("You botch the autopsy!"@[4] == 'b');
    }
    assert(!starts_with(t, "You searched the corpse and found "@)) by {
        if t.len() >= 34 {
            assert(t.subrange(0, 34)[4] != "You searched the corpse and found "@[4]);
        }
    }
}

/// "Roulette ball ended on N!" with N written in decimal digits is a spin
/// result exactly when N's value is on the wheel (0..=36), and then its
/// number is that value.
pub proof fn lemma_roulette_on_the_wheel(d: Seq<char>, ts: Seq<char>)
    requires
        d.len() > 0,
        all_digits(d),
    ensures
        roulette_spec("Roulette ball ended on "@ + d + "!"@, ts) == if digits_value(d) <= 36 {
            Some(StatusEvent::RouletteResult { timestamp: ts, number: digits_value(d) as u32 })
        } else {
            None
        },
{
    reveal_strlit("Roulette ball ended on ");
    reveal_strlit("!");
    let p = "Roulette ball ended on "@;
    let t = p + d + "!"@;
    assert(t.subrange(0, p.len() as int) =~= p);
    let a = t.subrange(p.len() as int, t.len() as int);
    assert(a =~= d + "!"@);
    assert(a.subrange(a.len() - 1, a.len() as int) =~= "!"@);
    assert(a.subrange(0, a.len() - 1) =~= d);
    assert(is_ascii_digit(d[0]));
    crate::text::lemma_digits_value_nonneg(d);
}

/// Slicing fails, or negating the used amount overflows.
pub open spec fn councils_changed_fails(t: Seq<char>) -> bool {
    if framed(t, "You received "@, " Councils."@) {
        overlapping(t, "You received "@, " Councils."@)
    } else {
        ||| overlapping(t, "You used "@, " councils."@)
        ||| framed(t, "You used "@, " councils."@) && grouped_number(
            between(t, "You used "@, " councils."@),
        ) == Some(i64::MIN)
    }
}

/// The number of a "<mob> stole N Councils!" line, before parsing.
pub open spec fn stolen_number(t: Seq<char>) -> Option<Seq<char>> {
    match find_first(t, " stole "@) {
        Some(idx) => strip_suffix(t.subrange(idx + " stole "@.len(), t.len() as int), " Councils!"@),
        None => None,
    }
}

pub open spec fn receive_coins(t: Seq<char>) -> Option<Seq<char>> {
    match strip_prefix(t, "You receive "@) {
        Some(rest) => strip_suffix(rest, " coins."@),
        None => None,
    }
}

pub open spec fn recovered_councils(t: Seq<char>) -> Option<Seq<char>> {
    match strip_prefix(t, "You recovered "@) {
        Some(rest) => match find_first(rest, " Councils stolen by "@) {
            Some(idx) => Some(rest.subrange(0, idx)),
            None => None,
        },
        None => None,
    }
}

pub open spec fn retrieve_coins(t: Seq<char>) -> Option<Seq<char>> {
    match strip_prefix(t, "You retrieve "@) {
        Some(rest) => strip_suffix(rest, " stolen coins."@),
        None => None,
    }
}

pub open spec fn given_coins(t: Seq<char>) -> Option<Seq<char>> {
    match strip_prefix(t, "You were given "@) {
        Some(rest) => match find_first(rest, " coins by "@) {
            Some(idx) => Some(rest.subrange(0, idx)),
            None => None,
        },
        None => None,
    }
}

/// Wallet lines beyond the corpse-loot and received-Councils basics: coin
/// gains from autoloot, recovered or retrieved thefts and player gifts, and the
/// mugger's theft as a loss.
pub open spec fn councils_misc_spec(t: Seq<char>, ts: Seq<char>) -> Option<StatusEvent> {
    if receive_coins(t) is Some {
        wallet_event(ts, grouped_number(receive_coins(t)->0), false)
    } else if recovered_councils(t) is Some {
        wallet_event(ts, grouped_number(recovered_councils(t)->0), false)
    } else if retrieve_coins(t) is Some {
        wallet_event(ts, grouped_number(retrieve_coins(t)->0), false)
    } else if given_coins(t) is Some {
        wallet_event(ts, grouped_number(given_coins(t)->0), false)
    } else if stolen_number(t) is Some {
        wallet_event(ts, grouped_number(stolen_number(t)->0), true)
    } else {
        None
    }
}

/// Negating a stolen amount overflows.
pub open spec fn councils_misc_fails(t: Seq<char>) -> bool {
    &&& receive_coins(t) is None
    &&& recovered_councils(t) is None
    &&& retrieve_coins(t) is None
    &&& given_coins(t) is None
    &&& stolen_number(t) is Some
    &&& grouped_number(stolen_number(t)->0) == Some(i64::MIN)
}

pub open spec fn summoned_spec(t: Seq<char>, ts: Seq<char>) -> Option<StatusEvent> {
    match strip_prefix(t, "Summoned "@) {
        Some(rest) => Some(
            StatusEvent::Summoned {
                timestamp: ts,
                item_name: name_and_quantity(rest).0,
                quantity: name_and_quantity(rest).1,
            },
        ),
        None => None,
    }
}

pub open spec fn studied_spec(t: Seq<char>, ts: Seq<char>) -> Option<StatusEvent> {
    match strip_suffix(t, " carefully studied!"@) {
        Some(name) => if name.len() == 0 {
            None
        } else {
            Some(StatusEvent::ItemStudied { timestamp: ts, item_name: name })
        },
        None => None,
    }
}

pub open spec fn report_spec(t: Seq<char>, ts: Seq<char>) -> Option<StatusEvent> {
    match strip_prefix(t, "Saved report to "@) {
        Some(path) => if path.len() == 0 {
            None
        } else {
            Some(StatusEvent::ReportSaved { timestamp: ts, file_path: path })
        },
        None => None,
    }
}

/// The first of two alternatives that yields an event.
pub open spec fn or_else(a: Option<StatusEvent>, b: Option<StatusEvent>) -> Option<StatusEvent> {
    if a is Some {
        a
    } else {
        b
    }
}

/// The patterns tried before the treasure distance all fail.
pub open spec fn before_treasure(t: Seq<char>, ts: Seq<char>) -> bool {
    &&& item_gained_spec(t, ts) is None
    &&& combat_wisdom_spec(t, ts) is None
    &&& prodigy_spec(t, ts) is None
    &&& xp_spec(t, ts) is None
    &&& level_up_spec(t, ts) is None
}

pub open spec fn before_coins(t: Seq<char>, ts: Seq<char>) -> bool {
    &&& before_treasure(t, ts)
    &&& !overlapping(t, "The treasure is "@, " meters from here."@)
    &&& treasure_spec(t, ts) is None
    &&& anatomy_spec(t, ts) is None
}

pub open spec fn before_councils(t: Seq<char>, ts: Seq<char>) -> bool {
    &&& before_coins(t, ts)
    &&& !overlapping(t, "You searched the corpse and found "@, " coins."@)
    &&& coins_spec(t, ts) is None
}

pub open spec fn before_misc(t: Seq<char>, ts: Seq<char>) -> bool {
    &&& before_councils(t, ts)
    &&& !councils_changed_fails(t)
    &&& councils_changed_spec(t, ts) is None
}

/// The trimmed status text on which parsing would fail: a slice whose start
/// lies past its end, or the negation of the smallest `i64`.
pub open spec fn status_text_fails(t: Seq<char>, ts: Seq<char>) -> bool {
    ||| before_treasure(t, ts) && overlapping(t, "The treasure is "@, " meters from here."@)
    ||| before_coins(t, ts) && overlapping(t, "You searched the corpse and found "@, " coins."@)
    ||| before_councils(t, ts) && councils_changed_fails(t)
    ||| before_misc(t, ts) && councils_misc_fails(t)
}

/// The event for a trimmed status text: the patterns are tried in a fixed
/// order and the first that matches wins.
pub open spec fn status_text_event(t: Seq<char>, ts: Seq<char>) -> Option<StatusEvent> {
    or_else(
        item_gained_spec(t, ts),
        or_else(
            combat_wisdom_spec(t, ts),
            or_else(
                prodigy_spec(t, ts),
                or_else(
                    xp_spec(t, ts),
                    or_else(
                        level_up_spec(t, ts),
                        or_else(
                            treasure_spec(t, ts),
                            or_else(
                                anatomy_spec(t, ts),
                                or_else(
                                    coins_spec(t, ts),
                                    or_else(
                                        councils_changed_spec(t, ts),
                                        or_else(
                                            councils_misc_spec(t, ts),
                                            or_else(
                                                summoned_spec(t, ts),
                                                or_else(
                                                    studied_spec(t, ts),
                                                    or_else(
                                                        report_spec(t, ts),
                                                        roulette_spec(t, ts),
                                                    ),
                                                ),
                                            ),
                                        ),
                                    ),
                                ),
                            ),
                        ),
                    ),
                ),
            ),
        ),
    )
}

/// The message is on the `Status` channel.
pub open spec fn is_status_channel(msg: ChatMessage) -> bool {
    msg.channel is Some && msg.channel->0@ == "Status"@
}

/// Parsing `msg` would fail (see [`status_text_fails`]).
pub open spec fn status_message_fails(msg: ChatMessage) -> bool {
    is_status_channel(msg) && status_text_fails(trim(msg.message@), timestamp_text(msg.timestamp))
}

/// The event of a chat message: only `Status` messages carry one.
pub open spec fn status_message_event(msg: ChatMessage) -> Option<StatusEvent> {
    if is_status_channel(msg) {
        status_text_event(trim(msg.message@), timestamp_text(msg.timestamp))
    } else {
        None
    }
}

// ───────────────────────────── the parsers ─────────────────────────────

/// Try to parse a Status channel message into a structured event; `None` when
/// the message is on another channel or matches no known pattern.
pub fn parse_status_message(msg: &ChatMessage) -> (r: Option<ChatStatusEvent>)
    requires
        !status_message_fails(*msg),
    ensures
        event_view(r) == status_message_event(*msg),
{
    if !opt_is(&msg.channel, "Status") {
        return None;
    }
    let raw = chars_of(msg.message.as_str());
    let text = trimmed(&raw);
    let ts = msg.timestamp.to_text();
    parse_status_text(&text, &ts)
}

/// Whether [`parse_status_message`] can read `msg`: false exactly on the
/// messages on which parsing would fail (see [`status_text_fails`]).
pub fn status_message_parses(msg: &ChatMessage) -> (b: bool)
    ensures
        b == !status_message_fails(*msg),
{
    if !opt_is(&msg.channel, "Status") {
        return true;
    }
    let raw = chars_of(msg.message.as_str());
    let text = trimmed(&raw);
    let ts = msg.timestamp.to_text();
    status_text_parses(&text, &ts)
}

/// `p` and `s` frame `t` but overlap in it.
fn overlaps(t: &[char], p: &str, s: &str) -> (b: bool)
    ensures
        b == overlapping(t@, p@, s@),
{
    let pc = chars_of(p);
    let sc = chars_of(s);
    has_prefix(t, &pc) && has_suffix(t, &sc) && t.len() - sc.len() < pc.len()
}

/// See [`councils_changed_fails`].
fn councils_changed_would_fail(t: &[char]) -> (b: bool)
    ensures
        b == councils_changed_fails(t@),
{
    if has_prefix_str(t, "You received ") && has_suffix_str(t, " Councils.") {
        return overlaps(t, "You received ", " Councils.");
    }
    if overlaps(t, "You used ", " councils.") {
        return true;
    }
    match framed_inner(t, "You used ", " councils.") {
        Some(inner) => match parse_grouped(&inner) {
            Some(a) => a == i64::MIN,
            None => false,
        },
        None => false,
    }
}

/// The number of a "<mob> stole N Councils!" line, before parsing.
fn stolen_piece(t: &[char]) -> (r: Option<Vec<char>>)
    ensures
        opt_chars(r) == stolen_number(t@),
{
    let stole = chars_of(" stole ");
    let n = t.len();
    match find(t, &stole) {
        Some(idx) => {
            assert(idx + stole@.len() <= n);
            let rest = slice(t, idx + stole.len(), t.len());
            let sc = chars_of(" Councils!");
            if has_suffix(&rest, &sc) {
                Some(slice(&rest, 0, rest.len() - sc.len()))
            } else {
                None
            }
        },
        None => None,
    }
}

/// See [`councils_misc_fails`].
fn councils_misc_would_fail(t: &[char]) -> (b: bool)
    ensures
        b == councils_misc_fails(t@),
{
    if prefix_suffix_piece(t, "You receive ", " coins.").is_some() {
        return false;
    }
    if prefix_mark_piece(t, "You recovered ", " Councils stolen by ").is_some() {
        return false;
    }
    if prefix_suffix_piece(t, "You retrieve ", " stolen coins.").is_some() {
        return false;
    }
    if prefix_mark_piece(t, "You were given ", " coins by ").is_some() {
        return false;
    }
    match stolen_piece(t) {
        Some(n) => match parse_grouped(&n) {
            Some(a) => a == i64::MIN,
            None => false,
        },
        None => false,
    }
}

/// Whether [`parse_status_text`] can read the trimmed text `t`: false
/// exactly when [`status_text_fails`] holds.
pub fn status_text_parses(t: &[char], ts: &String) -> (b: bool)
    ensures
        b == !status_text_fails(t@, ts@),
{
    if try_item_gained(t, ts).is_some() || try_combat_wisdom_earned(t, ts).is_some()
        || try_prodigy_xp_gained(t, ts).is_some() || try_xp_gained(t, ts).is_some()
        || try_level_up(t, ts).is_some() {
        return true;
    }
    if overlaps(t, "The treasure is ", " meters from here.") {
        return false;
    }
    if try_treasure_distance(t, ts).is_some() || try_anatomy_result(t, ts).is_some() {
        return true;
    }
    if overlaps(t, "You searched the corpse and found ", " coins.") {
        return false;
    }
    if try_coins_looted(t, ts).is_some() {
        return true;
    }
    if councils_changed_would_fail(t) {
        return false;
    }
    if try_councils_changed(t, ts).is_some() {
        return true;
    }
    !councils_misc_would_fail(t)
}

/// The pattern chain over an already trimmed status text.
pub fn parse_status_text(t: &[char], ts: &String) -> (r: Option<ChatStatusEvent>)
    requires
        !status_text_fails(t@, ts@),
    ensures
        event_view(r) == status_text_event(t@, ts@),
{
    let r = try_item_gained(t, ts);
    if r.is_some() {
        return r;
    }
    let r = try_combat_wisdom_earned(t, ts);
    if r.is_some() {
        return r;
    }
    let r = try_prodigy_xp_gained(t, ts);
    if r.is_some() {
        return r;
    }
    let r = try_xp_gained(t, ts);
    if r.is_some() {
        return r;
    }
    let r = try_level_up(t, ts);
    if r.is_some() {
        return r;
    }
    let r = try_treasure_distance(t, ts);
    if r.is_some() {
        return r;
    }
    let r = try_anatomy_result(t, ts);
    if r.is_some() {
        return r;
    }
    let r = try_coins_looted(t, ts);
    if r.is_some() {
        return r;
    }
    let r = try_councils_changed(t, ts);
    if r.is_some() {
        return r;
    }
    let r = try_councils_misc(t, ts);
    if r.is_some() {
        return r;
    }
    let r = try_summoned(t, ts);
    if r.is_some() {
        return r;
    }
    let r = try_item_studied(t, ts);
    if r.is_some() {
        return r;
    }
    let r = try_report_saved(t, ts);
    if r.is_some() {
        return r;
    }
    try_roulette_result(t, ts)
}

/// "Roulette ball ended on N!" for N in 0..=36; a number off the wheel
/// gives no event.
pub fn try_roulette_result(t: &[char], ts: &String) -> (r: Option<ChatStatusEvent>)
    ensures
        event_view(r) == roulette_spec(t@, ts@),
        r matches Some(ChatStatusEvent::RouletteResult { number, .. }) ==> number <= MAX_ROULETTE_NUMBER,
{
    let p = chars_of("Roulette ball ended on ");
    let s = chars_of("!");
    if !has_prefix(t, &p) {
        return None;
    }
    let a = slice(t, p.len(), t.len());
    if !has_suffix(&a, &s) {
        return None;
    }
    let inner = slice(&a, 0, a.len() - s.len());
    match parse_u32(&inner) {
        Some(n) => if n <= MAX_ROULETTE_NUMBER {
            Some(ChatStatusEvent::RouletteResult { timestamp: ts.clone(), number: n })
        } else {
            None
        },
        None => None,
    }
}

/// "ItemName xN" → (ItemName, N), or (whole text, 1).
pub fn parse_name_and_quantity(t: &[char]) -> (r: (Vec<char>, u32))
    ensures
        (r.0@, r.1) == name_and_quantity(t@),
{
    let x = chars_of(" x");
    let n = t.len();
    match rfind(t, &x) {
        Some(x_pos) => {
            assert(x_pos + x@.len() <= n);
            let after = slice(t, x_pos + x.len(), t.len());
            match parse_u32(&after) {
                Some(q) => (slice(t, 0, x_pos), q),
                None => (slice(t, 0, t.len()), 1),
            }
        },
        None => (slice(t, 0, t.len()), 1),
    }
}

/// "X added to inventory." or "X xN added to inventory."
pub fn try_item_gained(t: &[char], ts: &String) -> (r: Option<ChatStatusEvent>)
    ensures
        event_view(r) == item_gained_spec(t@, ts@),
{
    let s = chars_of(" added to inventory.");
    if !has_suffix(t, &s) {
        return None;
    }
    let prefix = slice(t, 0, t.len() - s.len());
    let (name, quantity) = parse_name_and_quantity(&prefix);
    Some(ChatStatusEvent::ItemGained { timestamp: ts.clone(), item_name: string_of(&name), quantity })
}

/// "You earned N Combat Wisdom: <reason>"
pub fn try_combat_wisdom_earned(t: &[char], ts: &String) -> (r: Option<ChatStatusEvent>)
    ensures
        event_view(r) == combat_wisdom_spec(t@, ts@),
{
    let ye = chars_of("You earned ");
    if !has_prefix(t, &ye) {
        return None;
    }
    let after = slice(t, ye.len(), t.len());
    let infix = chars_of(" Combat Wisdom: ");
    let k = match find(&after, &infix) {
        Some(k) => k,
        None => return None,
    };
    let num = slice(&after, 0, k);
    let amount = match parse_u32(&num) {
        Some(a) => a,
        None => return None,
    };
    let raw_reason = slice(&after, k + infix.len(), after.len());
    let reason = trimmed(&raw_reason);
    if reason.len() == 0 {
        return None;
    }
    if equals_str(&reason, "Earned a Prodigy Level") {
        return Some(
            ChatStatusEvent::CombatWisdomEarned {
                timestamp: ts.clone(),
                amount,
                source_name: None,
                verb: "Earned".to_owned(),
                zone: None,
            },
        );
    }
    let space = chars_of(" ");
    proof {
        reveal_strlit(" ");
        assert(space@ =~= seq![' ']);
    }
    let (verb, rest) = match find(&reason, &space) {
        Some(sp) => (slice(&reason, 0, sp), slice(&reason, sp + 1, reason.len())),
        None => (slice(&reason, 0, reason.len()), Vec::new()),
    };
    assert(reason@.subrange(0, reason@.len() as int) =~= reason@);
    assert(rest@ == verb_and_rest(reason@).1);
    let close = chars_of(")");
    let open_paren = chars_of(" (");
    proof {
        reveal_strlit(")");
        reveal_strlit(" (");
        assert(close@ =~= seq![')']);
    }
    let (name, zone) = if has_suffix(&rest, &close) {
        match rfind(&rest, &open_paren) {
            Some(open) => {
                proof {
                    let n = rest@.len();
                    assert(rest@.subrange(n - 1, n as int) == seq![')']);
                    assert(rest@[n - 1] == rest@.subrange(n - 1, n as int)[0]);
                    assert(open_paren@ =~= seq![' ', '(']);
                    assert(rest@.subrange(open as int, open + 2) == open_paren@);
                    if open + 2 == n {
                        assert(rest@[n - 1] == rest@.subrange(open as int, open + 2)[1]);
                    }
                }
                let z = slice(&rest, open + open_paren.len(), rest.len() - 1);
                (slice(&rest, 0, open), Some(string_of(&z)))
            },
            None => (slice(&rest, 0, rest.len()), None),
        }
    } else {
        (slice(&rest, 0, rest.len()), None)
    };
    assert(rest@.subrange(0, rest@.len() as int) =~= rest@);
    let source_name = if name.len() == 0 {
        None
    } else {
        Some(string_of(&name))
    };
    Some(
        ChatStatusEvent::CombatWisdomEarned {
            timestamp: ts.clone(),
            amount,
            source_name,
            verb: string_of(&verb),
            zone,
        },
    )
}

/// "<N><infix><Skill>" over the inner text of an earned line.
fn split_amount_skill(inner: &[char], infix: &[char]) -> (r: Option<(u32, Vec<char>)>)
    ensures
        match r {
            Some((a, s)) => amount_and_skill(inner@, infix@) == Some((a, s@)),
            None => amount_and_skill(inner@, infix@) is None,
        },
{
    let n = inner.len();
    let k = match find(inner, infix) {
        Some(k) => k,
        None => return None,
    };
    assert(k + infix@.len() <= n);
    let num = slice(inner, 0, k);
    match parse_u32(&num) {
        Some(a) => Some((a, slice(inner, k + infix.len(), inner.len()))),
        None => None,
    }
}

/// The inner text of a line that starts with "You earned " and ends with a
/// one-character terminator.
fn earned_inner_of(t: &[char]) -> (r: Vec<char>)
    requires
        starts_with(t@, "You earned "@),
        t@.len() > 0,
        t@.last() != ' ',
    ensures
        r@ == earned_inner(t@),
{
    proof {
        reveal_strlit("You earned ");
        if t@.len() == "You earned "@.len() {
            assert(t@.subrange(0, t@.len() as int) =~= t@);
            assert(t@.last() == t@.subrange(0, "You earned "@.len() as int)[10]);
        }
    }
    slice(t, 11, t.len() - 1)
}

/// "You earned N Prodigy XP in Skill."
pub fn try_prodigy_xp_gained(t: &[char], ts: &String) -> (r: Option<ChatStatusEvent>)
    ensures
        event_view(r) == prodigy_spec(t@, ts@),
{
    let ye = chars_of("You earned ");
    let dot = chars_of(".");
    if !has_prefix(t, &ye) || !has_suffix(t, &dot) {
        return None;
    }
    proof {
        reveal_strlit(".");
        assert(t@.last() == t@.subrange(t@.len() - 1, t@.len() as int)[0]);
    }
    let inner = earned_inner_of(t);
    let infix = chars_of(" Prodigy XP in ");
    match split_amount_skill(&inner, &infix) {
        Some((amount, skill)) => Some(
            ChatStatusEvent::ProdigyXpGained { timestamp: ts.clone(), skill: string_of(&skill), amount },
        ),
        None => None,
    }
}

/// "You earned N XP in Skill." (not the level-up variant)
pub fn try_xp_gained(t: &[char], ts: &String) -> (r: Option<ChatStatusEvent>)
    ensures
        event_view(r) == xp_spec(t@, ts@),
{
    let ye = chars_of("You earned ");
    let dot = chars_of(".");
    if !has_prefix(t, &ye) || !has_suffix(t, &dot) {
        return None;
    }
    if has_str(t, "reached level") {
        return None;
    }
    proof {
        reveal_strlit(".");
        assert(t@.last() == t@.subrange(t@.len() - 1, t@.len() as int)[0]);
    }
    let inner = earned_inner_of(t);
    let infix = chars_of(" XP in ");
    match split_amount_skill(&inner, &infix) {
        Some((amount, skill)) => Some(
            ChatStatusEvent::XpGained { timestamp: ts.clone(), skill: string_of(&skill), amount },
        ),
        None => None,
    }
}

/// "You earned N XP and reached level L in Skill!"
pub fn try_level_up(t: &[char], ts: &String) -> (r: Option<ChatStatusEvent>)
    ensures
        event_view(r) == level_up_spec(t@, ts@),
{
    let ye = chars_of("You earned ");
    let bang = chars_of("!");
    if !has_prefix(t, &ye) || !has_suffix(t, &bang) {
        return None;
    }
    if !has_str(t, "reached level") {
        return None;
    }
    proof {
        reveal_strlit("!");
        assert(t@.last() == t@.subrange(t@.len() - 1, t@.len() as int)[0]);
    }
    let inner = earned_inner_of(t);
    let infix = chars_of(" XP and reached level ");
    let (xp, after_level) = match split_amount_skill(&inner, &infix) {
        Some(v) => v,
        None => return None,
    };
    let in_ = chars_of(" in ");
    match split_amount_skill(&after_level, &in_) {
        Some((level, skill)) => Some(
            ChatStatusEvent::LevelUp { timestamp: ts.clone(), skill: string_of(&skill), level, xp },
        ),
        None => None,
    }
}

/// The text between prefix `p` and suffix `s`, when `t` is framed by them and
/// they do not overlap.
fn framed_inner(t: &[char], p: &str, s: &str) -> (r: Option<Vec<char>>)
    ensures
        framed(t@, p@, s@) && !overlapping(t@, p@, s@) ==> r is Some && r->0@ == between(
            t@,
            p@,
            s@,
        ),
        !framed(t@, p@, s@) ==> r is None,
        overlapping(t@, p@, s@) ==> r is None,
{
    let pc = chars_of(p);
    let sc = chars_of(s);
    if !has_prefix(t, &pc) || !has_suffix(t, &sc) {
        return None;
    }
    if t.len() - sc.len() < pc.len() {
        return None;
    }
    Some(slice(t, pc.len(), t.len() - sc.len()))
}

/// "The treasure is N meters from here."
pub fn try_treasure_distance(t: &[char], ts: &String) -> (r: Option<ChatStatusEvent>)
    requires
        !overlapping(t@, "The treasure is "@, " meters from here."@),
    ensures
        event_view(r) == treasure_spec(t@, ts@),
{
    match framed_inner(t, "The treasure is ", " meters from here.") {
        Some(inner) => match parse_u32(&inner) {
            Some(m) => Some(ChatStatusEvent::TreasureDistance { timestamp: ts.clone(), meters: m }),
            None => None,
        },
        None => None,
    }
}

/// "You bury the corpse." or "You botch the autopsy!"
pub fn try_anatomy_result(t: &[char], ts: &String) -> (r: Option<ChatStatusEvent>)
    ensures
        event_view(r) == anatomy_spec(t@, ts@),
{
    if equals_str(t, "You bury the corpse.") {
        return Some(ChatStatusEvent::AnatomyResult { timestamp: ts.clone(), success: true });
    }
    if equals_str(t, "You botch the autopsy!") {
        return Some(ChatStatusEvent::AnatomyResult { timestamp: ts.clone(), success: false });
    }
    None
}

/// "You searched the corpse and found N coins."
pub fn try_coins_looted(t: &[char], ts: &String) -> (r: Option<ChatStatusEvent>)
    requires
        !overlapping(t@, "You searched the corpse and found "@, " coins."@),
    ensures
        event_view(r) == coins_spec(t@, ts@),
{
    match framed_inner(t, "You searched the corpse and found ", " coins.") {
        Some(inner) => match parse_u32(&inner) {
            Some(a) => Some(ChatStatusEvent::CoinsLooted { timestamp: ts.clone(), amount: a }),
            None => None,
        },
        None => None,
    }
}

/// A comma-grouped integer ("1,700" → 1700).
fn parse_grouped(n: &[char]) -> (r: Option<i64>)
    ensures
        r == grouped_number(n@),
{
    let digits = without_char(n, ',');
    parse_i64(&digits)
}

/// "You received N Councils." / "You used N councils."
pub fn try_councils_changed(t: &[char], ts: &String) -> (r: Option<ChatStatusEvent>)
    requires
        !councils_changed_fails(t@),
    ensures
        event_view(r) == councils_changed_spec(t@, ts@),
{
    if has_prefix_str(t, "You received ") && has_suffix_str(t, " Councils.") {
        let inner = match framed_inner(t, "You received ", " Councils.") {
            Some(i) => i,
            None => return None,
        };
        return match parse_grouped(&inner) {
            Some(a) => Some(ChatStatusEvent::CouncilsChanged { timestamp: ts.clone(), amount: a }),
            None => None,
        };
    }
    if has_prefix_str(t, "You used ") && has_suffix_str(t, " councils.") {
        let inner = match framed_inner(t, "You used ", " councils.") {
            Some(i) => i,
            None => return None,
        };
        return match parse_grouped(&inner) {
            Some(a) => Some(ChatStatusEvent::CouncilsChanged { timestamp: ts.clone(), amount: -a }),
            None => None,
        };
    }
    None
}

/// The wallet change for a parsed amount, negated for losses.
fn wallet(ts: &String, amount: Option<i64>, loss: bool) -> (r: Option<ChatStatusEvent>)
    requires
        loss ==> amount != Some(i64::MIN),
    ensures
        event_view(r) == wallet_event(ts@, amount, loss),
{
    match amount {
        Some(a) => Some(
            ChatStatusEvent::CouncilsChanged {
                timestamp: ts.clone(),
                amount: if loss {
                    -a
                } else {
                    a
                },
            },
        ),
        None => None,
    }
}

/// `rest` after a prefix, then before a suffix.
fn prefix_suffix_piece(t: &[char], p: &str, s: &str) -> (r: Option<Vec<char>>)
    ensures
        match strip_prefix(t@, p@) {
            Some(rest) => opt_chars(r) == strip_suffix(rest, s@),
            None => r is None,
        },
{
    let pc = chars_of(p);
    if !has_prefix(t, &pc) {
        return None;
    }
    let rest = slice(t, pc.len(), t.len());
    let sc = chars_of(s);
    if !has_suffix(&rest, &sc) {
        return None;
    }
    Some(slice(&rest, 0, rest.len() - sc.len()))
}

/// `rest` after a prefix, then up to the first occurrence of `mark`.
fn prefix_mark_piece(t: &[char], p: &str, mark: &str) -> (r: Option<Vec<char>>)
    ensures
        match strip_prefix(t@, p@) {
            Some(rest) => match find_first(rest, mark@) {
                Some(idx) => r is Some && r->0@ == rest.subrange(0, idx),
                None => r is None,
            },
            None => r is None,
        },
{
    let pc = chars_of(p);
    if !has_prefix(t, &pc) {
        return None;
    }
    let rest = slice(t, pc.len(), t.len());
    let mc = chars_of(mark);
    match find(&rest, &mc) {
        Some(idx) => Some(slice(&rest, 0, idx)),
        None => None,
    }
}

/// Wallet lines beyond the corpse-loot and received-Councils basics.
pub fn try_councils_misc(t: &[char], ts: &String) -> (r: Option<ChatStatusEvent>)
    requires
        !councils_misc_fails(t@),
    ensures
        event_view(r) == councils_misc_spec(t@, ts@),
{
    if let Some(n) = prefix_suffix_piece(t, "You receive ", " coins.") {
        return wallet(ts, parse_grouped(&n), false);
    }
    if let Some(n) = prefix_mark_piece(t, "You recovered ", " Councils stolen by ") {
        return wallet(ts, parse_grouped(&n), false);
    }
    if let Some(n) = prefix_suffix_piece(t, "You retrieve ", " stolen coins.") {
        return wallet(ts, parse_grouped(&n), false);
    }
    if let Some(n) = prefix_mark_piece(t, "You were given ", " coins by ") {
        return wallet(ts, parse_grouped(&n), false);
    }
    let stole = chars_of(" stole ");
    let n = t.len();
    if let Some(idx) = find(t, &stole) {
        assert(idx + stole@.len() <= n);
        let rest = slice(t, idx + stole.len(), t.len());
        let sc = chars_of(" Councils!");
        if has_suffix(&rest, &sc) {
            let n = slice(&rest, 0, rest.len() - sc.len());
            return wallet(ts, parse_grouped(&n), true);
        }
    }
    None
}

/// "Summoned X xN"
pub fn try_summoned(t: &[char], ts: &String) -> (r: Option<ChatStatusEvent>)
    ensures
        event_view(r) == summoned_spec(t@, ts@),
{
    let p = chars_of("Summoned ");
    if !has_prefix(t, &p) {
        return None;
    }
    let rest = slice(t, p.len(), t.len());
    let (name, quantity) = parse_name_and_quantity(&rest);
    Some(ChatStatusEvent::Summoned { timestamp: ts.clone(), item_name: string_of(&name), quantity })
}

/// "<item> carefully studied!" — equipment study for Hoplology.
pub fn try_item_studied(t: &[char], ts: &String) -> (r: Option<ChatStatusEvent>)
    ensures
        event_view(r) == studied_spec(t@, ts@),
{
    let s = chars_of(" carefully studied!");
    if !has_suffix(t, &s) {
        return None;
    }
    let name = slice(t, 0, t.len() - s.len());
    if name.len() == 0 {
        return None;
    }
    Some(ChatStatusEvent::ItemStudied { timestamp: ts.clone(), item_name: string_of(&name) })
}

/// "Saved report to <path>"
pub fn try_report_saved(t: &[char], ts: &String) -> (r: Option<ChatStatusEvent>)
    ensures
        event_view(r) == report_spec(t@, ts@),
{
    let p = chars_of("Saved report to ");
    if !has_prefix(t, &p) {
        return None;
    }
    let path = slice(t, p.len(), t.len());
    if path.len() == 0 {
        return None;
    }
    Some(ChatStatusEvent::ReportSaved { timestamp: ts.clone(), file_path: string_of(&path) })
}

} // verus!
