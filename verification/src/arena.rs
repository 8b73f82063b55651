//! Casino arena fight tracker.
//!
//! The arena NPC Kuzavek narrates every match on the `[NPC Chatter]` channel:
//! an intro pair names the two fighters, and a later line names the winner or
//! the loser. [`ArenaTracker`] is a small state machine fed every chat message;
//! it matches fighter names against a known roster (whole word, ASCII case
//! ignored), learns new fighters from the clean "<Name> wins!" / "<Name>
//! loses!" phrasings, and emits an [`ArenaMatch`] when a result resolves the
//! pending pair.
use vstd::prelude::*;

use crate::text::{
    before_first, before_first_str, loose_number, parse_loose_number, remove_all, removed_all,
    second_piece, second_piece_str, trim, trimmed, alnum, alpha, ascii_lower, chars_of, contains, eq_ignore_case, find, find_first,
    has_prefix_str, has_str, is_ascii_alnum, is_ascii_alpha, is_white, lower_char, lowered,
    matches_at, occurs_at, same_ignoring_case, slice, starts_with, string_of, trim_end,
    trimmed_end, upper, upper_char, white,
};

verus! {

broadcast use vstd::string::group_string_axioms;

// ───────────────────────────── words and names ─────────────────────────────

/// `w` occurs in `h` at `i`, bounded on both sides by a non-alphanumeric
/// character or an end of `h`.
pub open spec fn word_at(h: Seq<char>, w: Seq<char>, i: int) -> bool {
    &&& occurs_at(h, w, i)
    &&& (i == 0 || !is_ascii_alnum(h[i - 1]))
    &&& (i + w.len() >= h.len() || !is_ascii_alnum(h[i + w.len()]))
}

/// `word` occurs in `haystack` as a whole word, ASCII case ignored.
pub open spec fn contains_word_spec(haystack: Seq<char>, word: Seq<char>) -> bool {
    word.len() > 0 && exists|i: int| word_at(ascii_lower(haystack), ascii_lower(word), i)
}

/// A name stands as a whole word wherever it is set off by the ends of the
/// line or by characters that are no ASCII letter or digit, in any ASCII
/// case: `x + w + y` contains `w` (and `w` in other case) as a word.
pub proof fn lemma_whole_word_found(x: Seq<char>, w: Seq<char>, y: Seq<char>, v: Seq<char>)
    requires
        w.len() > 0,
        x.len() == 0 || !is_ascii_alnum(x.last()),
        y.len() == 0 || !is_ascii_alnum(y[0]),
        ascii_lower(v) == ascii_lower(w),
    ensures
        contains_word_spec(x + w + y, v),
{
    let h = x + w + y;
    let lh = ascii_lower(h);
    let lw = ascii_lower(w);
    assert(lh =~= ascii_lower(x) + lw + ascii_lower(y));
    let i = x.len() as int;
    assert(lh.subrange(i, i + lw.len()) =~= lw);
    if i > 0 {
        assert(lh[i - 1] == lower_char(x.last()));
    }
    if i + lw.len() < lh.len() {
        assert(lh[i + lw.len()] == lower_char(y[0]));
    }
    assert(ascii_lower(v).len() == v.len());
    assert(word_at(lh, ascii_lower(v), i));
}

/// Case-insensitive whole-word containment: is `word` present in `haystack`
/// bounded by non-alphanumeric characters or the string ends? Guards against
/// `Leo` matching inside a longer token such as `Leon`.
pub fn contains_word(haystack: &str, word: &str) -> (b: bool)
    ensures
        b == contains_word_spec(haystack@, word@),
{
    let h0 = chars_of(haystack);
    let w0 = chars_of(word);
    contains_word_chars(&h0, &w0)
}

/// [`contains_word`] over characters.
pub fn contains_word_chars(haystack: &[char], word: &[char]) -> (b: bool)
    ensures
        b == contains_word_spec(haystack@, word@),
{
    if word.len() == 0 {
        return false;
    }
    let h = lowered(haystack);
    let w = lowered(word);
    let n = h.len();
    let m = w.len();
    if m > n {
        assert forall|i: int| !word_at(h@, w@, i) by {}
        return false;
    }
    let mut i: usize = 0;
    while i <= n - m
        invariant
            m <= n,
            n == h@.len(),
            m == w@.len(),
            m > 0,
            h@ == ascii_lower(haystack@),
            w@ == ascii_lower(word@),
            forall|j: int| 0 <= j < i ==> !word_at(h@, w@, j),
        decreases n - m + 1 - i,
    {
        if matches_at(&h, &w, i) {
            let before_ok = i == 0 || !alnum(h[i - 1]);
            let after_ok = i + m >= n || !alnum(h[i + m]);
            if before_ok && after_ok {
                assert(word_at(h@, w@, i as int));
                return true;
            }
        }
        i = i + 1;
    }
    assert forall|j: int| !word_at(h@, w@, j) by {
        if j > n - m {
            assert(!occurs_at(h@, w@, j));
        }
    }
    false
}

/// Start of the trailing run of non-white characters of `t`.
pub open spec fn token_start(t: Seq<char>) -> int
    decreases t.len(),
{
    if t.len() == 0 {
        0
    } else if is_white(t.last()) {
        t.len() as int
    } else {
        token_start(t.drop_last())
    }
}

/// The last white-space separated token of `t`, if any.
pub open spec fn last_token(t: Seq<char>) -> Option<Seq<char>> {
    let u = trim_end(t);
    if u.len() == 0 {
        None
    } else {
        Some(u.subrange(token_start(u), u.len() as int))
    }
}

/// The ASCII letters of `t`, in order.
pub open spec fn keep_alpha(t: Seq<char>) -> Seq<char>
    decreases t.len(),
{
    if t.len() == 0 {
        t
    } else if is_ascii_alpha(t.last()) {
        keep_alpha(t.drop_last()).push(t.last())
    } else {
        keep_alpha(t.drop_last())
    }
}

/// "OTIS" / "otis" → "Otis" (ASCII only).
pub open spec fn titlecase_spec(s: Seq<char>) -> Seq<char> {
    if s.len() == 0 {
        s
    } else {
        seq![upper_char(s[0])] + ascii_lower(s.drop_first())
    }
}

/// "OTIS" / "otis" → "Otis". ASCII only; adequate for arena fighter names.
pub fn titlecase(s: &[char]) -> (r: Vec<char>)
    ensures
        r@ == titlecase_spec(s@),
{
    if s.len() == 0 {
        return Vec::new();
    }
    let mut r: Vec<char> = Vec::new();
    r.push(upper(s[0]));
    let rest = slice(s, 1, s.len());
    let low = lowered(&rest);
    crate::text::push_all(&mut r, &low);
    assert(rest@ =~= s@.drop_first());
    assert(r@ =~= titlecase_spec(s@));
    r
}

/// The last white-space separated token of `t`.
pub fn last_token_of(t: &[char]) -> (r: Option<Vec<char>>)
    ensures
        match r {
            Some(v) => last_token(t@) == Some(v@),
            None => last_token(t@) is None,
        },
{
    let u = trimmed_end(t);
    if u.len() == 0 {
        return None;
    }
    let mut k: usize = u.len();
    assert(u@.subrange(0, u@.len() as int) =~= u@);
    while k > 0 && !white(u[k - 1])
        invariant
            k <= u@.len(),
            token_start(u@) == token_start(u@.subrange(0, k as int)),
        decreases k,
    {
        proof {
            assert(u@.subrange(0, k as int).drop_last() =~= u@.subrange(0, k - 1));
        }
        k = k - 1;
    }
    proof {
        assert(u@.subrange(0, u@.len() as int) =~= u@);
        if k > 0 {
            assert(u@.subrange(0, k as int).last() == u@[k - 1]);
        } else {
            assert(u@.subrange(0, 0) =~= Seq::<char>::empty());
        }
    }
    Some(slice(&u, k, u.len()))
}

/// The ASCII letters of `t`.
pub fn letters_of(t: &[char]) -> (r: Vec<char>)
    ensures
        r@ == keep_alpha(t@),
{
    let mut r: Vec<char> = Vec::new();
    let mut i: usize = 0;
    while i < t.len()
        invariant
            i <= t@.len(),
            r@ == keep_alpha(t@.subrange(0, i as int)),
        decreases t@.len() - i,
    {
        proof {
            assert(t@.subrange(0, i + 1).drop_last() =~= t@.subrange(0, i as int));
        }
        if alpha(t[i]) {
            r.push(t[i]);
        }
        i = i + 1;
    }
    assert(t@.subrange(0, t@.len() as int) =~= t@);
    r
}

// ───────────────────────────── the tracker ─────────────────────────────

/// The fighters known to exist in the arena at the time of writing.
pub open spec fn seed_roster() -> Seq<Seq<char>> {
    seq!["Corrrak"@, "Dura"@, "Gloz"@, "Leo"@, "Otis"@, "Ushug"@, "Vizlark"@]
}

/// A fully-resolved arena match ready to persist.
#[derive(Debug, Clone, PartialEq, Eq)]
pub struct ArenaMatch {
    /// Local wall-clock timestamp ("YYYY-MM-DD HH:MM:SS") of the result line.
    pub fought_at: String,
    /// First-announced fighter (the "far side" / "Introducing" fighter).
    pub fighter_a: String,
    /// Second-announced fighter (the "side nearest me" fighter).
    pub fighter_b: String,
    /// Whichever of `fighter_a` / `fighter_b` won.
    pub winner: String,
}

/// The content of an [`ArenaMatch`].
pub struct MatchView {
    pub fought_at: Seq<char>,
    pub fighter_a: Seq<char>,
    pub fighter_b: Seq<char>,
    pub winner: Seq<char>,
}

impl View for ArenaMatch {
    type V = MatchView;

    open spec fn view(&self) -> MatchView {
        MatchView {
            fought_at: self.fought_at@,
            fighter_a: self.fighter_a@,
            fighter_b: self.fighter_b@,
            winner: self.winner@,
        }
    }
}

/// Stateful narration tracker. Feed it every parsed chat message via
/// [`ArenaTracker::observe`]; it emits an [`ArenaMatch`] when a match resolves.
#[derive(Debug)]
pub struct ArenaTracker {
    roster: Vec<String>,
    /// First fighter of the match currently being announced or fought.
    pending_a: Option<String>,
    /// Second fighter, once the "And on the side..." line lands.
    pending_b: Option<String>,
}

/// The content of an [`ArenaTracker`].
pub struct TrackerView {
    pub roster: Seq<Seq<char>>,
    pub pending_a: Option<Seq<char>>,
    pub pending_b: Option<Seq<char>>,
}

pub open spec fn opt_view(o: Option<String>) -> Option<Seq<char>> {
    match o {
        Some(s) => Some(s@),
        None => None,
    }
}

pub open spec fn opt_str(o: Option<&str>) -> Option<Seq<char>> {
    match o {
        Some(s) => Some(s@),
        None => None,
    }
}

pub open spec fn opt_match(o: Option<ArenaMatch>) -> Option<MatchView> {
    match o {
        Some(m) => Some(m@),
        None => None,
    }
}

impl View for ArenaTracker {
    type V = TrackerView;

    closed spec fn view(&self) -> TrackerView {
        TrackerView {
            roster: self.roster@.map_values(|s: String| s@),
            pending_a: opt_view(self.pending_a),
            pending_b: opt_view(self.pending_b),
        }
    }
}

/// `name` is in `roster`, ASCII case ignored.
pub open spec fn known(roster: Seq<Seq<char>>, name: Seq<char>) -> bool {
    exists|i: int| 0 <= i < roster.len() && eq_ignore_case(#[trigger] roster[i], name)
}

/// No two roster names are equal up to ASCII case.
pub open spec fn roster_distinct(roster: Seq<Seq<char>>) -> bool {
    forall|i: int, j: int|
        0 <= i < j < roster.len() ==> !eq_ignore_case(#[trigger] roster[i], #[trigger] roster[j])
}

/// The tracker's invariant: a distinct roster, pending fighters taken from
/// it, and a second fighter only once the first is known.
pub open spec fn tracker_wf(v: TrackerView) -> bool {
    &&& roster_distinct(v.roster)
    &&& (v.pending_a matches Some(a) ==> v.roster.contains(a))
    &&& (v.pending_b matches Some(b) ==> v.roster.contains(b))
    &&& (v.pending_b is Some ==> v.pending_a is Some)
}

/// The first roster name that appears as a whole word in `text`.
pub open spec fn first_known(roster: Seq<Seq<char>>, text: Seq<char>) -> Option<Seq<char>>
    decreases roster.len(),
{
    if roster.len() == 0 {
        None
    } else if contains_word_spec(text, roster[0]) {
        Some(roster[0])
    } else {
        first_known(roster.drop_first(), text)
    }
}

/// The roster after learning from one result phrasing `marker`: the single
/// token before the first `marker`, reduced to its ASCII letters, is added in
/// Titlecase when it has at least three letters and is not yet known.
pub open spec fn learn(roster: Seq<Seq<char>>, text: Seq<char>, marker: Seq<char>) -> Seq<Seq<char>> {
    match find_first(text, marker) {
        Some(idx) => match last_token(text.subrange(0, idx)) {
            Some(tok) => {
                let cleaned = keep_alpha(tok);
                let canon = titlecase_spec(cleaned);
                if cleaned.len() >= 3 && !known(roster, canon) {
                    roster.push(canon)
                } else {
                    roster
                }
            },
            None => roster,
        },
        None => roster,
    }
}

/// The roster after learning from both clean result phrasings.
pub open spec fn discovered(roster: Seq<Seq<char>>, text: Seq<char>) -> Seq<Seq<char>> {
    learn(learn(roster, text, " wins!"@), text, " loses!"@)
}

pub open spec fn has_win_marker(text: Seq<char>) -> bool {
    contains(text, " wins!"@) || contains(text, "is Undefeated!"@) || contains(text, "victory for"@)
}

pub open spec fn has_loss_marker(text: Seq<char>) -> bool {
    ||| contains(text, " loses!"@)
    ||| contains(text, "been defeated!"@)
    ||| contains(text, "has fallen"@)
    ||| contains(text, "has collapsed"@)
    ||| contains(text, " is down"@)
    ||| contains(text, " is out"@)
}

/// The winner a result line gives for the pair (a, b): the verb must be
/// unambiguous and exactly one of the pair named; a named winner wins, a named
/// loser hands the win to the other fighter.
pub open spec fn winner_of(text: Seq<char>, a: Seq<char>, b: Seq<char>) -> Option<Seq<char>> {
    let na = contains_word_spec(text, a);
    let nb = contains_word_spec(text, b);
    if has_win_marker(text) && !has_loss_marker(text) {
        if na && !nb {
            Some(a)
        } else if !na && nb {
            Some(b)
        } else {
            None
        }
    } else if has_loss_marker(text) && !has_win_marker(text) {
        if na && !nb {
            Some(b)
        } else if !na && nb {
            Some(a)
        } else {
            None
        }
    } else {
        None
    }
}

/// One step of the tracker: its next state and the match it resolves, if any.
pub open spec fn observe_step(
    st: TrackerView,
    channel: Option<Seq<char>>,
    sender: Option<Seq<char>>,
    text: Seq<char>,
    ts: Seq<char>,
) -> (TrackerView, Option<MatchView>) {
    if channel != Some("NPC Chatter"@) || sender != Some("Kuzavek"@) {
        (st, None)
    } else if starts_with(text, "Introducing"@) {
        (
            TrackerView {
                roster: st.roster,
                pending_a: first_known(st.roster, text),
                pending_b: None,
            },
            None,
        )
    } else if starts_with(text, "And on the side"@) {
        if st.pending_a is Some {
            (
                TrackerView {
                    roster: st.roster,
                    pending_a: st.pending_a,
                    pending_b: first_known(st.roster, text),
                },
                None,
            )
        } else {
            (st, None)
        }
    } else {
        let roster = discovered(st.roster, text);
        let kept = TrackerView { roster: roster, pending_a: st.pending_a, pending_b: st.pending_b };
        match (st.pending_a, st.pending_b) {
            (Some(a), Some(b)) => {
                if eq_ignore_case(a, b) {
                    (kept, None)
                } else {
                    match winner_of(text, a, b) {
                        Some(w) => (
                            TrackerView { roster: roster, pending_a: None, pending_b: None },
                            Some(MatchView { fought_at: ts, fighter_a: a, fighter_b: b, winner: w }),
                        ),
                        None => (kept, None),
                    }
                }
            },
            _ => (kept, None),
        }
    }
}

proof fn lemma_first_known_member(roster: Seq<Seq<char>>, text: Seq<char>)
    ensures
        first_known(roster, text) matches Some(n) ==> roster.contains(n),
    decreases roster.len(),
{
    if roster.len() > 0 && !contains_word_spec(text, roster[0]) {
        lemma_first_known_member(roster.drop_first(), text);
        if let Some(n) = first_known(roster.drop_first(), text) {
            let k = choose|k: int| 0 <= k < roster.drop_first().len() && roster.drop_first()[k] == n;
            assert(roster[k + 1] == n);
        }
    }
    if roster.len() > 0 && contains_word_spec(text, roster[0]) {
        assert(roster[0] == roster[0]);
    }
}

proof fn lemma_learn_grows(roster: Seq<Seq<char>>, text: Seq<char>, marker: Seq<char>)
    requires
        roster_distinct(roster),
    ensures
        roster_distinct(learn(roster, text, marker)),
        learn(roster, text, marker).len() >= roster.len(),
        learn(roster, text, marker).subrange(0, roster.len() as int) == roster,
{
    let r2 = learn(roster, text, marker);
    assert(r2.subrange(0, roster.len() as int) =~= roster);
    if r2.len() > roster.len() {
        let canon = r2.last();
        assert(!known(roster, canon));
        assert forall|i: int, j: int| 0 <= i < j < r2.len() implies !eq_ignore_case(
            #[trigger] r2[i],
            #[trigger] r2[j],
        ) by {
            if j == roster.len() {
                assert(r2[i] == roster[i]);
                if eq_ignore_case(r2[i], r2[j]) {
                    assert(known(roster, canon));
                }
            } else {
                assert(r2[i] == roster[i]);
                assert(r2[j] == roster[j]);
            }
        }
    }
}

/// Everything in `a` is still in `b` when `a` is a prefix of `b`.
proof fn lemma_prefix_contains(a: Seq<Seq<char>>, b: Seq<Seq<char>>, x: Seq<char>)
    requires
        a.len() <= b.len(),
        b.subrange(0, a.len() as int) == a,
        a.contains(x),
    ensures
        b.contains(x),
{
    let k = choose|k: int| 0 <= k < a.len() && a[k] == x;
    assert(b.subrange(0, a.len() as int)[k] == b[k]);
}

/// Observing a line keeps the tracker's invariant, only ever extends the
/// roster, and any resolved match names two different fighters of which one
/// won, after which no second fighter is pending. Without a second fighter
/// pending, only an "And on the side" line can name one, so no match is
/// reported again until such a line follows.
pub proof fn lemma_observe_step_laws(
    st: TrackerView,
    channel: Option<Seq<char>>,
    sender: Option<Seq<char>>,
    text: Seq<char>,
    ts: Seq<char>,
)
    requires
        tracker_wf(st),
    ensures
        tracker_wf(observe_step(st, channel, sender, text, ts).0),
        observe_step(st, channel, sender, text, ts).0.roster.len() >= st.roster.len(),
        observe_step(st, channel, sender, text, ts).0.roster.subrange(0, st.roster.len() as int)
            == st.roster,
        observe_step(st, channel, sender, text, ts).1 matches Some(m) ==> {
            &&& m.fought_at == ts
            &&& m.winner == m.fighter_a || m.winner == m.fighter_b
            &&& !eq_ignore_case(m.fighter_a, m.fighter_b)
            &&& st.pending_a == Some(m.fighter_a)
            &&& st.pending_b == Some(m.fighter_b)
            &&& observe_step(st, channel, sender, text, ts).0.pending_a is None
            &&& observe_step(st, channel, sender, text, ts).0.pending_b is None
        },
        st.pending_b is None && !is_side_line(channel, sender, text) ==> {
            &&& observe_step(st, channel, sender, text, ts).0.pending_b is None
            &&& observe_step(st, channel, sender, text, ts).1 is None
        },
{
    let (st2, m) = observe_step(st, channel, sender, text, ts);
    assert(st.roster.subrange(0, st.roster.len() as int) =~= st.roster);
    lemma_first_known_member(st.roster, text);
    if channel == Some("NPC Chatter"@) && sender == Some("Kuzavek"@) && !starts_with(
        text,
        "Introducing"@,
    ) && !starts_with(text, "And on the side"@) {
        let r1 = learn(st.roster, text, " wins!"@);
        lemma_learn_grows(st.roster, text, " wins!"@);
        lemma_learn_grows(r1, text, " loses!"@);
        let r2 = discovered(st.roster, text);
        assert(r2.subrange(0, r1.len() as int) == r1);
        assert(r2.subrange(0, st.roster.len() as int) =~= r1.subrange(0, st.roster.len() as int));
        if let Some(a) = st.pending_a {
            lemma_prefix_contains(st.roster, r2, a);
        }
        if let Some(b) = st.pending_b {
            lemma_prefix_contains(st.roster, r2, b);
        }
    }
}

/// Kuzavek's "And on the side" line, the one that names the second fighter.
pub open spec fn is_side_line(channel: Option<Seq<char>>, sender: Option<Seq<char>>, text: Seq<char>) -> bool {
    &&& channel == Some("NPC Chatter"@)
    &&& sender == Some("Kuzavek"@)
    &&& !starts_with(text, "Introducing"@)
    &&& starts_with(text, "And on the side"@)
}

/// A learned fighter name: Titlecase ASCII letters, at least three.
pub open spec fn learned_name(n: Seq<char>) -> bool {
    &&& n.len() >= 3
    &&& 'A' <= n[0] <= 'Z'
    &&& forall|k: int| 1 <= k < n.len() ==> 'a' <= #[trigger] n[k] <= 'z'
}

/// A roster that starts with the seed fighters, every later name learned.
pub open spec fn roster_shaped(roster: Seq<Seq<char>>) -> bool {
    &&& roster.len() >= seed_roster().len()
    &&& roster.subrange(0, seed_roster().len() as int) == seed_roster()
    &&& forall|i: int| seed_roster().len() <= i < roster.len() ==> learned_name(#[trigger] roster[i])
}

proof fn lemma_keep_alpha(t: Seq<char>)
    ensures
        forall|k: int| 0 <= k < keep_alpha(t).len() ==> is_ascii_alpha(#[trigger] keep_alpha(t)[k]),
    decreases t.len(),
{
    if t.len() > 0 {
        lemma_keep_alpha(t.drop_last());
        let prev = keep_alpha(t.drop_last());
        if is_ascii_alpha(t.last()) {
            assert forall|k: int| 0 <= k < keep_alpha(t).len() implies is_ascii_alpha(
                #[trigger] keep_alpha(t)[k],
            ) by {
                if k < prev.len() {
                    assert(keep_alpha(t)[k] == prev[k]);
                }
            }
        }
    }
}

proof fn lemma_titlecase_learned(s: Seq<char>)
    requires
        s.len() >= 3,
        forall|k: int| 0 <= k < s.len() ==> is_ascii_alpha(#[trigger] s[k]),
    ensures
        learned_name(titlecase_spec(s)),
{
    let t = titlecase_spec(s);
    let c = s[0];
    assert(is_ascii_alpha(s[0]));
    if 'a' <= c <= 'z' {
        assert(65 <= (c as u32) - 32 <= 90);
    }
    assert('A' <= t[0] <= 'Z');
    assert forall|k: int| 1 <= k < t.len() implies 'a' <= #[trigger] t[k] <= 'z' by {
        assert(t[k] == lower_char(s[k]));
        assert(is_ascii_alpha(s[k]));
        if 'A' <= s[k] <= 'Z' {
            assert(97 <= (s[k] as u32) + 32 <= 122);
        }
    }
}

proof fn lemma_learn_shaped(roster: Seq<Seq<char>>, text: Seq<char>, marker: Seq<char>)
    requires
        roster_shaped(roster),
    ensures
        roster_shaped(learn(roster, text, marker)),
{
    let r2 = learn(roster, text, marker);
    if r2.len() > roster.len() {
        let idx = find_first(text, marker)->0;
        let tok = last_token(text.subrange(0, idx))->0;
        lemma_keep_alpha(tok);
        lemma_titlecase_learned(keep_alpha(tok));
        assert(r2.subrange(0, seed_roster().len() as int) =~= roster.subrange(
            0,
            seed_roster().len() as int,
        ));
        assert forall|i: int| seed_roster().len() <= i < r2.len() implies learned_name(
            #[trigger] r2[i],
        ) by {
            if i < roster.len() {
                assert(r2[i] == roster[i]);
            }
        }
    }
}

/// From the seed fighters on, the tracker only ever appends learned names
/// to its roster: the seven seed fighters stay first, and every fighter it
/// learns is a Titlecase name of at least three ASCII letters.
pub proof fn lemma_roster_keeps_shape(
    st: TrackerView,
    channel: Option<Seq<char>>,
    sender: Option<Seq<char>>,
    text: Seq<char>,
    ts: Seq<char>,
)
    requires
        roster_shaped(st.roster),
    ensures
        roster_shaped(observe_step(st, channel, sender, text, ts).0.roster),
{
    lemma_learn_shaped(st.roster, text, " wins!"@);
    lemma_learn_shaped(learn(st.roster, text, " wins!"@), text, " loses!"@);
}

/// The first roster name (in roster order) that the line names as a word.
proof fn lemma_first_known_is_first(roster: Seq<Seq<char>>, text: Seq<char>)
    ensures
        first_known(roster, text) is None <==> forall|j: int|
            0 <= j < roster.len() ==> !contains_word_spec(text, #[trigger] roster[j]),
        first_known(roster, text) matches Some(n) ==> exists|k: int|
            0 <= k < roster.len() && roster[k] == n && contains_word_spec(text, n) && forall|j: int|
                0 <= j < k ==> !contains_word_spec(text, #[trigger] roster[j]),
    decreases roster.len(),
{
    if roster.len() > 0 {
        let rest = roster.drop_first();
        lemma_first_known_is_first(rest, text);
        if !contains_word_spec(text, roster[0]) {
            assert forall|j: int| 1 <= j < roster.len() implies roster[j] == rest[j - 1] by {}
            if first_known(rest, text) is None {
                assert forall|j: int| 0 <= j < roster.len() implies !contains_word_spec(
                    text,
                    #[trigger] roster[j],
                ) by {
                    if j > 0 {
                        assert(roster[j] == rest[j - 1]);
                    }
                }
            } else {
                let n = first_known(rest, text)->0;
                let k = choose|k: int|
                    0 <= k < rest.len() && rest[k] == n && contains_word_spec(text, n) && forall|j: int|
                        0 <= j < k ==> !contains_word_spec(text, #[trigger] rest[j]);
                assert(roster[k + 1] == n);
                assert forall|j: int| 0 <= j < k + 1 implies !contains_word_spec(text, #[trigger] roster[j]) by {
                    if j > 0 {
                        assert(roster[j] == rest[j - 1]);
                    }
                }
                if forall|j: int| 0 <= j < roster.len() ==> !contains_word_spec(text, #[trigger] roster[j]) {
                    assert(!contains_word_spec(text, roster[k + 1]));
                }
            }
        } else {
            assert(first_known(roster, text) == Some(roster[0]));
        }
    }
}

/// An "Introducing" line from Kuzavek starts a new pair: its first fighter
/// is the first roster fighter (in roster order) that the line names as a
/// whole word, none if it names none, and no second fighter is pending.
pub proof fn lemma_intro_picks_first_named(st: TrackerView, text: Seq<char>, ts: Seq<char>)
    requires
        starts_with(text, "Introducing"@),
    ensures
        ({
            let s2 = observe_step(st, Some("NPC Chatter"@), Some("Kuzavek"@), text, ts).0;
            &&& s2.pending_b is None
            &&& s2.roster == st.roster
            &&& s2.pending_a is None <==> forall|j: int|
                0 <= j < st.roster.len() ==> !contains_word_spec(text, #[trigger] st.roster[j])
            &&& s2.pending_a matches Some(n) ==> exists|k: int|
                0 <= k < st.roster.len() && st.roster[k] == n && contains_word_spec(text, n)
                    && forall|j: int| 0 <= j < k ==> !contains_word_spec(text, #[trigger] st.roster[j])
        }),
{
    lemma_first_known_is_first(st.roster, text);
}

/// The result rule of a pending pair (a, b): with W = the line holds one of
/// " wins!", "is Undefeated!", "victory for", and L = it holds one of
/// " loses!", "been defeated!", "has fallen", "has collapsed", " is down",
/// " is out", and A, B = the line names a, b as a whole word, a match is
/// resolved exactly when W != L and A != B; the named fighter wins with a
/// win phrase and loses with a loss phrase.
pub proof fn lemma_result_rule(st: TrackerView, text: Seq<char>, ts: Seq<char>, a: Seq<char>, b: Seq<char>)
    requires
        st.pending_a == Some(a),
        st.pending_b == Some(b),
        !eq_ignore_case(a, b),
        !starts_with(text, "Introducing"@),
        !starts_with(text, "And on the side"@),
    ensures
        ({
            let w = contains(text, " wins!"@) || contains(text, "is Undefeated!"@) || contains(
                text,
                "victory for"@,
            );
            let l = contains(text, " loses!"@) || contains(text, "been defeated!"@) || contains(
                text,
                "has fallen"@,
            ) || contains(text, "has collapsed"@) || contains(text, " is down"@) || contains(
                text,
                " is out"@,
            );
            let na = contains_word_spec(text, a);
            let nb = contains_word_spec(text, b);
            let r = observe_step(st, Some("NPC Chatter"@), Some("Kuzavek"@), text, ts).1;
            &&& r is Some <==> (w != l && na != nb)
            &&& r is Some ==> r->0 == MatchView {
                fought_at: ts,
                fighter_a: a,
                fighter_b: b,
                winner: if w == na {
                    a
                } else {
                    b
                },
            }
        }),
{
}

/// One chat message as the tracker reads it: (channel, sender, text,
/// timestamp).
pub type Observation = (Option<Seq<char>>, Option<Seq<char>>, Seq<char>, Seq<char>);

/// The tracker after observing `obs` in order from `st`, and what each
/// observation returned.
pub open spec fn observe_all(st: TrackerView, obs: Seq<Observation>) -> (TrackerView, Seq<Option<MatchView>>)
    decreases obs.len(),
{
    if obs.len() == 0 {
        (st, Seq::empty())
    } else {
        let (s1, ms) = observe_all(st, obs.drop_last());
        let o = obs.last();
        let (s2, m) = observe_step(s1, o.0, o.1, o.2, o.3);
        (s2, ms.push(m))
    }
}

/// A fresh tracker's roster has the seed fighters and nothing else.
pub proof fn lemma_seed_roster_shaped()
    ensures
        roster_shaped(seed_roster()),
        roster_distinct(seed_roster()),
{
    assert(seed_roster().subrange(0, seed_roster().len() as int) =~= seed_roster());
    reveal_strlit("Corrrak");
    reveal_strlit("Dura");
    reveal_strlit("Gloz");
    reveal_strlit("Leo");
    reveal_strlit("Otis");
    reveal_strlit("Ushug");
    reveal_strlit("Vizlark");
    let r = seed_roster();
    assert forall|i: int, j: int| 0 <= i < j < r.len() implies !eq_ignore_case(
        #[trigger] r[i],
        #[trigger] r[j],
    ) by {
        let a = ascii_lower(r[i]);
        let b = ascii_lower(r[j]);
        if r[i].len() == r[j].len() {
            assert(a[0] != b[0] || a[1] != b[1]);
        } else {
            assert(a.len() != b.len());
        }
    }
}

/// Over any run of observations from a tracker in a valid state: the
/// invariant holds at the end, the roster only grew, and its seed fighters
/// and learned-name shape are kept. Without a second fighter pending at the
/// start, and with no "And on the side" line among the observations, no
/// observation reports a match, so a resolved match is never reported
/// again until a new pair has been announced.
pub proof fn lemma_observe_all_laws(st: TrackerView, obs: Seq<Observation>)
    requires
        tracker_wf(st),
        roster_shaped(st.roster),
    ensures
        tracker_wf(observe_all(st, obs).0),
        roster_shaped(observe_all(st, obs).0.roster),
        observe_all(st, obs).0.roster.len() >= st.roster.len(),
        observe_all(st, obs).0.roster.subrange(0, st.roster.len() as int) == st.roster,
        observe_all(st, obs).1.len() == obs.len(),
        st.pending_b is None && (forall|i: int|
            0 <= i < obs.len() ==> !is_side_line(#[trigger] obs[i].0, obs[i].1, obs[i].2)) ==> {
            &&& observe_all(st, obs).0.pending_b is None
            &&& forall|k: int| 0 <= k < obs.len() ==> (#[trigger] observe_all(st, obs).1[k]) is None
        },
    decreases obs.len(),
{
    if obs.len() > 0 {
        let p = obs.drop_last();
        lemma_observe_all_laws(st, p);
        let (s1, ms) = observe_all(st, p);
        let o = obs.last();
        lemma_observe_step_laws(s1, o.0, o.1, o.2, o.3);
        lemma_roster_keeps_shape(s1, o.0, o.1, o.2, o.3);
        let s2 = observe_step(s1, o.0, o.1, o.2, o.3).0;
        assert(s2.roster.subrange(0, st.roster.len() as int) =~= s2.roster.subrange(
            0,
            s1.roster.len() as int,
        ).subrange(0, st.roster.len() as int));
        if st.pending_b is None && (forall|i: int|
            0 <= i < obs.len() ==> !is_side_line(#[trigger] obs[i].0, obs[i].1, obs[i].2)) {
            assert forall|i: int| 0 <= i < p.len() implies !is_side_line(
                #[trigger] p[i].0,
                p[i].1,
                p[i].2,
            ) by {
                assert(p[i] == obs[i]);
            }
            assert(!is_side_line(obs[obs.len() - 1].0, obs[obs.len() - 1].1, obs[obs.len() - 1].2));
            let all = observe_all(st, obs).1;
            assert forall|k: int| 0 <= k < obs.len() implies (#[trigger] all[k]) is None by {
                if k < p.len() {
                    assert(all[k] == ms[k]);
                }
            }
        }
    }
}

impl ArenaTracker {
    /// The tracker's invariant (see [`tracker_wf`]).
    pub open spec fn wf(&self) -> bool {
        tracker_wf(self@)
    }

    /// A tracker seeded with the known roster and no pending match.
    pub fn new() -> (t: Self)
        ensures
            t@.roster == seed_roster(),
            t@.pending_a is None,
            t@.pending_b is None,
            t.wf(),
    {
        let mut roster: Vec<String> = Vec::new();
        roster.push("Corrrak".to_owned());
        roster.push("Dura".to_owned());
        roster.push("Gloz".to_owned());
        roster.push("Leo".to_owned());
        roster.push("Otis".to_owned());
        roster.push("Ushug".to_owned());
        roster.push("Vizlark".to_owned());
        let t = ArenaTracker { roster, pending_a: None, pending_b: None };
        proof {
            assert(t@.roster =~= seed_roster());
            reveal_strlit("Corrrak");
            reveal_strlit("Dura");
            reveal_strlit("Gloz");
            reveal_strlit("Leo");
            reveal_strlit("Otis");
            reveal_strlit("Ushug");
            reveal_strlit("Vizlark");
            let s = seed_roster();
            assert(s[0][0] == 'C' && s[0].len() == 7);
            assert(s[1][0] == 'D' && s[1].len() == 4);
            assert(s[2][0] == 'G' && s[2].len() == 4);
            assert(s[3][0] == 'L' && s[3].len() == 3);
            assert(s[4][0] == 'O' && s[4].len() == 4);
            assert(s[5][0] == 'U' && s[5].len() == 5);
            assert(s[6][0] == 'V' && s[6].len() == 7);
            assert forall|i: int, j: int| 0 <= i < j < s.len() implies !eq_ignore_case(
                #[trigger] s[i],
                #[trigger] s[j],
            ) by {
                if eq_ignore_case(s[i], s[j]) {
                    let a = ascii_lower(s[i]);
                    let b = ascii_lower(s[j]);
                    assert(a.len() == s[i].len() && b.len() == s[j].len());
                    assert(a[0] == lower_char(s[i][0]));
                    assert(b[0] == lower_char(s[j][0]));
                    assert(a[0] == b[0]);
                    assert(i == 0 || i == 1 || i == 2 || i == 3 || i == 4 || i == 5);
                }
            }
        }
        t
    }

    /// Current roster (seed plus discovered fighters).
    pub fn roster(&self) -> (r: &[String])
        ensures
            r@.map_values(|s: String| s@) == self@.roster,
    {
        self.roster.as_slice()
    }

    /// First roster name appearing as a whole word in `text`.
    fn extract_known(&self, text: &[char]) -> (r: Option<String>)
        ensures
            opt_view(r) == first_known(self@.roster, text@),
    {
        let ghost all = self@.roster;
        assert(all.subrange(0, all.len() as int) =~= all);
        let mut i: usize = 0;
        while i < self.roster.len()
            invariant
                i <= self.roster@.len(),
                all == self@.roster,
                first_known(all, text@) == first_known(all.subrange(i as int, all.len() as int), text@),
            decreases self.roster@.len() - i,
        {
            let name = chars_of(self.roster[i].as_str());
            proof {
                let s = all.subrange(i as int, all.len() as int);
                assert(s[0] == all[i as int]);
                assert(s.drop_first() =~= all.subrange(i + 1, all.len() as int));
            }
            if contains_word_chars(text, &name) {
                return Some(self.roster[i].clone());
            }
            i = i + 1;
        }
        None
    }

    /// Is `name` already on the roster (ASCII case ignored)?
    fn is_known(&self, name: &[char]) -> (b: bool)
        ensures
            b == known(self@.roster, name@),
    {
        let mut i: usize = 0;
        while i < self.roster.len()
            invariant
                i <= self.roster@.len(),
                forall|j: int| 0 <= j < i ==> !eq_ignore_case(#[trigger] self@.roster[j], name@),
            decreases self.roster@.len() - i,
        {
            let n = chars_of(self.roster[i].as_str());
            if same_ignoring_case(&n, name) {
                assert(eq_ignore_case(self@.roster[i as int], name@));
                return true;
            }
            i = i + 1;
        }
        false
    }

    /// Learn a fighter name from one clean result phrasing.
    fn learn_from(&mut self, text: &[char], marker: &str)
        ensures
            final(self)@.roster == learn(old(self)@.roster, text@, marker@),
            final(self)@.pending_a == old(self)@.pending_a,
            final(self)@.pending_b == old(self)@.pending_b,
    {
        let mc = chars_of(marker);
        let n = text.len();
        if let Some(idx) = find(text, &mc) {
            let before = slice(text, 0, idx);
            if let Some(tok) = last_token_of(&before) {
                let cleaned = letters_of(&tok);
                if cleaned.len() >= 3 {
                    let canon = titlecase(&cleaned);
                    if !self.is_known(&canon) {
                        self.roster.push(string_of(&canon));
                        assert(self@.roster =~= old(self)@.roster.push(canon@));
                    }
                }
            }
        }
    }

    /// Learn fighter names from the clean `"<Name> wins!"` / `"<Name> loses!"`
    /// phrasings.
    fn discover(&mut self, text: &[char])
        ensures
            final(self)@.roster == discovered(old(self)@.roster, text@),
            final(self)@.pending_a == old(self)@.pending_a,
            final(self)@.pending_b == old(self)@.pending_b,
    {
        self.learn_from(text, " wins!");
        self.learn_from(text, " loses!");
    }

    /// Feed one chat message. `channel`/`sender`/`text` come from the parsed
    /// chat message; `timestamp` is the local "YYYY-MM-DD HH:MM:SS" text.
    /// Returns `Some(match)` only when a match resolves on this line.
    pub fn observe(
        &mut self,
        channel: Option<&str>,
        sender: Option<&str>,
        text: &str,
        timestamp: &str,
    ) -> (r: Option<ArenaMatch>)
        requires
            old(self).wf(),
        ensures
            final(self).wf(),
            (final(self)@, opt_match(r)) == observe_step(
                old(self)@,
                opt_str(channel),
                opt_str(sender),
                text@,
                timestamp@,
            ),
    {
        proof {
            lemma_observe_step_laws(
                self@,
                opt_str(channel),
                opt_str(sender),
                text@,
                timestamp@,
            );
        }
        let is_npc = match channel {
            Some(c) => crate::text::equals_str(&chars_of(c), "NPC Chatter"),
            None => false,
        };
        let is_kuzavek = match sender {
            Some(s) => crate::text::equals_str(&chars_of(s), "Kuzavek"),
            None => false,
        };
        if !is_npc || !is_kuzavek {
            return None;
        }
        let t = chars_of(text);
        if has_prefix_str(&t, "Introducing") {
            let a = self.extract_known(&t);
            self.pending_a = a;
            self.pending_b = None;
            return None;
        }
        if has_prefix_str(&t, "And on the side") {
            if self.pending_a.is_some() {
                self.pending_b = self.extract_known(&t);
            }
            return None;
        }
        self.discover(&t);
        let (a, b) = match (&self.pending_a, &self.pending_b) {
            (Some(a), Some(b)) => (a.clone(), b.clone()),
            _ => return None,
        };
        let ac = chars_of(a.as_str());
        let bc = chars_of(b.as_str());
        if same_ignoring_case(&ac, &bc) {
            return None;
        }
        let has_win = has_str(&t, " wins!") || has_str(&t, "is Undefeated!") || has_str(
            &t,
            "victory for",
        );
        let has_loss = has_str(&t, " loses!") || has_str(&t, "been defeated!") || has_str(
            &t,
            "has fallen",
        ) || has_str(&t, "has collapsed") || has_str(&t, " is down") || has_str(&t, " is out");
        let names_a = contains_word_chars(&t, &ac);
        let names_b = contains_word_chars(&t, &bc);
        let winner = if has_win && !has_loss {
            if names_a && !names_b {
                a.clone()
            } else if !names_a && names_b {
                b.clone()
            } else {
                return None;
            }
        } else if has_loss && !has_win {
            if names_a && !names_b {
                b.clone()
            } else if !names_a && names_b {
                a.clone()
            } else {
                return None;
            }
        } else {
            return None;
        };
        self.pending_b = None;
        self.pending_a = None;
        Some(ArenaMatch { fought_at: timestamp.to_owned(), fighter_a: a, fighter_b: b, winner })
    }
}

// ───────────────────────────── personal betting tracker ─────────────────────────────
//
// The player's own bets are placed through Kuzavek's talk screen in
// `Player.log`. A "Confirm Bet" screen names wager, pick, opponent and payout;
// a "Success!" screen confirms the placement; a "You received <payout>
// Councils." screen text before the next bet means the bet won, and the next
// bet being confirmed with no payout seen means the previous bet lost.

/// A resolved personal bet, ready to persist.
#[derive(Debug, Clone, PartialEq, Eq)]
pub struct ArenaBet {
    /// "YYYY-MM-DD HH:MM:SS" datetime the bet was placed.
    pub placed_at: String,
    /// Fighter the player bet on.
    pub pick: String,
    /// The opposing fighter.
    pub opponent: String,
    /// Councils wagered.
    pub wager: i64,
    /// Councils the player receives if the pick wins.
    pub payout: i64,
    /// Whether the pick won (payout received before the next bet).
    pub won: bool,
}

/// A bet awaiting resolution.
#[derive(Debug, Clone)]
pub struct PendingBet {
    pub placed_at: String,
    pub pick: String,
    pub opponent: String,
    pub wager: i64,
    pub payout: i64,
}

/// The content of a [`PendingBet`].
pub struct PendingView {
    pub placed_at: Seq<char>,
    pub pick: Seq<char>,
    pub opponent: Seq<char>,
    pub wager: i64,
    pub payout: i64,
}

/// The content of an [`ArenaBet`].
pub struct BetView {
    pub placed_at: Seq<char>,
    pub pick: Seq<char>,
    pub opponent: Seq<char>,
    pub wager: i64,
    pub payout: i64,
    pub won: bool,
}

impl View for PendingBet {
    type V = PendingView;

    open spec fn view(&self) -> PendingView {
        PendingView {
            placed_at: self.placed_at@,
            pick: self.pick@,
            opponent: self.opponent@,
            wager: self.wager,
            payout: self.payout,
        }
    }
}

impl View for ArenaBet {
    type V = BetView;

    open spec fn view(&self) -> BetView {
        BetView {
            placed_at: self.placed_at@,
            pick: self.pick@,
            opponent: self.opponent@,
            wager: self.wager,
            payout: self.payout,
            won: self.won,
        }
    }
}

pub open spec fn opt_pending(o: Option<PendingBet>) -> Option<PendingView> {
    match o {
        Some(b) => Some(b@),
        None => None,
    }
}

pub open spec fn opt_bet(o: Option<ArenaBet>) -> Option<BetView> {
    match o {
        Some(b) => Some(b@),
        None => None,
    }
}

/// A pending bet resolved with the given outcome.
pub open spec fn settled(b: PendingView, won: bool) -> BetView {
    BetView {
        placed_at: b.placed_at,
        pick: b.pick,
        opponent: b.opponent,
        wager: b.wager,
        payout: b.payout,
        won: won,
    }
}

/// The "Confirm Bet" line with its emphasis tags removed.
pub open spec fn without_emphasis(line: Seq<char>) -> Seq<char> {
    remove_all(remove_all(line, "<em>"@), "</em>"@)
}

/// What a "Confirm Bet" talk-screen line says: "You are betting <wager>
/// Councils that <pick> defeats <opponent> in the next arena match. ... you will
/// receive <payout> Councils."
pub open spec fn confirm_bet_spec(line: Seq<char>, placed_at: Seq<char>) -> Option<PendingView> {
    let clean = without_emphasis(line);
    match second_piece(clean, "You are betting "@) {
        Some(after_bet) => match (
            loose_number(before_first(after_bet, " Councils that "@)),
            second_piece(after_bet, " Councils that "@),
        ) {
            (Some(wager), Some(after_that)) => {
                let pick = trim(before_first(after_that, " defeats "@));
                match second_piece(after_that, " defeats "@) {
                    Some(after_defeats) => {
                        let opponent = trim(
                            before_first(after_defeats, " in the next arena match"@),
                        );
                        match second_piece(clean, "you will receive "@) {
                            Some(after_receive) => match loose_number(
                                before_first(after_receive, " Councils"@),
                            ) {
                                Some(payout) => if pick.len() == 0 || opponent.len() == 0 {
                                    None
                                } else {
                                    Some(
                                        PendingView {
                                            placed_at: placed_at,
                                            pick: pick,
                                            opponent: opponent,
                                            wager: wager,
                                            payout: payout,
                                        },
                                    )
                                },
                                None => None,
                            },
                            None => None,
                        }
                    },
                    None => None,
                }
            },
            _ => None,
        },
        None => None,
    }
}

/// The pick named by "Success! You have placed your bet for X." (non-empty).
pub open spec fn placed_pick_spec(line: Seq<char>) -> Option<Seq<char>> {
    match second_piece(line, "Success! You have placed your bet for "@) {
        Some(after) => {
            let pick = trim(before_first(after, "."@));
            if pick.len() == 0 {
                None
            } else {
                Some(pick)
            }
        },
        None => None,
    }
}

/// The amount of a "You received 14,250 Councils." line.
pub open spec fn received_councils_spec(line: Seq<char>) -> Option<i64> {
    match second_piece(line, "You received "@) {
        Some(after) => loose_number(before_first(after, " Councils."@)),
        None => None,
    }
}

/// The state of an [`ArenaBetTracker`].
pub struct BetTrackerView {
    pub tentative: Option<PendingView>,
    pub active: Option<PendingView>,
}

pub open spec fn is_confirm_line(line: Seq<char>) -> bool {
    contains(line, "\"Confirm Bet\""@) && contains(line, "You are betting "@) && contains(
        line,
        " in the next arena match"@,
    )
}

pub open spec fn is_success_line(line: Seq<char>) -> bool {
    contains(line, "Success! You have placed your bet for "@)
}

pub open spec fn is_payout_line(line: Seq<char>) -> bool {
    contains(line, "ProcessScreenText("@) && contains(line, "You received "@) && contains(
        line,
        " Councils."@,
    )
}

/// One step of the bet tracker: its next state and the bet the line resolves.
pub open spec fn bet_step(st: BetTrackerView, line: Seq<char>, placed_at: Seq<char>) -> (
    BetTrackerView,
    Option<BetView>,
) {
    if is_confirm_line(line) {
        match confirm_bet_spec(line, placed_at) {
            Some(bet) => (
                BetTrackerView { tentative: Some(bet), active: None },
                match st.active {
                    Some(a) => Some(settled(a, false)),
                    None => None,
                },
            ),
            None => (st, None),
        }
    } else if is_success_line(line) {
        match (placed_pick_spec(line), st.tentative) {
            (Some(pick), Some(t)) => if eq_ignore_case(t.pick, pick) {
                (BetTrackerView { tentative: None, active: Some(t) }, None)
            } else {
                (BetTrackerView { tentative: None, active: st.active }, None)
            },
            _ => (st, None),
        }
    } else if is_payout_line(line) {
        match (received_councils_spec(line), st.active) {
            (Some(amount), Some(a)) => if a.payout == amount {
                (BetTrackerView { tentative: st.tentative, active: None }, Some(settled(a, true)))
            } else {
                (st, None)
            },
            _ => (st, None),
        }
    } else {
        (st, None)
    }
}

/// Every bet the tracker reports was the active bet before the line: it won
/// when the line paid out exactly its payout, and it lost when the line
/// confirmed the next bet.
pub proof fn lemma_bet_step_laws(st: BetTrackerView, line: Seq<char>, placed_at: Seq<char>)
    ensures
        bet_step(st, line, placed_at).1 matches Some(b) ==> {
            &&& st.active matches Some(a)
            &&& b == settled(a, b.won)
            &&& b.won ==> is_payout_line(line) && received_councils_spec(line) == Some(a.payout)
            &&& !b.won ==> is_confirm_line(line) && bet_step(
                st,
                line,
                placed_at,
            ).0.tentative == confirm_bet_spec(line, placed_at)
        },
        bet_step(st, line, placed_at).0.active matches Some(a) ==> st.active == Some(a) || (
        st.tentative == Some(a) && is_success_line(line)),
{
}

/// Parse a "Confirm Bet" talk-screen line into a [`PendingBet`] dated
/// `placed_at`.
pub fn parse_confirm_bet(line: &str, placed_at: &str) -> (r: Option<PendingBet>)
    ensures
        opt_pending(r) == confirm_bet_spec(line@, placed_at@),
{
    let raw = chars_of(line);
    let em = chars_of("<em>");
    let em_end = chars_of("</em>");
    let step = removed_all(&raw, &em);
    let clean = removed_all(&step, &em_end);
    let after_bet = match second_piece_str(&clean, "You are betting ") {
        Some(a) => a,
        None => return None,
    };
    let wager_str = before_first_str(&after_bet, " Councils that ");
    let wager = match parse_loose_number(&wager_str) {
        Some(w) => w,
        None => return None,
    };
    let after_that = match second_piece_str(&after_bet, " Councils that ") {
        Some(a) => a,
        None => return None,
    };
    let pick_raw = before_first_str(&after_that, " defeats ");
    let pick = trimmed(&pick_raw);
    let after_defeats = match second_piece_str(&after_that, " defeats ") {
        Some(a) => a,
        None => return None,
    };
    let opp_raw = before_first_str(&after_defeats, " in the next arena match");
    let opponent = trimmed(&opp_raw);
    let after_receive = match second_piece_str(&clean, "you will receive ") {
        Some(a) => a,
        None => return None,
    };
    let payout_str = before_first_str(&after_receive, " Councils");
    let payout = match parse_loose_number(&payout_str) {
        Some(p) => p,
        None => return None,
    };
    if pick.len() == 0 || opponent.len() == 0 {
        return None;
    }
    Some(
        PendingBet {
            placed_at: placed_at.to_owned(),
            pick: string_of(&pick),
            opponent: string_of(&opponent),
            wager,
            payout,
        },
    )
}

/// Parse the picked fighter from a "Success! You have placed your bet for X." line.
pub fn parse_placed_pick(line: &str) -> (r: Option<String>)
    ensures
        opt_view(r) == placed_pick_spec(line@),
{
    let t = chars_of(line);
    let after = match second_piece_str(&t, "Success! You have placed your bet for ") {
        Some(a) => a,
        None => return None,
    };
    let raw = before_first_str(&after, ".");
    let pick = trimmed(&raw);
    if pick.len() == 0 {
        None
    } else {
        Some(string_of(&pick))
    }
}

/// Parse the amount from a `... "You received 14,250 Councils." ...` line.
pub fn parse_received_councils(line: &str) -> (r: Option<i64>)
    ensures
        r == received_councils_spec(line@),
{
    let t = chars_of(line);
    let after = match second_piece_str(&t, "You received ") {
        Some(a) => a,
        None => return None,
    };
    let num = before_first_str(&after, " Councils.");
    parse_loose_number(&num)
}

/// Stateful tracker over `Player.log` lines that resolves the player's own bets
/// into win/loss outcomes. Feed it lines in order via
/// [`ArenaBetTracker::observe_line`].
#[derive(Debug)]
pub struct ArenaBetTracker {
    /// Set on a "Confirm Bet" screen, before the "Success!" placement confirms it.
    tentative: Option<PendingBet>,
    /// Set once placement is confirmed, awaiting the fight outcome.
    active: Option<PendingBet>,
}

impl View for ArenaBetTracker {
    type V = BetTrackerView;

    closed spec fn view(&self) -> BetTrackerView {
        BetTrackerView { tentative: opt_pending(self.tentative), active: opt_pending(self.active) }
    }
}

fn settle(b: PendingBet, won: bool) -> (r: ArenaBet)
    ensures
        r@ == settled(b@, won),
{
    ArenaBet {
        placed_at: b.placed_at,
        pick: b.pick,
        opponent: b.opponent,
        wager: b.wager,
        payout: b.payout,
        won,
    }
}

impl ArenaBetTracker {
    /// A tracker with no bet in flight.
    pub fn new() -> (t: Self)
        ensures
            t@.tentative is None,
            t@.active is None,
    {
        ArenaBetTracker { tentative: None, active: None }
    }

    /// Feed one `Player.log` line; `placed_at` is the "YYYY-MM-DD HH:MM:SS"
    /// datetime of the line, used when it confirms a bet. Returns a resolved
    /// bet when this line resolves one: a win (its payout received) or the
    /// previous bet's loss (a new bet confirmed with no payout seen).
    pub fn observe_line(&mut self, line: &str, placed_at: &str) -> (r: Option<ArenaBet>)
        ensures
            (final(self)@, opt_bet(r)) == bet_step(old(self)@, line@, placed_at@),
    {
        let t = chars_of(line);
        if has_str(&t, "\"Confirm Bet\"") && has_str(&t, "You are betting ") && has_str(
            &t,
            " in the next arena match",
        ) {
            if let Some(bet) = parse_confirm_bet(line, placed_at) {
                let loss = match self.active.take() {
                    Some(b) => Some(settle(b, false)),
                    None => None,
                };
                self.tentative = Some(bet);
                return loss;
            }
            return None;
        }
        if has_str(&t, "Success! You have placed your bet for ") {
            if let Some(pick) = parse_placed_pick(line) {
                if let Some(tb) = self.tentative.take() {
                    let a = chars_of(tb.pick.as_str());
                    let b = chars_of(pick.as_str());
                    if same_ignoring_case(&a, &b) {
                        self.active = Some(tb);
                    }
                }
            }
            return None;
        }
        if has_str(&t, "ProcessScreenText(") && has_str(&t, "You received ") && has_str(
            &t,
            " Councils.",
        ) {
            if let Some(amount) = parse_received_councils(line) {
                let matches = match &self.active {
                    Some(a) => a.payout == amount,
                    None => false,
                };
                if matches {
                    let b = self.active.take();
                    if let Some(b) = b {
                        return Some(settle(b, true));
                    }
                }
            }
        }
        None
    }
}

} // verus!
