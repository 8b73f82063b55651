//! Replaying archived logs and ingesting old Player.log files.
//!
//! A replay interleaves Player.log lines and Chat.log messages by their UTC
//! second, a Chat.log login first within a second (it carries the time zone),
//! then Player.log lines, then chat messages. An ingest records every
//! lootable corpse search of an old Player.log as a kill, with the loot taken
//! from it, once per distinct file content.
use vstd::prelude::*;

use crate::chat::ChatMessage;
use crate::sort::{key_views, sort_by_keys, stably_sorted};
use crate::text::{
    after_first, after_first_str, before_first, before_first_str, chars_of, contains, decimal,
    decimal_chars, digit, digit_char, has_str, is_white, opt_chars, push_all, slice,
    string_of, trim, trimmed, white,
};

verus! {

/// Progress reported to the frontend during a replay.
pub struct ReplayProgress {
    pub phase: String,
    pub current: usize,
    pub total: usize,
    pub detail: String,
}

/// Replay result summary.
pub struct ReplayResult {
    pub player_lines_processed: usize,
    pub chat_messages_processed: usize,
    pub player_events_emitted: usize,
    pub chat_status_events_emitted: usize,
}

/// Result of a historical ingest of a Player.log file.
pub struct IngestResult {
    /// Lootable searched corpses recorded as kills.
    pub kills_added: usize,
    /// Loot rows attributed to those kills.
    pub loot_added: usize,
    /// This exact file content was ingested before (nothing was done).
    pub already_ingested: bool,
}

/// A timestamped event from either log, for interleaving.
pub enum TimedEvent {
    /// A Player.log line.
    PlayerLine { utc_second: i64, line: String },
    /// A Chat.log message.
    ChatMessage { utc_second: i64, msg: ChatMessage },
    /// A Chat.log login, which carries the time zone offset.
    ChatLogin {
        utc_second: i64,
        server_name: String,
        character_name: String,
        timezone_offset_seconds: Option<i32>,
    },
}

// ───────────────────────────── ordering ─────────────────────────────

/// Within a second: logins first, then Player.log lines, then chat messages.
pub open spec fn source_rank(e: TimedEvent) -> int {
    match e {
        TimedEvent::ChatLogin { .. } => 0,
        TimedEvent::PlayerLine { .. } => 1,
        TimedEvent::ChatMessage { .. } => 2,
    }
}

pub open spec fn event_second(e: TimedEvent) -> int {
    match e {
        TimedEvent::PlayerLine { utc_second, .. } => utc_second as int,
        TimedEvent::ChatMessage { utc_second, .. } => utc_second as int,
        TimedEvent::ChatLogin { utc_second, .. } => utc_second as int,
    }
}

/// The interleaving order: by UTC second, then by source.
pub open spec fn event_key(e: TimedEvent) -> Seq<i128> {
    seq![event_second(e) as i128, source_rank(e) as i128]
}

pub open spec fn event_keys(es: Seq<TimedEvent>) -> Seq<Seq<i128>> {
    es.map_values(|e: TimedEvent| event_key(e))
}

impl TimedEvent {
    /// The UTC second the event is ordered by.
    pub fn utc_second(&self) -> (s: i64)
        ensures
            s == event_second(*self),
    {
        match self {
            TimedEvent::PlayerLine { utc_second, .. } => *utc_second,
            TimedEvent::ChatMessage { utc_second, .. } => *utc_second,
            TimedEvent::ChatLogin { utc_second, .. } => *utc_second,
        }
    }

    /// (UTC second, source rank).
    pub fn sort_key(&self) -> (k: (i64, u8))
        ensures
            k.0 == event_second(*self),
            k.1 == source_rank(*self),
    {
        match self {
            TimedEvent::ChatLogin { utc_second, .. } => (*utc_second, 0),
            TimedEvent::PlayerLine { utc_second, .. } => (*utc_second, 1),
            TimedEvent::ChatMessage { utc_second, .. } => (*utc_second, 2),
        }
    }
}

/// The events of both logs in replay order: by UTC second, logins before
/// Player.log lines before chat messages within a second, and otherwise in
/// the order given (a stable sort).
pub fn order_events(events: Vec<TimedEvent>) -> (out: Vec<TimedEvent>)
    ensures
        stably_sorted(out@, events@, event_keys(events@)),
{
    let mut keys: Vec<Vec<i128>> = Vec::new();
    let mut i: usize = 0;
    while i < events.len()
        invariant
            i <= events@.len(),
            key_views(keys@) == event_keys(events@).take(i as int),
        decreases events@.len() - i,
    {
        let (s, r) = events[i].sort_key();
        let mut k: Vec<i128> = Vec::new();
        k.push(s as i128);
        k.push(r as i128);
        let ghost before = keys@;
        keys.push(k);
        proof {
            assert(k@ =~= event_key(events@[i as int]));
            assert(keys@ =~= before.push(k));
            assert(key_views(keys@) =~= key_views(before).push(k@));
            assert(event_keys(events@).take(i + 1) =~= event_keys(events@).take(i as int).push(
                event_key(events@[i as int]),
            ));
        }
        i = i + 1;
    }
    proof {
        assert(key_views(keys@) =~= event_keys(events@));
    }
    sort_by_keys(events, keys)
}

/// A chat login placed at second zero, so that it comes before everything
/// else; other events are unchanged.
pub open spec fn login_first(e: TimedEvent) -> TimedEvent {
    match e {
        TimedEvent::ChatLogin { server_name, character_name, timezone_offset_seconds, .. } =>
            TimedEvent::ChatLogin {
            utc_second: 0,
            server_name,
            character_name,
            timezone_offset_seconds,
        },
        other => other,
    }
}

/// The events of a replay: the Player.log events, then the chat events
/// with their logins moved to second zero, all in replay order (see
/// [`order_events`]).
pub fn merge_replay_events(player: Vec<TimedEvent>, chat: Vec<TimedEvent>) -> (out: Vec<
    TimedEvent,
>)
    ensures
        stably_sorted(
            out@,
            player@ + chat@.map_values(|e: TimedEvent| login_first(e)),
            event_keys(player@ + chat@.map_values(|e: TimedEvent| login_first(e))),
        ),
{
    let ghost want = player@ + chat@.map_values(|e: TimedEvent| login_first(e));
    let ghost p0 = player@;
    let ghost c0 = chat@;
    let mut all = player;
    let mut rest = chat;
    let mut i: usize = 0;
    let n = rest.len();
    assert(c0.skip(0) =~= c0);
    while rest.len() > 0
        invariant
            i + rest@.len() == n,
            n == c0.len(),
            rest@ == c0.skip(i as int),
            all@ == p0 + c0.take(i as int).map_values(|e: TimedEvent| login_first(e)),
        decreases rest@.len(),
    {
        let e = rest.remove(0);
        proof {
            assert(e == c0[i as int]);
            assert(rest@ =~= c0.skip(i + 1));
        }
        let moved = match e {
            TimedEvent::ChatLogin { server_name, character_name, timezone_offset_seconds, .. } =>
                TimedEvent::ChatLogin {
                utc_second: 0,
                server_name,
                character_name,
                timezone_offset_seconds,
            },
            other => other,
        };
        let ghost before = all@;
        all.push(moved);
        proof {
            assert(moved == login_first(c0[i as int]));
            assert(c0.take(i + 1).map_values(|e: TimedEvent| login_first(e)) =~= c0.take(
                i as int,
            ).map_values(|e: TimedEvent| login_first(e)).push(login_first(c0[i as int])));
            assert(all@ =~= p0 + c0.take(i + 1).map_values(|e: TimedEvent| login_first(e)));
        }
        i = i + 1;
    }
    assert(c0.take(n as int) =~= c0);
    assert(all@ =~= want);
    order_events(all)
}

/// The `[HH:MM:SS]` stamp of a Player.log line, as the caller read it.
#[derive(Clone, Copy, PartialEq, Eq, Structural)]
pub enum LineStamp {
    /// The line has no stamp (login announcements and the like).
    Missing,
    /// The line has a stamp that is no valid time of day.
    Unreadable,
    /// The UTC second the stamp gives on the base date.
    At(i64),
}

/// The text of a Player.log line as kept: without trailing white space.
/// Lines that are empty then are dropped, and so are lines whose stamp is
/// no valid time; a line with a stamp is at the second it gives, a line
/// without one at the second of the event before it (dropped when there is
/// none).
pub open spec fn player_events_of(lines: Seq<(Seq<char>, LineStamp)>) -> Seq<(i64, Seq<char>)>
    decreases lines.len(),
{
    if lines.len() == 0 {
        Seq::empty()
    } else {
        let acc = player_events_of(lines.drop_last());
        let l = crate::text::trim_end(lines.last().0);
        if l.len() == 0 {
            acc
        } else {
            match lines.last().1 {
                LineStamp::At(sec) => acc.push((sec, l)),
                LineStamp::Unreadable => acc,
                LineStamp::Missing => if acc.len() > 0 {
                    acc.push((acc.last().0, l))
                } else {
                    acc
                },
            }
        }
    }
}

pub open spec fn line_inputs(lines: Seq<(String, LineStamp)>) -> Seq<(Seq<char>, LineStamp)> {
    lines.map_values(|l: (String, LineStamp)| (l.0@, l.1))
}

pub open spec fn player_line_view(e: TimedEvent) -> (i64, Seq<char>) {
    match e {
        TimedEvent::PlayerLine { utc_second, line } => (utc_second, line@),
        _ => (0, Seq::empty()),
    }
}

/// The Player.log events of the lines, each given with what its stamp
/// reads as (see [`player_events_of`]).
pub fn player_line_events(lines: &[(String, LineStamp)]) -> (out: Vec<TimedEvent>)
    ensures
        forall|k: int| 0 <= k < out@.len() ==> (#[trigger] out@[k]) is PlayerLine,
        out@.map_values(|e: TimedEvent| player_line_view(e)) == player_events_of(
            line_inputs(lines@),
        ),
{
    let ghost li = line_inputs(lines@);
    let mut out: Vec<TimedEvent> = Vec::new();
    let mut last: i64 = 0;
    let mut i: usize = 0;
    assert(li.take(0) =~= Seq::<(Seq<char>, LineStamp)>::empty());
    while i < lines.len()
        invariant
            i <= lines@.len(),
            li == line_inputs(lines@),
            forall|k: int| 0 <= k < out@.len() ==> (#[trigger] out@[k]) is PlayerLine,
            out@.map_values(|e: TimedEvent| player_line_view(e)) == player_events_of(
                li.take(i as int),
            ),
            out@.len() > 0 ==> last == player_events_of(li.take(i as int)).last().0,
        decreases lines@.len() - i,
    {
        proof {
            assert(li.take(i + 1).drop_last() =~= li.take(i as int));
            assert(li.take(i + 1).last() == li[i as int]);
        }
        let c = chars_of(lines[i].0.as_str());
        let t = crate::text::trimmed_end(&c);
        if t.len() > 0 {
            let sec = match lines[i].1 {
                LineStamp::At(s) => Some(s),
                LineStamp::Unreadable => None,
                LineStamp::Missing => if out.len() > 0 {
                    Some(last)
                } else {
                    None
                },
            };
            match sec {
                Some(s) => {
                    let ghost before = out@;
                    out.push(TimedEvent::PlayerLine { utc_second: s, line: string_of(&t) });
                    last = s;
                    proof {
                        assert(out@.map_values(|e: TimedEvent| player_line_view(e)) =~= before.map_values(
                            |e: TimedEvent| player_line_view(e),
                        ).push((s, t@)));
                        assert forall|k: int| 0 <= k < out@.len() implies (#[trigger] out@[k]) is PlayerLine by {
                            if k < before.len() {
                                assert(out@[k] == before[k]);
                            }
                        }
                    }
                },
                None => {},
            }
        }
        i = i + 1;
    }
    assert(li.take(lines@.len() as int) =~= li);
    out
}

/// Progress is reported at every `interval`-th event, starting with the
/// first.
pub fn progress_due(index: usize, interval: usize) -> (b: bool)
    requires
        interval > 0,
    ensures
        b == (index % interval == 0),
{
    index % interval == 0
}

/// The most player events held back before they are handed on.
pub const BATCH_MAX_EVENTS: usize = 50;

/// The held-back player events are handed on once there are
/// [`BATCH_MAX_EVENTS`] of them, or once there is at least one and the
/// batch has grown old (`aged`, measured by the caller's clock).
pub fn batch_flush_due(batched: usize, aged: bool) -> (b: bool)
    ensures
        b == (batched >= BATCH_MAX_EVENTS || (batched > 0 && aged)),
{
    batched >= BATCH_MAX_EVENTS || (batched > 0 && aged)
}

/// The offset of the first login that states one, if any.
pub open spec fn first_offset(events: Seq<TimedEvent>) -> Option<i32>
    decreases events.len(),
{
    if events.len() == 0 {
        None
    } else {
        match events[0] {
            TimedEvent::ChatLogin { timezone_offset_seconds: Some(o), .. } => Some(o),
            _ => first_offset(events.drop_first()),
        }
    }
}

/// The time zone offset of the chat log: that of the first login stating
/// one, else zero.
pub fn timezone_offset(events: &[TimedEvent]) -> (o: i32)
    ensures
        o == match first_offset(events@) {
            Some(v) => v,
            None => 0,
        },
{
    let mut i: usize = 0;
    assert(events@.skip(0) =~= events@);
    while i < events.len()
        invariant
            i <= events@.len(),
            first_offset(events@) == first_offset(events@.skip(i as int)),
        decreases events@.len() - i,
    {
        proof {
            assert(events@.skip(i as int)[0] == events@[i as int]);
            assert(events@.skip(i as int).drop_first() =~= events@.skip(i + 1));
        }
        match &events[i] {
            TimedEvent::ChatLogin { timezone_offset_seconds: Some(o), .. } => {
                return *o;
            },
            _ => {},
        }
        i = i + 1;
    }
    0
}

// ───────────────────────────── progress ─────────────────────────────

/// Progress is reported every this many events: about a hundred times per
/// replay, but not more often than every fifty events.
pub open spec fn progress_interval_spec(total: nat) -> nat {
    if total / 100 > 50 {
        total / 100
    } else {
        50
    }
}

pub fn progress_interval(total: usize) -> (n: usize)
    ensures
        n == progress_interval_spec(total as nat),
{
    let q = total / 100;
    if q > 50 {
        q
    } else {
        50
    }
}

/// Concatenation of character sequences given as text pieces and numbers.
fn push_str(v: &mut Vec<char>, s: &str)
    ensures
        final(v)@ == old(v)@ + s@,
{
    let c = chars_of(s);
    push_all(v, &c);
}

fn push_number(v: &mut Vec<char>, n: usize)
    ensures
        final(v)@ == old(v)@ + decimal(n as nat),
{
    let c = decimal_chars(n as u64);
    push_all(v, &c);
}

impl ReplayProgress {
    /// Progress while events are processed: `Processing event i/total`.
    pub fn processing(current: usize, total: usize) -> (p: Self)
        ensures
            p.phase@ == "processing"@,
            p.current == current,
            p.total == total,
            p.detail@ == "Processing event "@ + decimal(current as nat) + "/"@ + decimal(
                total as nat,
            ),
    {
        let mut v: Vec<char> = Vec::new();
        push_str(&mut v, "Processing event ");
        push_number(&mut v, current);
        push_str(&mut v, "/");
        push_number(&mut v, total);
        ReplayProgress {
            phase: "processing".to_owned(),
            current,
            total,
            detail: string_of(&v),
        }
    }

    /// The last progress report of a replay of `total` events.
    pub fn complete(result: &ReplayResult, total: usize) -> (p: Self)
        ensures
            p.phase@ == "complete"@,
            p.current == total,
            p.total == total,
            p.detail@ == "Done: "@ + decimal(result.player_events_emitted as nat)
                + " player events, "@ + decimal(result.chat_messages_processed as nat)
                + " chat messages"@,
    {
        let mut v: Vec<char> = Vec::new();
        push_str(&mut v, "Done: ");
        push_number(&mut v, result.player_events_emitted);
        push_str(&mut v, " player events, ");
        push_number(&mut v, result.chat_messages_processed);
        push_str(&mut v, " chat messages");
        ReplayProgress { phase: "complete".to_owned(), current: total, total, detail: string_of(&v) }
    }
}

impl ReplayResult {
    /// Nothing processed yet.
    pub fn new() -> (r: Self)
        ensures
            r.player_lines_processed == 0,
            r.chat_messages_processed == 0,
            r.player_events_emitted == 0,
            r.chat_status_events_emitted == 0,
    {
        ReplayResult {
            player_lines_processed: 0,
            chat_messages_processed: 0,
            player_events_emitted: 0,
            chat_status_events_emitted: 0,
        }
    }

    /// Counts one Player.log line that produced `emitted` player events.
    pub fn count_player_line(&mut self, emitted: usize)
        requires
            old(self).player_lines_processed < usize::MAX,
            old(self).player_events_emitted + emitted <= usize::MAX,
        ensures
            final(self).player_lines_processed == old(self).player_lines_processed + 1,
            final(self).player_events_emitted == old(self).player_events_emitted + emitted,
            final(self).chat_messages_processed == old(self).chat_messages_processed,
            final(self).chat_status_events_emitted == old(self).chat_status_events_emitted,
    {
        self.player_lines_processed = self.player_lines_processed + 1;
        self.player_events_emitted = self.player_events_emitted + emitted;
    }

    /// Counts one chat message, and the status event it gave if any.
    pub fn count_chat_message(&mut self, gave_status_event: bool)
        requires
            old(self).chat_messages_processed < usize::MAX,
            old(self).chat_status_events_emitted < usize::MAX,
        ensures
            final(self).chat_messages_processed == old(self).chat_messages_processed + 1,
            final(self).chat_status_events_emitted == old(self).chat_status_events_emitted + if gave_status_event {
                1int
            } else {
                0int
            },
            final(self).player_lines_processed == old(self).player_lines_processed,
            final(self).player_events_emitted == old(self).player_events_emitted,
    {
        self.chat_messages_processed = self.chat_messages_processed + 1;
        if gave_status_event {
            self.chat_status_events_emitted = self.chat_status_events_emitted + 1;
        }
    }

    /// Counts the events the parser still held when the logs ended.
    pub fn count_flushed(&mut self, emitted: usize)
        requires
            old(self).player_events_emitted + emitted <= usize::MAX,
        ensures
            final(self).player_events_emitted == old(self).player_events_emitted + emitted,
            final(self).player_lines_processed == old(self).player_lines_processed,
            final(self).chat_messages_processed == old(self).chat_messages_processed,
            final(self).chat_status_events_emitted == old(self).chat_status_events_emitted,
    {
        self.player_events_emitted = self.player_events_emitted + emitted;
    }
}

// ───────────────────────────── content hash ─────────────────────────────

/// The FNV-1a 64-bit offset basis.
pub const FNV_OFFSET: u64 = 0xcbf29ce484222325;

/// The FNV-1a 64-bit prime.
pub const FNV_PRIME: u64 = 0x100000001b3;

/// 64-bit FNV-1a of `bytes`.
pub open spec fn fnv1a(bytes: Seq<u8>) -> u64
    decreases bytes.len(),
{
    if bytes.len() == 0 {
        FNV_OFFSET
    } else {
        let h = fnv1a(bytes.drop_last()) ^ (bytes.last() as u64);
        ((h as nat * FNV_PRIME as nat) % 0x1_0000_0000_0000_0000) as u64
    }
}

/// The last `width` hexadecimal digits of `n`, most significant first.
pub open spec fn hex_digits(n: nat, width: nat) -> Seq<char>
    decreases width,
{
    if width == 0 {
        Seq::empty()
    } else {
        hex_digits(n / 16, (width - 1) as nat).push(digit_char(n % 16))
    }
}

fn hex_width(n: u64, width: usize) -> (v: Vec<char>)
    ensures
        v@ == hex_digits(n as nat, width as nat),
    decreases width,
{
    if width == 0 {
        Vec::new()
    } else {
        let mut v = hex_width(n / 16, width - 1);
        v.push(digit(n % 16));
        v
    }
}

/// The idempotency key of a file's content: its FNV-1a hash as sixteen
/// lower-case hexadecimal digits.
pub fn content_hash(bytes: &[u8]) -> (s: String)
    ensures
        s@ == hex_digits(fnv1a(bytes@) as nat, 16),
{
    let mut hash: u64 = FNV_OFFSET;
    let mut i: usize = 0;
    assert(bytes@.take(0) =~= Seq::<u8>::empty());
    while i < bytes.len()
        invariant
            i <= bytes@.len(),
            hash == fnv1a(bytes@.take(i as int)),
        decreases bytes@.len() - i,
    {
        proof {
            assert(bytes@.take(i + 1).drop_last() =~= bytes@.take(i as int));
        }
        hash = hash ^ (bytes[i] as u64);
        hash = hash.wrapping_mul(FNV_PRIME);
        i = i + 1;
    }
    assert(bytes@.take(bytes@.len() as int) =~= bytes@);
    let v = hex_width(hash, 16);
    string_of(&v)
}

// ───────────────────────────── login line ─────────────────────────────

/// What `chrono::NaiveDate::parse_from_str(text, format)` gives, as
/// (year, month, day).
pub uninterp spec fn calendar_date(text: Seq<char>, format: Seq<char>) -> Option<(i32, u32, u32)>;

/// `chrono::NaiveDate::parse_from_str`, the date read back as (year, month,
/// day). Its result is named [`calendar_date`]; which texts chrono accepts
/// is not stated.
#[verifier::external_body]
fn parse_date(text: &str, format: &str) -> (r: Option<(i32, u32, u32)>)
    ensures
        r == calendar_date(text@, format@),
{
    chrono::NaiveDate::parse_from_str(text, format).ok().map(
        |d| (chrono::Datelike::year(&d), chrono::Datelike::month(&d), chrono::Datelike::day(&d)),
    )
}

pub open spec fn is_bracket(c: char) -> bool {
    c == '[' || c == ']'
}

/// `t` without leading brackets.
pub open spec fn trim_brackets_start(t: Seq<char>) -> Seq<char>
    decreases t.len(),
{
    if t.len() > 0 && is_bracket(t[0]) {
        trim_brackets_start(t.drop_first())
    } else {
        t
    }
}

/// `t` without trailing brackets.
pub open spec fn trim_brackets_end(t: Seq<char>) -> Seq<char>
    decreases t.len(),
{
    if t.len() > 0 && is_bracket(t.last()) {
        trim_brackets_end(t.drop_last())
    } else {
        t
    }
}

/// `t` without leading and trailing `[` and `]`.
pub open spec fn trim_brackets(t: Seq<char>) -> Seq<char> {
    trim_brackets_end(trim_brackets_start(t))
}

/// The characters of `t` up to its first white space.
pub open spec fn word_prefix(t: Seq<char>) -> Seq<char>
    decreases t.len(),
{
    if t.len() == 0 || is_white(t[0]) {
        Seq::empty()
    } else {
        seq![t[0]] + word_prefix(t.drop_first())
    }
}

/// The first white-space separated word of `t`, if any.
pub open spec fn first_word(t: Seq<char>) -> Option<Seq<char>> {
    let s = crate::text::trim_start(t);
    if s.len() == 0 {
        None
    } else {
        Some(word_prefix(s))
    }
}

/// The character named by a login line: the text after
/// `Logged in as character ` up to the first `.`, trimmed of white space
/// and brackets.
pub open spec fn login_name(line: Seq<char>) -> Option<Seq<char>> {
    match after_first(line, "Logged in as character "@) {
        Some(rest) => if contains(rest, "."@) {
            Some(trim_brackets(trim(before_first(rest, "."@))))
        } else {
            None
        },
        None => None,
    }
}

/// The date token of a login line: the first word after `Time UTC=`.
pub open spec fn login_date_token(line: Seq<char>) -> Option<Seq<char>> {
    match after_first(line, "Time UTC="@) {
        Some(rest) => first_word(rest),
        None => None,
    }
}

/// A Player.log login line read as (character, UTC date).
pub open spec fn player_login(line: Seq<char>) -> Option<(Seq<char>, (i32, u32, u32))> {
    match login_name(line) {
        Some(name) => if name.len() == 0 {
            None
        } else {
            match login_date_token(line) {
                Some(token) => match calendar_date(token, "%m/%d/%Y"@) {
                    Some(d) => Some((name, d)),
                    None => None,
                },
                None => None,
            }
        },
        None => None,
    }
}

fn trimmed_brackets(t: &[char]) -> (r: Vec<char>)
    ensures
        r@ == trim_brackets(t@),
{
    let n = t.len();
    let mut lo: usize = 0;
    assert(t@.subrange(0, n as int) =~= t@);
    while lo < n && (t[lo] == '[' || t[lo] == ']')
        invariant
            lo <= n == t@.len(),
            trim_brackets_start(t@) == trim_brackets_start(t@.subrange(lo as int, n as int)),
        decreases n - lo,
    {
        proof {
            let s = t@.subrange(lo as int, n as int);
            assert(s.drop_first() =~= t@.subrange(lo + 1, n as int));
        }
        lo = lo + 1;
    }
    let ghost s = t@.subrange(lo as int, n as int);
    assert(trim_brackets_start(t@) == s);
    let mut hi: usize = n;
    assert(s.subrange(0, (hi - lo) as int) =~= s);
    while hi > lo && (t[hi - 1] == '[' || t[hi - 1] == ']')
        invariant
            lo <= hi <= n == t@.len(),
            s == t@.subrange(lo as int, n as int),
            trim_brackets_end(s) == trim_brackets_end(s.subrange(0, (hi - lo) as int)),
        decreases hi - lo,
    {
        proof {
            let u = s.subrange(0, (hi - lo) as int);
            assert(u.last() == t@[hi - 1]);
            assert(u.drop_last() =~= s.subrange(0, (hi - lo) - 1));
        }
        hi = hi - 1;
    }
    assert(s.subrange(0, (hi - lo) as int) =~= t@.subrange(lo as int, hi as int));
    slice(t, lo, hi)
}

fn first_word_of(t: &[char]) -> (r: Option<Vec<char>>)
    ensures
        opt_chars(r) == first_word(t@),
{
    let n = t.len();
    let mut lo: usize = 0;
    assert(t@.subrange(0, n as int) =~= t@);
    while lo < n && white(t[lo])
        invariant
            lo <= n == t@.len(),
            crate::text::trim_start(t@) == crate::text::trim_start(t@.subrange(lo as int, n as int)),
        decreases n - lo,
    {
        proof {
            let s = t@.subrange(lo as int, n as int);
            assert(s.drop_first() =~= t@.subrange(lo + 1, n as int));
        }
        lo = lo + 1;
    }
    let ghost s = t@.subrange(lo as int, n as int);
    assert(crate::text::trim_start(t@) == s);
    if lo == n {
        return None;
    }
    let mut hi: usize = lo;
    assert(s.skip(0) =~= s);
    assert(t@.subrange(lo as int, lo as int) =~= Seq::<char>::empty());
    while hi < n && !white(t[hi])
        invariant
            lo <= hi <= n == t@.len(),
            s == t@.subrange(lo as int, n as int),
            word_prefix(s) == t@.subrange(lo as int, hi as int) + word_prefix(
                s.skip((hi - lo) as int),
            ),
        decreases n - hi,
    {
        proof {
            let u = s.skip((hi - lo) as int);
            assert(u[0] == t@[hi as int]);
            assert(u.drop_first() =~= s.skip((hi - lo) + 1));
            assert(t@.subrange(lo as int, hi + 1) =~= t@.subrange(lo as int, hi as int) + seq![
                t@[hi as int],
            ]);
        }
        hi = hi + 1;
    }
    proof {
        let u = s.skip((hi - lo) as int);
        if hi < n {
            assert(u[0] == t@[hi as int]);
        } else {
            assert(u.len() == 0);
        }
        assert(word_prefix(u) =~= Seq::<char>::empty());
        assert(word_prefix(s) =~= t@.subrange(lo as int, hi as int));
    }
    Some(slice(t, lo, hi))
}

/// Reads a Player.log login line
/// (`Logged in as character <Name>. Time UTC=MM/DD/YYYY HH:MM:SS. …`) as
/// the character and the UTC date (year, month, day).
pub fn parse_player_login_line(line: &str) -> (r: Option<(String, (i32, u32, u32))>)
    ensures
        match r {
            Some((name, d)) => player_login(line@) == Some((name@, d)),
            None => player_login(line@) is None,
        },
{
    let t = chars_of(line);
    let rest = match after_first_str(&t, "Logged in as character ") {
        Some(rest) => rest,
        None => return None,
    };
    if !has_str(&rest, ".") {
        return None;
    }
    let head = before_first_str(&rest, ".");
    let tr = trimmed(&head);
    let name = trimmed_brackets(&tr);
    if name.len() == 0 {
        return None;
    }
    let utc_rest = match after_first_str(&t, "Time UTC=") {
        Some(u) => u,
        None => return None,
    };
    let token = match first_word_of(&utc_rest) {
        Some(w) => w,
        None => return None,
    };
    let token_text = string_of(&token);
    match parse_date(token_text.as_str(), "%m/%d/%Y") {
        Some(d) => Some((string_of(&name), d)),
        None => None,
    }
}

/// The first login line among `lines`, read as in [`player_login`].
pub open spec fn first_login(lines: Seq<Seq<char>>) -> Option<(Seq<char>, (i32, u32, u32))>
    decreases lines.len(),
{
    if lines.len() == 0 {
        None
    } else {
        match player_login(lines[0]) {
            Some(v) => Some(v),
            None => first_login(lines.drop_first()),
        }
    }
}

/// The character and UTC date of the first login line of a Player.log; an
/// ingest without one records nothing.
pub fn first_player_login(lines: &[String]) -> (r: Option<(String, (i32, u32, u32))>)
    ensures
        match r {
            Some((name, d)) => first_login(crate::text::texts(lines@)) == Some((name@, d)),
            None => first_login(crate::text::texts(lines@)) is None,
        },
{
    let ghost tv = crate::text::texts(lines@);
    let mut i: usize = 0;
    assert(tv.skip(0) =~= tv);
    while i < lines.len()
        invariant
            i <= lines@.len(),
            tv == crate::text::texts(lines@),
            first_login(tv) == first_login(tv.skip(i as int)),
        decreases lines@.len() - i,
    {
        proof {
            assert(tv.skip(i as int)[0] == tv[i as int]);
            assert(tv.skip(i as int).drop_first() =~= tv.skip(i + 1));
        }
        match parse_player_login_line(lines[i].as_str()) {
            Some(v) => {
                return Some(v);
            },
            None => {},
        }
        i = i + 1;
    }
    None
}

/// The area named by a `LOADING LEVEL <area>` line, if the line has one.
pub open spec fn loading_area(line: Seq<char>) -> Option<Seq<char>> {
    match after_first(line, "LOADING LEVEL "@) {
        Some(rest) => if trim(rest).len() > 0 {
            Some(trim(rest))
        } else {
            None
        },
        None => None,
    }
}

/// The zone a Player.log line moves the player to, if it is a level load.
pub fn loading_zone(line: &str) -> (r: Option<String>)
    ensures
        match r {
            Some(z) => loading_area(line@) == Some(z@),
            None => loading_area(line@) is None,
        },
{
    let t = chars_of(line);
    match after_first_str(&t, "LOADING LEVEL ") {
        Some(rest) => {
            let a = trimmed(&rest);
            if a.len() > 0 {
                Some(string_of(&a))
            } else {
                None
            }
        },
        None => None,
    }
}

// ───────────────────────────── chat log dates ─────────────────────────────

/// What `Path::new(path).file_stem()` of std gives, read as text.
pub uninterp spec fn path_stem(path: Seq<char>) -> Option<Seq<char>>;

/// `Path::new(path).file_stem()` of std, read as text. Its result is named
/// [`path_stem`]; how std splits paths into components is not stated.
#[verifier::external_body]
fn file_stem_of(path: &str) -> (r: Option<String>)
    ensures
        opt_chars_of(r) == path_stem(path@),
{
    std::path::Path::new(path).file_stem().and_then(|s| s.to_str()).map(|s| s.to_owned())
}

pub open spec fn opt_chars_of(o: Option<String>) -> Option<Seq<char>> {
    match o {
        Some(s) => Some(s@),
        None => None,
    }
}

/// The date a chat log's file name gives: a stem `Chat-YY-MM-DD`.
pub open spec fn chat_file_date(path: Seq<char>) -> Option<(i32, u32, u32)> {
    match path_stem(path) {
        Some(stem) => if stem.len() >= 5 && stem.subrange(0, 5) == "Chat-"@ {
            calendar_date(stem.subrange(5, stem.len() as int), "%y-%m-%d"@)
        } else {
            None
        },
        None => None,
    }
}

/// The date of a chat log named like `Chat-26-03-27.log`, as (year, month,
/// day).
pub fn date_from_chat_filename(path: &str) -> (r: Option<(i32, u32, u32)>)
    ensures
        r == chat_file_date(path@),
{
    let stem = match file_stem_of(path) {
        Some(s) => s,
        None => return None,
    };
    let c = chars_of(stem.as_str());
    proof {
        reveal_strlit("Chat-");
    }
    if !crate::text::has_prefix_str(&c, "Chat-") {
        return None;
    }
    let rest = slice(&c, 5, c.len());
    let rs = string_of(&rest);
    parse_date(rs.as_str(), "%y-%m-%d")
}

/// A file of the chat log folder is a chat log when its name is
/// `Chat-<...>.log`.
pub fn is_chat_log_name(name: &str) -> (b: bool)
    ensures
        b == (crate::text::starts_with(name@, "Chat-"@) && crate::text::ends_with(name@, ".log"@)),
{
    let c = chars_of(name);
    crate::text::has_prefix_str(&c, "Chat-") && crate::text::has_suffix_str(&c, ".log")
}

/// What `chrono::DateTime::from_timestamp(seconds, 0)` gives, as its UTC
/// (year, month, day).
pub uninterp spec fn utc_calendar_date(seconds: i64) -> Option<(i32, u32, u32)>;

/// `chrono::DateTime::from_timestamp(seconds, 0)`, its UTC date read back
/// as (year, month, day). Its result is named [`utc_calendar_date`]; the
/// calendar arithmetic and the range chrono accepts are not stated.
#[verifier::external_body]
fn utc_date_of(seconds: i64) -> (r: Option<(i32, u32, u32)>)
    ensures
        r == utc_calendar_date(seconds),
{
    chrono::DateTime::from_timestamp(seconds, 0).map(
        |dt| {
            let d = dt.date_naive();
            (chrono::Datelike::year(&d), chrono::Datelike::month(&d), chrono::Datelike::day(&d))
        },
    )
}

/// The date the chat events start on: that of the first chat message, or
/// the UTC date of the first login with a known time, whichever comes
/// first (a login whose time chrono cannot date gives none).
pub open spec fn first_event_date(events: Seq<TimedEvent>) -> Option<(i32, u32, u32)>
    decreases events.len(),
{
    if events.len() == 0 {
        None
    } else {
        match events[0] {
            TimedEvent::ChatMessage { msg, .. } => Some(
                (msg.timestamp.year as i32, msg.timestamp.month as u32, msg.timestamp.day as u32),
            ),
            TimedEvent::ChatLogin { utc_second, .. } => if utc_second > 0 {
                utc_calendar_date(utc_second)
            } else {
                first_event_date(events.drop_first())
            },
            TimedEvent::PlayerLine { .. } => first_event_date(events.drop_first()),
        }
    }
}

/// See [`first_event_date`]; used when the chat log's name carries no date.
pub fn date_from_chat_content(events: &[TimedEvent]) -> (r: Option<(i32, u32, u32)>)
    ensures
        r == first_event_date(events@),
{
    let mut i: usize = 0;
    assert(events@.skip(0) =~= events@);
    while i < events.len()
        invariant
            i <= events@.len(),
            first_event_date(events@) == first_event_date(events@.skip(i as int)),
        decreases events@.len() - i,
    {
        proof {
            assert(events@.skip(i as int)[0] == events@[i as int]);
            assert(events@.skip(i as int).drop_first() =~= events@.skip(i + 1));
        }
        match &events[i] {
            TimedEvent::ChatMessage { msg, .. } => {
                return Some(
                    (msg.timestamp.year as i32, msg.timestamp.month as u32, msg.timestamp.day as u32),
                );
            },
            TimedEvent::ChatLogin { utc_second, .. } => {
                if *utc_second > 0 {
                    return utc_date_of(*utc_second);
                }
            },
            TimedEvent::PlayerLine { .. } => {},
        }
        i = i + 1;
    }
    None
}

// ───────────────────────────── ingest ─────────────────────────────

/// A lootable corpse search: the first search of a corpse is the kill.
pub struct CorpseSearch {
    pub corpse_entity_id: u32,
    pub corpse_name: String,
    pub killed_at: String,
    pub zone: Option<String>,
    pub combat_skills: Option<String>,
}

/// A picked-up loot item attributed to a corpse.
pub struct LootPickup {
    pub corpse_entity_id: u32,
    pub item_name: String,
    pub quantity: u32,
    pub instance_id: i64,
}

/// The corpse ids of `searches`, in order.
pub open spec fn corpse_ids(searches: Seq<CorpseSearch>) -> Seq<u32> {
    searches.map_values(|s: CorpseSearch| s.corpse_entity_id)
}

/// Records a corpse search unless that corpse was searched before: the
/// first search of a corpse is the kill.
pub fn note_corpse_search(searches: &mut Vec<CorpseSearch>, s: CorpseSearch)
    ensures
        corpse_ids(old(searches)@).contains(s.corpse_entity_id) ==> final(searches)@ == old(
            searches,
        )@,
        !corpse_ids(old(searches)@).contains(s.corpse_entity_id) ==> final(searches)@ == old(
            searches,
        )@.push(s),
{
    let mut i: usize = 0;
    while i < searches.len()
        invariant
            i <= searches@.len(),
            forall|j: int| 0 <= j < i ==> searches@[j].corpse_entity_id != s.corpse_entity_id,
        decreases searches@.len() - i,
    {
        if searches[i].corpse_entity_id == s.corpse_entity_id {
            proof {
                assert(corpse_ids(searches@)[i as int] == s.corpse_entity_id);
            }
            return;
        }
        i = i + 1;
    }
    proof {
        assert(!corpse_ids(searches@).contains(s.corpse_entity_id)) by {
            if corpse_ids(searches@).contains(s.corpse_entity_id) {
                let k = choose|k: int| 0 <= k < searches@.len() && corpse_ids(searches@)[k] == s.corpse_entity_id;
                assert(searches@[k].corpse_entity_id == s.corpse_entity_id);
            }
        }
    }
    searches.push(s);
}

/// The kill row recorded for a corpse id, if any: the first pair for it.
pub open spec fn kill_for(kill_ids: Seq<(u32, i64)>, corpse: u32) -> Option<i64>
    decreases kill_ids.len(),
{
    if kill_ids.len() == 0 {
        None
    } else if kill_ids[0].0 == corpse {
        Some(kill_ids[0].1)
    } else {
        kill_for(kill_ids.drop_first(), corpse)
    }
}

fn kill_id_of(kill_ids: &[(u32, i64)], corpse: u32) -> (r: Option<i64>)
    ensures
        r == kill_for(kill_ids@, corpse),
{
    let mut i: usize = 0;
    assert(kill_ids@.skip(0) =~= kill_ids@);
    while i < kill_ids.len()
        invariant
            i <= kill_ids@.len(),
            kill_for(kill_ids@, corpse) == kill_for(kill_ids@.skip(i as int), corpse),
        decreases kill_ids@.len() - i,
    {
        proof {
            assert(kill_ids@.skip(i as int)[0] == kill_ids@[i as int]);
            assert(kill_ids@.skip(i as int).drop_first() =~= kill_ids@.skip(i + 1));
        }
        if kill_ids[i].0 == corpse {
            return Some(kill_ids[i].1);
        }
        i = i + 1;
    }
    None
}

/// The loot rows to record: each pickup from a corpse that has a kill row,
/// as (kill id, item, quantity, instance id), in pickup order. Loot from a
/// corpse without a kill row is dropped.
pub open spec fn attributed_loot(kill_ids: Seq<(u32, i64)>, loot: Seq<LootPickup>) -> Seq<
    (i64, Seq<char>, u32, i64),
>
    decreases loot.len(),
{
    if loot.len() == 0 {
        Seq::empty()
    } else {
        let rest = attributed_loot(kill_ids, loot.drop_last());
        let l = loot.last();
        match kill_for(kill_ids, l.corpse_entity_id) {
            Some(k) => rest.push((k, l.item_name@, l.quantity, l.instance_id)),
            None => rest,
        }
    }
}

pub open spec fn loot_rows_view(rows: Seq<(i64, String, u32, i64)>) -> Seq<(i64, Seq<char>, u32, i64)> {
    rows.map_values(|r: (i64, String, u32, i64)| (r.0, r.1@, r.2, r.3))
}

/// What the Player.log event parser reports that a historical ingest reads.
pub enum IngestEvent {
    /// A corpse was searched; only searches with loot permission count.
    CorpseSearched { timestamp: String, corpse_entity_id: u32, corpse_name: String, has_permission: bool },
    /// An item was picked up from a corpse.
    LootPickedUp { corpse_entity_id: Option<u32>, item_name: Option<String>, instance_id: u64, quantity: u32 },
    /// The equipped combat-skill loadout changed (already normalized).
    LoadoutChanged { combat_skills: Option<String> },
}

/// The first pass of a historical ingest over a Player.log: the corpses
/// searched (first search wins), each tagged with the zone and loadout of
/// that moment, and the loot picked up from corpses, in order.
pub struct IngestScan {
    pub searches: Vec<CorpseSearch>,
    pub pickups: Vec<LootPickup>,
    /// The zone of the last level load, if any yet.
    pub zone: Option<String>,
    /// The combat-skill loadout last reported.
    pub combat_skills: Option<String>,
}

fn copy_opt(o: &Option<String>) -> (r: Option<String>)
    ensures
        r == *o,
{
    match o {
        Some(s) => Some(s.clone()),
        None => None,
    }
}

impl IngestScan {
    /// Nothing seen yet.
    pub fn new() -> (r: Self)
        ensures
            r.searches@ == Seq::<CorpseSearch>::empty(),
            r.pickups@ == Seq::<LootPickup>::empty(),
            r.zone is None,
            r.combat_skills is None,
    {
        IngestScan { searches: Vec::new(), pickups: Vec::new(), zone: None, combat_skills: None }
    }

    /// A Player.log line: a level load moves the scan to its zone.
    pub fn observe_line(&mut self, line: &str)
        ensures
            loading_area(line@) is None ==> final(self).zone == old(self).zone,
            loading_area(line@) matches Some(z) ==> final(self).zone matches Some(n) && n@ == z,
            final(self).searches == old(self).searches,
            final(self).pickups == old(self).pickups,
            final(self).combat_skills == old(self).combat_skills,
    {
        if let Some(z) = loading_zone(line) {
            self.zone = Some(z);
        }
    }

    /// One event the parser reported for the current line: a loadout change
    /// is remembered; a permitted corpse search is recorded with the current
    /// zone and loadout unless the corpse was searched before; a pickup with
    /// a corpse and a non-empty item name is kept.
    pub fn observe_event(&mut self, ev: IngestEvent)
        ensures
            final(self).zone == old(self).zone,
            match ev {
                IngestEvent::LoadoutChanged { combat_skills } => {
                    &&& final(self).combat_skills == combat_skills
                    &&& final(self).searches == old(self).searches
                    &&& final(self).pickups == old(self).pickups
                },
                IngestEvent::CorpseSearched { timestamp, corpse_entity_id, corpse_name, has_permission } => {
                    &&& final(self).combat_skills == old(self).combat_skills
                    &&& final(self).pickups == old(self).pickups
                    &&& if has_permission && !corpse_ids(old(self).searches@).contains(corpse_entity_id) {
                        final(self).searches@ == old(self).searches@.push(
                            CorpseSearch {
                                corpse_entity_id,
                                corpse_name,
                                killed_at: timestamp,
                                zone: old(self).zone,
                                combat_skills: old(self).combat_skills,
                            },
                        )
                    } else {
                        final(self).searches@ == old(self).searches@
                    }
                },
                IngestEvent::LootPickedUp { corpse_entity_id, item_name, instance_id, quantity } => {
                    &&& final(self).combat_skills == old(self).combat_skills
                    &&& final(self).searches == old(self).searches
                    &&& if corpse_entity_id is Some && item_name is Some && item_name->0@.len() > 0 {
                        final(self).pickups@ == old(self).pickups@.push(
                            LootPickup {
                                corpse_entity_id: corpse_entity_id->0,
                                item_name: item_name->0,
                                quantity,
                                instance_id: instance_id as i64,
                            },
                        )
                    } else {
                        final(self).pickups@ == old(self).pickups@
                    }
                },
            },
    {
        match ev {
            IngestEvent::LoadoutChanged { combat_skills } => {
                self.combat_skills = combat_skills;
            },
            IngestEvent::CorpseSearched { timestamp, corpse_entity_id, corpse_name, has_permission } => {
                if has_permission {
                    let zone = copy_opt(&self.zone);
                    let combat_skills = copy_opt(&self.combat_skills);
                    note_corpse_search(
                        &mut self.searches,
                        CorpseSearch { corpse_entity_id, corpse_name, killed_at: timestamp, zone, combat_skills },
                    );
                }
            },
            IngestEvent::LootPickedUp { corpse_entity_id, item_name, instance_id, quantity } => {
                match (corpse_entity_id, item_name) {
                    (Some(cid), Some(item)) => {
                        if chars_of(item.as_str()).len() > 0 {
                            self.pickups.push(
                                LootPickup {
                                    corpse_entity_id: cid,
                                    item_name: item,
                                    quantity,
                                    instance_id: instance_id as i64,
                                },
                            );
                        }
                    },
                    _ => {},
                }
            },
        }
    }
}

/// See [`attributed_loot`].
pub fn attribute_loot(kill_ids: &[(u32, i64)], loot: &[LootPickup]) -> (r: Vec<(i64, String, u32, i64)>)
    ensures
        loot_rows_view(r@) == attributed_loot(kill_ids@, loot@),
{
    let mut out: Vec<(i64, String, u32, i64)> = Vec::new();
    let mut i: usize = 0;
    assert(loot@.take(0) =~= Seq::<LootPickup>::empty());
    while i < loot.len()
        invariant
            i <= loot@.len(),
            loot_rows_view(out@) == attributed_loot(kill_ids@, loot@.take(i as int)),
        decreases loot@.len() - i,
    {
        proof {
            assert(loot@.take(i + 1).drop_last() =~= loot@.take(i as int));
        }
        let l = &loot[i];
        match kill_id_of(kill_ids, l.corpse_entity_id) {
            Some(k) => {
                let ghost before = out@;
                out.push((k, l.item_name.clone(), l.quantity, l.instance_id));
                proof {
                    assert(loot_rows_view(out@) =~= loot_rows_view(before).push(
                        (k, l.item_name@, l.quantity, l.instance_id),
                    ));
                }
            },
            None => {},
        }
        i = i + 1;
    }
    assert(loot@.take(loot@.len() as int) =~= loot@);
    out
}

impl IngestResult {
    /// The file's content was ingested before: nothing done.
    pub fn already() -> (r: Self)
        ensures
            r.kills_added == 0,
            r.loot_added == 0,
            r.already_ingested,
    {
        IngestResult { kills_added: 0, loot_added: 0, already_ingested: true }
    }

    /// A new file with nothing (yet) recorded from it.
    pub fn fresh() -> (r: Self)
        ensures
            r.kills_added == 0,
            r.loot_added == 0,
            !r.already_ingested,
    {
        IngestResult { kills_added: 0, loot_added: 0, already_ingested: false }
    }

    /// Counts a kill row that was newly inserted.
    pub fn count_kill(&mut self)
        requires
            old(self).kills_added < usize::MAX,
        ensures
            final(self).kills_added == old(self).kills_added + 1,
            final(self).loot_added == old(self).loot_added,
            final(self).already_ingested == old(self).already_ingested,
    {
        self.kills_added = self.kills_added + 1;
    }

    /// Counts a loot row that was newly inserted.
    pub fn count_loot(&mut self)
        requires
            old(self).loot_added < usize::MAX,
        ensures
            final(self).loot_added == old(self).loot_added + 1,
            final(self).kills_added == old(self).kills_added,
            final(self).already_ingested == old(self).already_ingested,
    {
        self.loot_added = self.loot_added + 1;
    }
}

} // verus!
