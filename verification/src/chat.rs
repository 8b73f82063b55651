//! Chat log messages as the parsers receive them.
use vstd::prelude::*;

use crate::text::{chars_of, padded_decimal, push_all, string_of, zero_padded};

verus! {

/// A local wall-clock date and time read from a chat log line.
#[derive(Debug, Clone, Copy, PartialEq, Eq)]
pub struct LogDateTime {
    pub year: u16,
    pub month: u8,
    pub day: u8,
    pub hour: u8,
    pub minute: u8,
    pub second: u8,
}

/// A single chat log message.
#[derive(Debug, Clone)]
pub struct ChatMessage {
    pub timestamp: LogDateTime,
    /// Channel name inside the brackets, e.g. `Status` or `NPC Chatter`.
    pub channel: Option<String>,
    /// Speaker, for channels that have one.
    pub sender: Option<String>,
    /// Message text after the channel (and sender).
    pub message: String,
}

/// `YYYY-MM-DD HH:MM:SS`, each field zero-padded.
pub open spec fn timestamp_text(ts: LogDateTime) -> Seq<char> {
    zero_padded(ts.year as nat, 4) + seq!['-'] + zero_padded(ts.month as nat, 2) + seq!['-']
        + zero_padded(ts.day as nat, 2) + seq![' '] + zero_padded(ts.hour as nat, 2) + seq![':']
        + zero_padded(ts.minute as nat, 2) + seq![':'] + zero_padded(ts.second as nat, 2)
}

impl LogDateTime {
    /// The timestamp as `YYYY-MM-DD HH:MM:SS`.
    pub fn to_text(&self) -> (s: String)
        ensures
            s@ == timestamp_text(*self),
    {
        let mut v = padded_decimal(self.year as u64, 4);
        v.push('-');
        let m = padded_decimal(self.month as u64, 2);
        push_all(&mut v, &m);
        v.push('-');
        let d = padded_decimal(self.day as u64, 2);
        push_all(&mut v, &d);
        v.push(' ');
        let h = padded_decimal(self.hour as u64, 2);
        push_all(&mut v, &h);
        v.push(':');
        let mi = padded_decimal(self.minute as u64, 2);
        push_all(&mut v, &mi);
        v.push(':');
        let se = padded_decimal(self.second as u64, 2);
        push_all(&mut v, &se);
        assert(v@ =~= timestamp_text(*self));
        string_of(&v)
    }
}

/// The characters of an optional text, if present.
pub open spec fn opt_text(o: Option<String>) -> Option<Seq<char>> {
    match o {
        Some(s) => Some(s@),
        None => None,
    }
}

/// Is the optional text present and equal to `lit`?
pub fn opt_is(o: &Option<String>, lit: &str) -> (b: bool)
    ensures
        b == (opt_text(*o) == Some(lit@)),
{
    match o {
        Some(s) => {
            let c = chars_of(s.as_str());
            let l = chars_of(lit);
            crate::text::same(&c, &l)
        },
        None => false,
    }
}

} // verus!
