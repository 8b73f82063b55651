//! Importing Words of Power from a spreadsheet export.
//!
//! The sheet needs a word and a power name column (matched by name,
//! ignoring ASCII case); a date and a time column, when both are present,
//! give the discovery time, and a description column is carried over.
use vstd::prelude::*;

use crate::drop_search::text_views;
use crate::text::{
    chars_of, contains, ends_with, eq_ignore_case, has, join3, padded_decimal, push_all, zero_padded,
    same_ignoring_case, string_of, trim, trimmed,
};

verus! {

/// A word to record, as read from one row.
pub struct ImportedWord {
    pub word: String,
    pub power_name: String,
    pub description: Option<String>,
    pub discovered_at: String,
}

/// What `csv::Reader::from_reader` reads from a text: the header fields and
/// each record's fields (or the record's error text), or the header's error
/// text.
pub uninterp spec fn csv_strict_fields(content: Seq<char>) -> Result<
    (Seq<Seq<char>>, Seq<Result<Seq<Seq<char>>, Seq<char>>>),
    Seq<char>,
>;

pub open spec fn record_view(r: Result<Vec<String>, String>) -> Result<Seq<Seq<char>>, Seq<char>> {
    match r {
        Ok(v) => Ok(text_views(v@)),
        Err(e) => Err(e@),
    }
}

pub open spec fn records_view(v: Seq<Result<Vec<String>, String>>) -> Seq<
    Result<Seq<Seq<char>>, Seq<char>>,
> {
    v.map_values(|r: Result<Vec<String>, String>| record_view(r))
}

/// `csv::Reader::from_reader` (headers, records of the header's length,
/// fields as written) reading `content`: its `headers` and every item of its
/// `records`, the errors rendered as text. Its result is named
/// [`csv_strict_fields`]; how the crate splits and unquotes fields is not
/// stated.
#[verifier::external_body]
fn read_csv_strict(content: &str) -> (r: Result<(Vec<String>, Vec<Result<Vec<String>, String>>), String>)
    ensures
        match r {
            Ok((h, recs)) => csv_strict_fields(content@) == Ok::<
                (Seq<Seq<char>>, Seq<Result<Seq<Seq<char>>, Seq<char>>>),
                Seq<char>,
            >((text_views(h@), records_view(recs@))),
            Err(e) => csv_strict_fields(content@) == Err::<
                (Seq<Seq<char>>, Seq<Result<Seq<Seq<char>>, Seq<char>>>),
                Seq<char>,
            >(e@),
        },
{
    let mut rdr = csv::Reader::from_reader(content.as_bytes());
    let headers = rdr.headers().map_err(|e| format!("{e}"))?.iter().map(String::from).collect();
    let records = rdr.records().map(
        |r| r.map(|rec| rec.iter().map(String::from).collect()).map_err(|e| format!("{e}")),
    ).collect();
    Ok((headers, records))
}

/// What `chrono::NaiveDateTime::parse_from_str(text, format)` reads, as
/// (year, month, day, hour, minute, second, nanosecond).
pub uninterp spec fn naive_datetime_fields(text: Seq<char>, format: Seq<char>) -> Option<
    (i32, u32, u32, u32, u32, u32, u32),
>;

/// `chrono::NaiveDateTime::parse_from_str`, the date and time read back by
/// their accessors. Its result is named [`naive_datetime_fields`]; which
/// texts chrono accepts is not stated. The fields are in the ranges chrono
/// documents (a leap second shows as a nanosecond count of a billion or
/// more).
#[verifier::external_body]
fn parse_naive_datetime(text: &str, format: &str) -> (r: Option<(i32, u32, u32, u32, u32, u32, u32)>)
    ensures
        r == naive_datetime_fields(text@, format@),
        r matches Some(f) ==> 1 <= f.1 <= 12 && 1 <= f.2 <= 31 && f.3 < 24 && f.4 < 60 && f.5 < 60
            && f.6 < 2_000_000_000,
{
    chrono::NaiveDateTime::parse_from_str(text, format).ok().map(
        |dt| (
            chrono::Datelike::year(&dt),
            chrono::Datelike::month(&dt),
            chrono::Datelike::day(&dt),
            chrono::Timelike::hour(&dt),
            chrono::Timelike::minute(&dt),
            chrono::Timelike::second(&dt),
            chrono::Timelike::nanosecond(&dt),
        ),
    )
}

/// A year as chrono's `%Y` writes it: four digits at least, with a sign
/// outside 0 to 9999.
pub open spec fn year_text(y: int) -> Seq<char> {
    if 0 <= y <= 9999 {
        zero_padded(y as nat, 4)
    } else if y > 9999 {
        seq!['+'] + zero_padded(y as nat, 4)
    } else {
        seq!['-'] + zero_padded((-y) as nat, 4)
    }
}

/// A date and time as `%Y-%m-%dT%H:%M:%SZ` writes it (a leap second shows
/// as second 60).
pub open spec fn iso_text(f: (i32, u32, u32, u32, u32, u32, u32)) -> Seq<char> {
    year_text(f.0 as int) + seq!['-'] + zero_padded(f.1 as nat, 2) + seq!['-'] + zero_padded(
        f.2 as nat,
        2,
    ) + seq!['T'] + zero_padded(f.3 as nat, 2) + seq![':'] + zero_padded(f.4 as nat, 2) + seq![':']
        + zero_padded((f.5 + f.6 / 1_000_000_000) as nat, 2) + seq!['Z']
}

fn iso_string(f: (i32, u32, u32, u32, u32, u32, u32)) -> (s: String)
    requires
        f.5 < 60,
        f.6 < 2_000_000_000,
    ensures
        s@ == iso_text(f),
{
    let mut v: Vec<char> = Vec::new();
    let y = f.0;
    if y < 0 {
        v.push('-');
        let d = padded_decimal((-(y as i64)) as u64, 4);
        push_all(&mut v, &d);
    } else {
        if y > 9999 {
            v.push('+');
        }
        let d = padded_decimal(y as u64, 4);
        push_all(&mut v, &d);
    }
    let ghost yv = v@;
    assert(yv == year_text(f.0 as int));
    v.push('-');
    let mo = padded_decimal(f.1 as u64, 2);
    push_all(&mut v, &mo);
    v.push('-');
    let d = padded_decimal(f.2 as u64, 2);
    push_all(&mut v, &d);
    v.push('T');
    let h = padded_decimal(f.3 as u64, 2);
    push_all(&mut v, &h);
    v.push(':');
    let mi = padded_decimal(f.4 as u64, 2);
    push_all(&mut v, &mi);
    v.push(':');
    let sec = f.5 + f.6 / 1_000_000_000;
    let se = padded_decimal(sec as u64, 2);
    push_all(&mut v, &se);
    v.push('Z');
    assert(v@ =~= iso_text(f));
    string_of(&v)
}

/// The ISO text of what chrono reads from `text` with `format`, if it
/// reads it.
pub open spec fn reformatted_datetime(text: Seq<char>, format: Seq<char>) -> Option<Seq<char>> {
    match naive_datetime_fields(text, format) {
        Some(f) => Some(iso_text(f)),
        None => None,
    }
}

fn reformat_datetime(text: &str, format: &str) -> (r: Option<String>)
    ensures
        match r {
            Some(s) => reformatted_datetime(text@, format@) == Some(s@),
            None => reformatted_datetime(text@, format@) is None,
        },
{
    match parse_naive_datetime(text, format) {
        Some(f) => Some(iso_string(f)),
        None => None,
    }
}

/// The date and time layouts tried, in order.
pub open spec fn datetime_formats() -> Seq<Seq<char>> {
    seq![
        "%m/%d/%Y %I:%M:%S %p"@,
        "%m/%d/%Y %I:%M %p"@,
        "%m/%d/%Y %H:%M:%S"@,
        "%m/%d/%Y %H:%M"@,
        "%Y-%m-%d %H:%M:%S"@,
        "%Y-%m-%d %H:%M"@,
    ]
}

/// The first layout, from the `k`-th on, that reads `s`.
pub open spec fn first_reading(s: Seq<char>, k: int) -> Option<Seq<char>>
    decreases datetime_formats().len() - k,
{
    if k < 0 || k >= datetime_formats().len() {
        None
    } else {
        match reformatted_datetime(s, datetime_formats()[k]) {
            Some(r) => Some(r),
            None => first_reading(s, k + 1),
        }
    }
}

/// A date and time from a sheet in ISO 8601: the first layout that reads
/// it, else the text itself when it already looks ISO (holds a `T`, ends
/// with `Z`).
pub open spec fn csv_datetime(s: Seq<char>) -> Option<Seq<char>> {
    let t = trim(s);
    match first_reading(t, 0) {
        Some(r) => Some(r),
        None => if contains(t, "T"@) && ends_with(t, "Z"@) {
            Some(t)
        } else {
            None
        },
    }
}

/// The sheet's date and time is read month first: the trimmed text is
/// tried, in this order, with "%m/%d/%Y %I:%M:%S %p", "%m/%d/%Y %I:%M %p",
/// "%m/%d/%Y %H:%M:%S", "%m/%d/%Y %H:%M", "%Y-%m-%d %H:%M:%S" and
/// "%Y-%m-%d %H:%M", and the first layout chrono reads gives the ISO text
/// of the date and time read; with none, an ISO-looking text is kept as it
/// is.
pub proof fn lemma_datetime_layouts(s: Seq<char>)
    ensures
        naive_datetime_fields(trim(s), "%m/%d/%Y %I:%M:%S %p"@) is Some ==> csv_datetime(s) == Some(
            iso_text(naive_datetime_fields(trim(s), "%m/%d/%Y %I:%M:%S %p"@)->0),
        ),
        naive_datetime_fields(trim(s), "%m/%d/%Y %I:%M:%S %p"@) is None && naive_datetime_fields(trim(s), "%m/%d/%Y %I:%M %p"@) is Some ==> csv_datetime(s) == Some(
            iso_text(naive_datetime_fields(trim(s), "%m/%d/%Y %I:%M %p"@)->0),
        ),
        naive_datetime_fields(trim(s), "%m/%d/%Y %I:%M:%S %p"@) is None && naive_datetime_fields(trim(s), "%m/%d/%Y %I:%M %p"@) is None && naive_datetime_fields(trim(s), "%m/%d/%Y %H:%M:%S"@) is Some ==> csv_datetime(s) == Some(
            iso_text(naive_datetime_fields(trim(s), "%m/%d/%Y %H:%M:%S"@)->0),
        ),
        naive_datetime_fields(trim(s), "%m/%d/%Y %I:%M:%S %p"@) is None && naive_datetime_fields(trim(s), "%m/%d/%Y %I:%M %p"@) is None && naive_datetime_fields(trim(s), "%m/%d/%Y %H:%M:%S"@) is None && naive_datetime_fields(trim(s), "%m/%d/%Y %H:%M"@) is Some ==> csv_datetime(s) == Some(
            iso_text(naive_datetime_fields(trim(s), "%m/%d/%Y %H:%M"@)->0),
        ),
        naive_datetime_fields(trim(s), "%m/%d/%Y %I:%M:%S %p"@) is None && naive_datetime_fields(trim(s), "%m/%d/%Y %I:%M %p"@) is None && naive_datetime_fields(trim(s), "%m/%d/%Y %H:%M:%S"@) is None && naive_datetime_fields(trim(s), "%m/%d/%Y %H:%M"@) is None && naive_datetime_fields(trim(s), "%Y-%m-%d %H:%M:%S"@) is Some ==> csv_datetime(s) == Some(
            iso_text(naive_datetime_fields(trim(s), "%Y-%m-%d %H:%M:%S"@)->0),
        ),
        naive_datetime_fields(trim(s), "%m/%d/%Y %I:%M:%S %p"@) is None && naive_datetime_fields(trim(s), "%m/%d/%Y %I:%M %p"@) is None && naive_datetime_fields(trim(s), "%m/%d/%Y %H:%M:%S"@) is None && naive_datetime_fields(trim(s), "%m/%d/%Y %H:%M"@) is None && naive_datetime_fields(trim(s), "%Y-%m-%d %H:%M:%S"@) is None && naive_datetime_fields(trim(s), "%Y-%m-%d %H:%M"@) is Some ==> csv_datetime(s) == Some(
            iso_text(naive_datetime_fields(trim(s), "%Y-%m-%d %H:%M"@)->0),
        ),
        naive_datetime_fields(trim(s), "%m/%d/%Y %I:%M:%S %p"@) is None && naive_datetime_fields(trim(s), "%m/%d/%Y %I:%M %p"@) is None && naive_datetime_fields(trim(s), "%m/%d/%Y %H:%M:%S"@) is None && naive_datetime_fields(trim(s), "%m/%d/%Y %H:%M"@) is None && naive_datetime_fields(trim(s), "%Y-%m-%d %H:%M:%S"@) is None && naive_datetime_fields(trim(s), "%Y-%m-%d %H:%M"@) is None ==> csv_datetime(s) == if contains(trim(s), "T"@) && ends_with(trim(s), "Z"@) {
            Some(trim(s))
        } else {
            None
        },
{
    reveal_with_fuel(first_reading, 7);
    assert(datetime_formats()[0] == "%m/%d/%Y %I:%M:%S %p"@);
    assert(datetime_formats()[1] == "%m/%d/%Y %I:%M %p"@);
    assert(datetime_formats()[2] == "%m/%d/%Y %H:%M:%S"@);
    assert(datetime_formats()[3] == "%m/%d/%Y %H:%M"@);
    assert(datetime_formats()[4] == "%Y-%m-%d %H:%M:%S"@);
    assert(datetime_formats()[5] == "%Y-%m-%d %H:%M"@);
}

/// See [`csv_datetime`].
pub fn parse_csv_datetime(s: &str) -> (r: Option<String>)
    ensures
        match r {
            Some(v) => csv_datetime(s@) == Some(v@),
            None => csv_datetime(s@) is None,
        },
{
    let c = chars_of(s);
    let t = trimmed(&c);
    let ts = string_of(&t);
    let formats: [&str; 6] = [
        "%m/%d/%Y %I:%M:%S %p",
        "%m/%d/%Y %I:%M %p",
        "%m/%d/%Y %H:%M:%S",
        "%m/%d/%Y %H:%M",
        "%Y-%m-%d %H:%M:%S",
        "%Y-%m-%d %H:%M",
    ];
    proof {
        assert(formats@.map_values(|f: &str| f@) =~= datetime_formats());
    }
    let mut k: usize = 0;
    while k < 6
        invariant
            k <= 6,
            ts@ == trim(s@),
            formats@.map_values(|f: &str| f@) == datetime_formats(),
            first_reading(ts@, 0) == first_reading(ts@, k as int),
        decreases 6 - k,
    {
        proof {
            assert(formats@.map_values(|f: &str| f@)[k as int] == formats@[k as int]@);
        }
        match reformat_datetime(ts.as_str(), formats[k]) {
            Some(v) => {
                proof {
                    assert(first_reading(ts@, k as int) == Some(v@));
                }
                return Some(v);
            },
            None => {
                proof {
                    assert(first_reading(ts@, k as int) == first_reading(ts@, k + 1));
                }
            },
        }
        k = k + 1;
    }
    proof {
        assert(first_reading(ts@, 6) is None);
    }
    if crate::text::has_str(&t, "T") && crate::text::has_suffix_str(&t, "Z") {
        Some(ts)
    } else {
        None
    }
}

/// Index of the first header equal (trimmed, ignoring ASCII case) to the
/// first candidate that has one.
pub open spec fn header_position(headers: Seq<Seq<char>>, candidates: Seq<Seq<char>>) -> Option<int>
    decreases candidates.len(),
{
    if candidates.len() == 0 {
        None
    } else {
        match first_match(headers, candidates[0], 0) {
            Some(i) => Some(i),
            None => header_position(headers, candidates.drop_first()),
        }
    }
}

/// Index of the first header from `i` on equal to `c` up to trimming and
/// ASCII case.
pub open spec fn first_match(headers: Seq<Seq<char>>, c: Seq<char>, i: int) -> Option<int>
    decreases headers.len() - i,
{
    if i < 0 || i >= headers.len() {
        None
    } else if eq_ignore_case(trim(headers[i]), c) {
        Some(i)
    } else {
        first_match(headers, c, i + 1)
    }
}

fn find_first_match(headers: &[String], c: &str) -> (r: Option<usize>)
    ensures
        match r {
            Some(i) => first_match(text_views(headers@), c@, 0) == Some(i as int),
            None => first_match(text_views(headers@), c@, 0) is None,
        },
{
    let ghost hv = text_views(headers@);
    let cc = chars_of(c);
    let mut i: usize = 0;
    while i < headers.len()
        invariant
            i <= headers@.len(),
            hv == text_views(headers@),
            cc@ == c@,
            first_match(hv, c@, 0) == first_match(hv, c@, i as int),
        decreases headers@.len() - i,
    {
        let h = chars_of(headers[i].as_str());
        let t = trimmed(&h);
        proof {
            assert(hv[i as int] == headers@[i as int]@);
        }
        if same_ignoring_case(&t, &cc) {
            return Some(i);
        }
        i = i + 1;
    }
    None
}

fn position_of(headers: &[String], candidates: &[&str]) -> (r: Option<usize>)
    ensures
        match r {
            Some(i) => header_position(text_views(headers@), candidates@.map_values(|a: &str| a@)) == Some(i as int),
            None => header_position(text_views(headers@), candidates@.map_values(|a: &str| a@)) is None,
        },
{
    let ghost cv = candidates@.map_values(|a: &str| a@);
    let mut k: usize = 0;
    assert(cv.skip(0) =~= cv);
    while k < candidates.len()
        invariant
            k <= candidates@.len(),
            cv == candidates@.map_values(|a: &str| a@),
            header_position(text_views(headers@), cv) == header_position(text_views(headers@), cv.skip(k as int)),
        decreases candidates@.len() - k,
    {
        proof {
            assert(cv.skip(k as int)[0] == candidates@[k as int]@);
            assert(cv.skip(k as int).drop_first() =~= cv.skip(k + 1));
        }
        match find_first_match(headers, candidates[k]) {
            Some(i) => return Some(i),
            None => {},
        }
        k = k + 1;
    }
    None
}

pub open spec fn word_candidates() -> Seq<Seq<char>> {
    seq!["Word"@, "word"@]
}

pub open spec fn power_candidates() -> Seq<Seq<char>> {
    seq!["Power Name"@, "power_name"@, "Power Name"@]
}

pub open spec fn date_candidates() -> Seq<Seq<char>> {
    seq!["Date"@, "date"@]
}

pub open spec fn time_candidates() -> Seq<Seq<char>> {
    seq!["Time"@, "time"@]
}

pub open spec fn description_candidates() -> Seq<Seq<char>> {
    seq!["Description"@, "description"@]
}

/// Refusal of a sheet without a word column.
pub const MISSING_WORD_COLUMN: &'static str = "CSV is missing a required column. Expected one of: Word, word";

/// Refusal of a sheet without a power name column.
pub const MISSING_POWER_COLUMN: &'static str = "CSV is missing a required column. Expected one of: Power Name, power_name, Power Name";

/// Refusal of a row without a word field.
pub const MISSING_WORD_FIELD: &'static str = "Missing Word field in CSV row";

/// Refusal of a row without a power name field.
pub const MISSING_POWER_FIELD: &'static str = "Missing Power Name field in CSV row";

/// The sheet's columns: word, power name, date, time, description.
pub type WordColumns = (usize, usize, Option<usize>, Option<usize>, Option<usize>);

/// What one row of the sheet gives: refused when it lacks the word or power
/// name field; nothing when either is blank; otherwise the word to record.
/// The discovery time is the date and time fields joined (when the sheet has
/// both and they are not blank), read as [`csv_datetime`], else `now`.
pub open spec fn word_row(
    cols: WordColumns,
    rec: Seq<Seq<char>>,
    now: Seq<char>,
) -> Result<Option<(Seq<char>, Seq<char>, Option<Seq<char>>, Seq<char>)>, Seq<char>> {
    if cols.0 as int >= rec.len() {
        Err(MISSING_WORD_FIELD@)
    } else if cols.1 as int >= rec.len() {
        Err(MISSING_POWER_FIELD@)
    } else {
        let word = trim(rec[cols.0 as int]);
        let power = trim(rec[cols.1 as int]);
        if word.len() == 0 || power.len() == 0 {
            Ok(None)
        } else {
            let at = match (cols.2, cols.3) {
                (Some(di), Some(ti)) => {
                    let date = if (di as int) < rec.len() { rec[di as int] } else { Seq::empty() };
                    let time = if (ti as int) < rec.len() { rec[ti as int] } else { Seq::empty() };
                    let combined = trim(date + seq![' '] + time);
                    if combined.len() == 0 {
                        now
                    } else {
                        match csv_datetime(combined) {
                            Some(t) => t,
                            None => now,
                        }
                    }
                },
                _ => now,
            };
            let desc = match cols.4 {
                Some(i) => if (i as int) < rec.len() && rec[i as int].len() > 0 {
                    Some(rec[i as int])
                } else {
                    None
                },
                None => None,
            };
            Ok(Some((word, power, desc, at)))
        }
    }
}


/// (word, power name, description, discovered at)
pub type WordView = (Seq<char>, Seq<char>, Option<Seq<char>>, Seq<char>);

/// The message of an unreadable record.
pub open spec fn record_error_message(e: Seq<char>) -> Seq<char> {
    "Failed to read CSV record: "@ + e
}

/// The words read from the records in order, up to the first refusal, and
/// that refusal, if any.
pub open spec fn word_rows(
    cols: WordColumns,
    recs: Seq<Result<Seq<Seq<char>>, Seq<char>>>,
    now: Seq<char>,
) -> (Seq<WordView>, Option<Seq<char>>)
    decreases recs.len(),
{
    if recs.len() == 0 {
        (Seq::empty(), None)
    } else {
        let (rows, err) = word_rows(cols, recs.drop_last(), now);
        if err is Some {
            (rows, err)
        } else {
            match recs.last() {
                Err(e) => (rows, Some(record_error_message(e))),
                Ok(rec) => match word_row(cols, rec, now) {
                    Err(m) => (rows, Some(m)),
                    Ok(None) => (rows, None),
                    Ok(Some(w)) => (rows.push(w), None),
                },
            }
        }
    }
}

pub open spec fn word_view(w: ImportedWord) -> WordView {
    (w.word@, w.power_name@, match w.description {
        Some(d) => Some(d@),
        None => None,
    }, w.discovered_at@)
}

pub open spec fn word_views(v: Seq<ImportedWord>) -> Seq<WordView> {
    v.map_values(|w: ImportedWord| word_view(w))
}

fn field(rec: &Vec<String>, i: usize) -> (r: Vec<char>)
    ensures
        r@ == if (i as int) < rec@.len() { rec@[i as int]@ } else { Seq::empty() },
{
    if i < rec.len() {
        chars_of(rec[i].as_str())
    } else {
        Vec::new()
    }
}

fn read_word_row(cols: WordColumns, rec: &Vec<String>, now: &str) -> (r: Result<Option<ImportedWord>, String>)
    ensures
        match r {
            Err(m) => word_row(cols, text_views(rec@), now@) == Err::<Option<WordView>, Seq<char>>(m@),
            Ok(None) => word_row(cols, text_views(rec@), now@) == Ok::<Option<WordView>, Seq<char>>(None),
            Ok(Some(w)) => word_row(cols, text_views(rec@), now@) == Ok::<Option<WordView>, Seq<char>>(
                Some(word_view(w)),
            ),
        },
{
    let ghost rv = text_views(rec@);
    assert(rv.len() == rec@.len());
    if cols.0 >= rec.len() {
        return Err(MISSING_WORD_FIELD.to_owned());
    }
    if cols.1 >= rec.len() {
        return Err(MISSING_POWER_FIELD.to_owned());
    }
    let wc = chars_of(rec[cols.0].as_str());
    let word = trimmed(&wc);
    let pc = chars_of(rec[cols.1].as_str());
    let power = trimmed(&pc);
    if word.len() == 0 || power.len() == 0 {
        return Ok(None);
    }
    let at = match (cols.2, cols.3) {
        (Some(di), Some(ti)) => {
            let date = field(rec, di);
            let mut both = field(rec, di);
            both.push(' ');
            let time = field(rec, ti);
            push_all(&mut both, &time);
            assert(both@ =~= date@ + seq![' '] + time@);
            let combined = trimmed(&both);
            proof {
                assert(rv.len() == rec@.len());
                if (di as int) < rec@.len() {
                    assert(rv[di as int] == rec@[di as int]@);
                }
                if (ti as int) < rec@.len() {
                    assert(rv[ti as int] == rec@[ti as int]@);
                }
            }
            if combined.len() == 0 {
                now.to_owned()
            } else {
                let cs = string_of(&combined);
                match parse_csv_datetime(cs.as_str()) {
                    Some(t) => t,
                    None => now.to_owned(),
                }
            }
        },
        _ => now.to_owned(),
    };
    let description = match cols.4 {
        Some(i) => {
            if i < rec.len() && !rec[i].as_str().is_empty() {
                proof {
                    assert(rv[i as int] == rec@[i as int]@);
                }
                Some(rec[i].clone())
            } else {
                proof {
                    if (i as int) < rec@.len() {
                        assert(rv[i as int] == rec@[i as int]@);
                    }
                }
                None
            }
        },
        None => None,
    };
    proof {
        assert(rv[cols.0 as int] == rec@[cols.0 as int]@);
        assert(rv[cols.1 as int] == rec@[cols.1 as int]@);
    }
    let res = ImportedWord { word: string_of(&word), power_name: string_of(&power), description, discovered_at: at };
    proof {
        let wr = word_row(cols, rv, now@);
        assert(wr is Ok);
        assert(wr->Ok_0 is Some);
        let t = wr->Ok_0->0;
        assert(t.0 == res.word@);
        assert(t.1 == res.power_name@);
        assert(t.2 == word_view(res).2);
        assert(t.3 == res.discovered_at@);
    }
    Ok(Some(res))
}

/// Refusal of a sheet whose header cannot be read.
pub open spec fn headers_error_message(e: Seq<char>) -> Seq<char> {
    "Failed to read CSV headers: "@ + e
}

/// The words of a sheet to record, with `now` as the discovery time of rows
/// that give none: the words of the rows read before the first refusal, and
/// that refusal. A sheet whose header cannot be read, or without a word or
/// power name column, is refused outright.
pub fn words_from_csv(content: &str, now: &str) -> (r: (Vec<ImportedWord>, Option<String>))
    ensures
        match csv_strict_fields(content@) {
            Err(e) => r.0@.len() == 0 && r.1 is Some && r.1->0@ == headers_error_message(e),
            Ok((h, recs)) => match (
                header_position(h, word_candidates()),
                header_position(h, power_candidates()),
            ) {
                (None, _) => r.0@.len() == 0 && r.1 is Some && r.1->0@ == MISSING_WORD_COLUMN@,
                (Some(_), None) => r.0@.len() == 0 && r.1 is Some && r.1->0@ == MISSING_POWER_COLUMN@,
                (Some(w), Some(p)) => {
                    let cols = (
                        w as usize,
                        p as usize,
                        match header_position(h, date_candidates()) {
                            Some(i) => Some(i as usize),
                            None => None,
                        },
                        match header_position(h, time_candidates()) {
                            Some(i) => Some(i as usize),
                            None => None,
                        },
                        match header_position(h, description_candidates()) {
                            Some(i) => Some(i as usize),
                            None => None,
                        },
                    );
                    let (rows, err) = word_rows(cols, recs, now@);
                    &&& word_views(r.0@) == rows
                    &&& match err {
                        Some(m) => r.1 is Some && r.1->0@ == m,
                        None => r.1 is None,
                    }
                },
            },
        },
{
    proof {
        assert(""@ =~= Seq::<char>::empty()) by {
            reveal_strlit("");
        }
    }
    let (headers, recs) = match read_csv_strict(content) {
        Ok(p) => p,
        Err(e) => {
            let m = join3("Failed to read CSV headers: ", e.as_str(), "");
            assert(m@ =~= headers_error_message(e@));
            return (Vec::new(), Some(m));
        },
    };
    let wa: [&str; 2] = ["Word", "word"];
    let pa: [&str; 3] = ["Power Name", "power_name", "Power Name"];
    let da: [&str; 2] = ["Date", "date"];
    let ta: [&str; 2] = ["Time", "time"];
    let ea: [&str; 2] = ["Description", "description"];
    proof {
        assert(wa@.map_values(|a: &str| a@) =~= word_candidates());
        assert(pa@.map_values(|a: &str| a@) =~= power_candidates());
        assert(da@.map_values(|a: &str| a@) =~= date_candidates());
        assert(ta@.map_values(|a: &str| a@) =~= time_candidates());
        assert(ea@.map_values(|a: &str| a@) =~= description_candidates());
    }
    let w = match position_of(&headers, &wa) {
        Some(i) => i,
        None => return (Vec::new(), Some(MISSING_WORD_COLUMN.to_owned())),
    };
    let p = match position_of(&headers, &pa) {
        Some(i) => i,
        None => return (Vec::new(), Some(MISSING_POWER_COLUMN.to_owned())),
    };
    let cols: WordColumns = (w, p, position_of(&headers, &da), position_of(&headers, &ta), position_of(&headers, &ea));
    let ghost rv = records_view(recs@);
    let mut out: Vec<ImportedWord> = Vec::new();
    let mut i: usize = 0;
    assert(rv.take(0) =~= Seq::<Result<Seq<Seq<char>>, Seq<char>>>::empty());
    while i < recs.len()
        invariant
            i <= recs@.len(),
            rv == records_view(recs@),
            csv_strict_fields(content@) == Ok::<
                (Seq<Seq<char>>, Seq<Result<Seq<Seq<char>>, Seq<char>>>),
                Seq<char>,
            >((text_views(headers@), rv)),
            header_position(text_views(headers@), word_candidates()) == Some(cols.0 as int),
            header_position(text_views(headers@), power_candidates()) == Some(cols.1 as int),
            cols.2 == match header_position(text_views(headers@), date_candidates()) {
                Some(i) => Some(i as usize),
                None => None,
            },
            cols.3 == match header_position(text_views(headers@), time_candidates()) {
                Some(i) => Some(i as usize),
                None => None,
            },
            cols.4 == match header_position(text_views(headers@), description_candidates()) {
                Some(i) => Some(i as usize),
                None => None,
            },
            word_rows(cols, rv.take(i as int), now@) == (word_views(out@), None::<Seq<char>>),
        decreases recs@.len() - i,
    {
        proof {
            assert(rv.take(i + 1).drop_last() =~= rv.take(i as int));
            assert(rv.take(i + 1).last() == rv[i as int]);
            assert(rv[i as int] == record_view(recs@[i as int]));
        }
        match &recs[i] {
            Err(e) => {
                let m = join3("Failed to read CSV record: ", e.as_str(), "");
                proof {
                    assert(""@ =~= Seq::<char>::empty()) by {
                        reveal_strlit("");
                    }
                    assert(m@ =~= record_error_message(e@));
                    lemma_word_rows_stop(cols, rv, i as int + 1, now@);
                }
                return (out, Some(m));
            },
            Ok(rec) => {
                match read_word_row(cols, rec, now) {
                    Err(m) => {
                        proof {
                            lemma_word_rows_stop(cols, rv, i as int + 1, now@);
                        }
                        return (out, Some(m));
                    },
                    Ok(None) => {},
                    Ok(Some(wd)) => {
                        let ghost ob = out@;
                        out.push(wd);
                        proof {
                            assert(word_views(out@) =~= word_views(ob).push(word_view(wd)));
                        }
                    },
                }
            },
        }
        i = i + 1;
    }
    assert(rv.take(recs@.len() as int) =~= rv);
    (out, None)
}

/// Once a refusal is met, later records change nothing.
proof fn lemma_word_rows_stop(
    cols: WordColumns,
    recs: Seq<Result<Seq<Seq<char>>, Seq<char>>>,
    k: int,
    now: Seq<char>,
)
    requires
        0 <= k <= recs.len(),
        word_rows(cols, recs.take(k), now).1 is Some,
    ensures
        word_rows(cols, recs, now) == word_rows(cols, recs.take(k), now),
    decreases recs.len() - k,
{
    if k < recs.len() {
        assert(recs.take(k + 1).drop_last() =~= recs.take(k));
        lemma_word_rows_stop(cols, recs, k + 1, now);
    } else {
        assert(recs.take(k) =~= recs);
    }
}

} // verus!
