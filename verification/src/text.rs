//! Character-level text helpers shared by the log parsers.
//!
//! Every log line is handled as a sequence of `char`s; the helpers below give
//! the usual string operations (prefix/suffix tests, first/last occurrence,
//! trimming, integer parsing) with their meaning stated over `Seq<char>`.
use vstd::prelude::*;

verus! {

broadcast use vstd::string::group_string_axioms;

// ───────────────────────────── specifications ─────────────────────────────

/// `p` occurs in `t` starting at index `i`.
pub open spec fn occurs_at(t: Seq<char>, p: Seq<char>, i: int) -> bool {
    0 <= i && i + p.len() <= t.len() && t.subrange(i, i + p.len()) == p
}

/// `t` contains `p` somewhere.
pub open spec fn contains(t: Seq<char>, p: Seq<char>) -> bool {
    exists|i: int| occurs_at(t, p, i)
}

/// `i` is the leftmost occurrence of `p` in `t`.
pub open spec fn is_first_occurrence(t: Seq<char>, p: Seq<char>, i: int) -> bool {
    &&& occurs_at(t, p, i)
    &&& forall|j: int| 0 <= j < i ==> !occurs_at(t, p, j)
}

/// `i` is the rightmost occurrence of `p` in `t`.
pub open spec fn is_last_occurrence(t: Seq<char>, p: Seq<char>, i: int) -> bool {
    &&& occurs_at(t, p, i)
    &&& forall|j: int| i < j ==> !occurs_at(t, p, j)
}

/// Index of the leftmost occurrence of `p` in `t`, if any.
pub open spec fn find_first(t: Seq<char>, p: Seq<char>) -> Option<int> {
    if exists|i: int| is_first_occurrence(t, p, i) {
        Some(choose|i: int| is_first_occurrence(t, p, i))
    } else {
        None
    }
}

/// Index of the rightmost occurrence of `p` in `t`, if any.
pub open spec fn find_last(t: Seq<char>, p: Seq<char>) -> Option<int> {
    if exists|i: int| is_last_occurrence(t, p, i) {
        Some(choose|i: int| is_last_occurrence(t, p, i))
    } else {
        None
    }
}

/// `t` begins with `p`.
pub open spec fn starts_with(t: Seq<char>, p: Seq<char>) -> bool {
    p.len() <= t.len() && t.subrange(0, p.len() as int) == p
}

/// `t` ends with `p`.
pub open spec fn ends_with(t: Seq<char>, p: Seq<char>) -> bool {
    p.len() <= t.len() && t.subrange(t.len() - p.len(), t.len() as int) == p
}

/// `t` with the leading `p` removed, when `t` starts with `p`.
pub open spec fn strip_prefix(t: Seq<char>, p: Seq<char>) -> Option<Seq<char>> {
    if starts_with(t, p) {
        Some(t.subrange(p.len() as int, t.len() as int))
    } else {
        None
    }
}

/// `t` with the trailing `p` removed, when `t` ends with `p`.
pub open spec fn strip_suffix(t: Seq<char>, p: Seq<char>) -> Option<Seq<char>> {
    if ends_with(t, p) {
        Some(t.subrange(0, t.len() - p.len()))
    } else {
        None
    }
}

/// The part of `t` before the first occurrence of `p` (all of `t` without one).
pub open spec fn before_first(t: Seq<char>, p: Seq<char>) -> Seq<char> {
    match find_first(t, p) {
        Some(i) => t.subrange(0, i),
        None => t,
    }
}

/// The part of `t` after the first occurrence of `p`, if `p` occurs.
pub open spec fn after_first(t: Seq<char>, p: Seq<char>) -> Option<Seq<char>> {
    match find_first(t, p) {
        Some(i) => Some(t.subrange(i + p.len(), t.len() as int)),
        None => None,
    }
}

/// The second piece of `t` split on `p`: the text between the first and the
/// second occurrence of `p` (or the end of `t`), if `p` occurs at all.
pub open spec fn second_piece(t: Seq<char>, p: Seq<char>) -> Option<Seq<char>> {
    match after_first(t, p) {
        Some(rest) => Some(before_first(rest, p)),
        None => None,
    }
}

/// `t` with every occurrence of `p` removed, scanning left to right.
pub open spec fn remove_all(t: Seq<char>, p: Seq<char>) -> Seq<char>
    decreases t.len(),
{
    if p.len() == 0 {
        t
    } else {
        match find_first(t, p) {
            Some(i) => {
                if 0 <= i && i + p.len() <= t.len() {
                    t.subrange(0, i) + remove_all(t.subrange(i + p.len(), t.len() as int), p)
                } else {
                    t
                }
            },
            None => t,
        }
    }
}

/// `t` with every `c` removed.
pub open spec fn remove_char(t: Seq<char>, c: char) -> Seq<char>
    decreases t.len(),
{
    if t.len() == 0 {
        t
    } else if t.last() == c {
        remove_char(t.drop_last(), c)
    } else {
        remove_char(t.drop_last(), c).push(t.last())
    }
}

/// Unicode `White_Space`, the property that `char::is_whitespace` tests.
pub open spec fn is_white(c: char) -> bool {
    let u = c as u32;
    ||| 0x9 <= u <= 0xd
    ||| u == 0x20
    ||| u == 0x85
    ||| u == 0xa0
    ||| u == 0x1680
    ||| 0x2000 <= u <= 0x200a
    ||| u == 0x2028
    ||| u == 0x2029
    ||| u == 0x202f
    ||| u == 0x205f
    ||| u == 0x3000
}

/// `t` without its leading white space.
pub open spec fn trim_start(t: Seq<char>) -> Seq<char>
    decreases t.len(),
{
    if t.len() > 0 && is_white(t[0]) {
        trim_start(t.drop_first())
    } else {
        t
    }
}

/// `t` without its trailing white space.
pub open spec fn trim_end(t: Seq<char>) -> Seq<char>
    decreases t.len(),
{
    if t.len() > 0 && is_white(t.last()) {
        trim_end(t.drop_last())
    } else {
        t
    }
}

/// `t` without leading and trailing white space.
pub open spec fn trim(t: Seq<char>) -> Seq<char> {
    trim_end(trim_start(t))
}

/// ASCII upper-case letters are mapped to lower case, all else is kept.
pub open spec fn lower_char(c: char) -> char {
    if 'A' <= c <= 'Z' {
        ((c as u32) + 32) as char
    } else {
        c
    }
}

/// ASCII lower-case letters are mapped to upper case, all else is kept.
pub open spec fn upper_char(c: char) -> char {
    if 'a' <= c <= 'z' {
        ((c as u32) - 32) as char
    } else {
        c
    }
}

/// ASCII lower-casing of a whole sequence.
pub open spec fn ascii_lower(t: Seq<char>) -> Seq<char> {
    t.map_values(|c: char| lower_char(c))
}

/// Equal up to ASCII case.
pub open spec fn eq_ignore_case(a: Seq<char>, b: Seq<char>) -> bool {
    ascii_lower(a) == ascii_lower(b)
}

pub open spec fn is_ascii_alpha(c: char) -> bool {
    ('a' <= c <= 'z') || ('A' <= c <= 'Z')
}

pub open spec fn is_ascii_digit(c: char) -> bool {
    '0' <= c <= '9'
}

pub open spec fn is_ascii_alnum(c: char) -> bool {
    is_ascii_alpha(c) || is_ascii_digit(c)
}

pub open spec fn all_digits(d: Seq<char>) -> bool {
    forall|i: int| 0 <= i < d.len() ==> is_ascii_digit(#[trigger] d[i])
}

/// Decimal value of a run of digits.
pub open spec fn digits_value(d: Seq<char>) -> int
    decreases d.len(),
{
    if d.len() == 0 {
        0
    } else {
        digits_value(d.drop_last()) * 10 + ((d.last() as u32) - ('0' as u32))
    }
}

/// The digit part of an unsigned number: one leading `+` is allowed.
pub open spec fn unsigned_digits(s: Seq<char>) -> Seq<char> {
    if s.len() > 0 && s[0] == '+' {
        s.drop_first()
    } else {
        s
    }
}

/// What `str::parse::<u32>` yields: an optional `+`, then one or more ASCII
/// digits whose value fits in a `u32`.
pub open spec fn parse_u32_spec(s: Seq<char>) -> Option<u32> {
    let d = unsigned_digits(s);
    if d.len() == 0 || !all_digits(d) || digits_value(d) > u32::MAX {
        None
    } else {
        Some(digits_value(d) as u32)
    }
}

/// What `str::parse::<i64>` yields: an optional sign, then one or more ASCII
/// digits whose signed value fits in an `i64`.
pub open spec fn parse_i64_spec(s: Seq<char>) -> Option<i64> {
    if s.len() > 0 && s[0] == '-' {
        let d = s.drop_first();
        if d.len() == 0 || !all_digits(d) || digits_value(d) > 0x8000_0000_0000_0000 {
            None
        } else {
            Some((0 - digits_value(d)) as i64)
        }
    } else {
        let d = unsigned_digits(s);
        if d.len() == 0 || !all_digits(d) || digits_value(d) > i64::MAX {
            None
        } else {
            Some(digits_value(d) as i64)
        }
    }
}

/// An `Option<usize>` read as an `Option<int>`.
pub open spec fn opt_index(o: Option<usize>) -> Option<int> {
    match o {
        Some(i) => Some(i as int),
        None => None,
    }
}

// ───────────────────────────── lemmas ─────────────────────────────

/// The leftmost occurrence is unique, so `find_first` names it.
pub proof fn lemma_first_occurrence(t: Seq<char>, p: Seq<char>, i: int)
    requires
        is_first_occurrence(t, p, i),
    ensures
        find_first(t, p) == Some(i),
{
    let k = choose|k: int| is_first_occurrence(t, p, k);
    assert(is_first_occurrence(t, p, k));
    if k < i {
        assert(!occurs_at(t, p, k));
    }
    if i < k {
        assert(!occurs_at(t, p, i));
    }
}

/// With no occurrence at all, `find_first` finds nothing.
pub proof fn lemma_no_occurrence(t: Seq<char>, p: Seq<char>)
    requires
        forall|j: int| !occurs_at(t, p, j),
    ensures
        find_first(t, p) is None,
        find_last(t, p) is None,
        !contains(t, p),
{
}

/// The rightmost occurrence is unique, so `find_last` names it.
pub proof fn lemma_last_occurrence(t: Seq<char>, p: Seq<char>, i: int)
    requires
        is_last_occurrence(t, p, i),
    ensures
        find_last(t, p) == Some(i),
{
    let k = choose|k: int| is_last_occurrence(t, p, k);
    assert(is_last_occurrence(t, p, k));
    if k < i {
        assert(!occurs_at(t, p, i));
    }
    if i < k {
        assert(!occurs_at(t, p, k));
    }
}

pub proof fn lemma_digits_value_nonneg(d: Seq<char>)
    requires
        all_digits(d),
    ensures
        digits_value(d) >= 0,
    decreases d.len(),
{
    if d.len() > 0 {
        lemma_digits_value_nonneg(d.drop_last());
    }
}

/// Appending digits never decreases the value.
proof fn lemma_digits_value_prefix(d: Seq<char>, k: int)
    requires
        all_digits(d),
        0 <= k <= d.len(),
    ensures
        digits_value(d.take(k)) <= digits_value(d),
    decreases d.len(),
{
    if k < d.len() {
        lemma_digits_value_prefix(d.drop_last(), k);
        assert(d.drop_last().take(k) =~= d.take(k));
        lemma_digits_value_nonneg(d.drop_last());
    } else {
        assert(d.take(k) =~= d);
    }
}

// ───────────────────────────── executable helpers ─────────────────────────────

/// The characters of `s`, in order.
pub fn chars_of(s: &str) -> (v: Vec<char>)
    ensures
        v@ == s@,
{
    let mut v: Vec<char> = Vec::new();
    for c in it: s.chars()
        invariant
            it.seq() == s@,
            v@ == it.seq().take(it.index() as int),
    {
        v.push(c);
    }
    v
}

/// Collects characters into a `String` (`String::from_iter` of std).
#[verifier::external_body]
pub(crate) fn string_of(v: &[char]) -> (s: String)
    ensures
        s@ == v@,
{
    String::from_iter(v.iter())
}

/// A copy of `t[lo..hi]`.
pub fn slice(t: &[char], lo: usize, hi: usize) -> (r: Vec<char>)
    requires
        lo <= hi <= t@.len(),
    ensures
        r@ == t@.subrange(lo as int, hi as int),
{
    let mut r: Vec<char> = Vec::new();
    let mut i = lo;
    while i < hi
        invariant
            lo <= i <= hi <= t@.len(),
            r@ == t@.subrange(lo as int, i as int),
        decreases hi - i,
    {
        r.push(t[i]);
        i = i + 1;
        assert(r@ =~= t@.subrange(lo as int, i as int));
    }
    r
}

/// The characters of `t` equal those of `u`.
pub fn same(t: &[char], u: &[char]) -> (b: bool)
    ensures
        b == (t@ == u@),
{
    if t.len() != u.len() {
        return false;
    }
    let mut i: usize = 0;
    while i < t.len()
        invariant
            t@.len() == u@.len(),
            i <= t@.len(),
            forall|j: int| 0 <= j < i ==> t@[j] == u@[j],
        decreases t@.len() - i,
    {
        if t[i] != u[i] {
            return false;
        }
        i = i + 1;
    }
    assert(t@ =~= u@);
    true
}

/// `p` occurs in `t` at index `i`.
pub fn matches_at(t: &[char], p: &[char], i: usize) -> (b: bool)
    ensures
        b == occurs_at(t@, p@, i as int),
{
    if i > t.len() || p.len() > t.len() - i {
        return false;
    }
    let tl = t.len();
    let mut k: usize = 0;
    while k < p.len()
        invariant
            tl == t@.len(),
            i + p@.len() <= t@.len(),
            k <= p@.len(),
            forall|j: int| 0 <= j < k ==> t@[i + j] == p@[j],
        decreases p@.len() - k,
    {
        if t[i + k] != p[k] {
            assert(t@.subrange(i as int, i + p@.len())[k as int] != p@[k as int]);
            return false;
        }
        k = k + 1;
    }
    assert(t@.subrange(i as int, i + p@.len()) =~= p@);
    true
}

/// `t` begins with `p`.
pub fn has_prefix(t: &[char], p: &[char]) -> (b: bool)
    ensures
        b == starts_with(t@, p@),
{
    matches_at(t, p, 0)
}

/// `t` ends with `p`.
pub fn has_suffix(t: &[char], p: &[char]) -> (b: bool)
    ensures
        b == ends_with(t@, p@),
{
    if p.len() > t.len() {
        return false;
    }
    matches_at(t, p, t.len() - p.len())
}

/// Index of the leftmost occurrence of `p` in `t`.
pub fn find(t: &[char], p: &[char]) -> (r: Option<usize>)
    ensures
        opt_index(r) == find_first(t@, p@),
        r matches Some(i) ==> occurs_at(t@, p@, i as int),
        r is None ==> !contains(t@, p@),
{
    if p.len() > t.len() {
        proof {
            lemma_no_occurrence(t@, p@);
        }
        return None;
    }
    let last = t.len() - p.len();
    let mut i: usize = 0;
    loop
        invariant
            i <= last,
            last + p@.len() == t@.len(),
            forall|j: int| 0 <= j < i ==> !occurs_at(t@, p@, j),
        ensures
            forall|j: int| 0 <= j <= last ==> !occurs_at(t@, p@, j),
        decreases last - i,
    {
        if matches_at(t, p, i) {
            proof {
                lemma_first_occurrence(t@, p@, i as int);
            }
            return Some(i);
        }
        if i == last {
            break;
        }
        i = i + 1;
    }
    proof {
        assert forall|j: int| !occurs_at(t@, p@, j) by {
            if j > last {
                assert(!occurs_at(t@, p@, j));
            }
        }
        lemma_no_occurrence(t@, p@);
    }
    None
}

/// Index of the rightmost occurrence of `p` in `t`.
pub fn rfind(t: &[char], p: &[char]) -> (r: Option<usize>)
    ensures
        opt_index(r) == find_last(t@, p@),
        r matches Some(i) ==> occurs_at(t@, p@, i as int),
{
    if p.len() > t.len() {
        proof {
            lemma_no_occurrence(t@, p@);
        }
        return None;
    }
    let last = t.len() - p.len();
    let mut i: usize = last;
    loop
        invariant
            i <= last,
            last + p@.len() == t@.len(),
            forall|j: int| i < j ==> !occurs_at(t@, p@, j),
        ensures
            forall|j: int| 0 <= j ==> !occurs_at(t@, p@, j),
        decreases i,
    {
        if matches_at(t, p, i) {
            proof {
                lemma_last_occurrence(t@, p@, i as int);
            }
            return Some(i);
        }
        if i == 0 {
            break;
        }
        i = i - 1;
    }
    proof {
        assert forall|j: int| !occurs_at(t@, p@, j) by {
            if j < 0 {
                assert(!occurs_at(t@, p@, j));
            }
        }
        lemma_no_occurrence(t@, p@);
    }
    None
}

/// `t` contains `p`.
pub fn has(t: &[char], p: &[char]) -> (b: bool)
    ensures
        b == contains(t@, p@),
{
    find(t, p).is_some()
}

/// `t` contains `p`, with `p` given as text.
pub fn has_str(t: &[char], p: &str) -> (b: bool)
    ensures
        b == contains(t@, p@),
{
    let pc = chars_of(p);
    has(t, &pc)
}

/// `t` begins with `p`, with `p` given as text.
pub fn has_prefix_str(t: &[char], p: &str) -> (b: bool)
    ensures
        b == starts_with(t@, p@),
{
    let pc = chars_of(p);
    has_prefix(t, &pc)
}

/// `t` ends with `p`, with `p` given as text.
pub fn has_suffix_str(t: &[char], p: &str) -> (b: bool)
    ensures
        b == ends_with(t@, p@),
{
    let pc = chars_of(p);
    has_suffix(t, &pc)
}

/// `t` equals `p`, with `p` given as text.
pub fn equals_str(t: &[char], p: &str) -> (b: bool)
    ensures
        b == (t@ == p@),
{
    let pc = chars_of(p);
    same(t, &pc)
}

/// Is `c` Unicode white space?
pub fn white(c: char) -> (b: bool)
    ensures
        b == is_white(c),
{
    let u = c as u32;
    (0x9 <= u && u <= 0xd) || u == 0x20 || u == 0x85 || u == 0xa0 || u == 0x1680 || (0x2000 <= u
        && u <= 0x200a) || u == 0x2028 || u == 0x2029 || u == 0x202f || u == 0x205f || u == 0x3000
}

proof fn lemma_trim_start_step(t: Seq<char>, i: int)
    requires
        0 <= i < t.len(),
        is_white(t[i]),
    ensures
        trim_start(t.subrange(i, t.len() as int)) == trim_start(t.subrange(i + 1, t.len() as int)),
{
    let s = t.subrange(i, t.len() as int);
    assert(s.drop_first() =~= t.subrange(i + 1, t.len() as int));
}

proof fn lemma_trim_end_step(t: Seq<char>, i: int)
    requires
        0 < i <= t.len(),
        is_white(t[i - 1]),
    ensures
        trim_end(t.subrange(0, i)) == trim_end(t.subrange(0, i - 1)),
{
    let s = t.subrange(0, i);
    assert(s.drop_last() =~= t.subrange(0, i - 1));
}

/// `t` without leading and trailing white space.
pub fn trimmed(t: &[char]) -> (r: Vec<char>)
    ensures
        r@ == trim(t@),
{
    let n = t.len();
    let mut lo: usize = 0;
    assert(t@.subrange(0, n as int) =~= t@);
    while lo < n && white(t[lo])
        invariant
            lo <= n == t@.len(),
            trim_start(t@) == trim_start(t@.subrange(lo as int, n as int)),
        decreases n - lo,
    {
        proof {
            lemma_trim_start_step(t@, lo as int);
        }
        lo = lo + 1;
    }
    let ghost s = t@.subrange(lo as int, n as int);
    assert(trim_start(t@) == s);
    let mut hi: usize = n;
    assert(s.subrange(0, (hi - lo) as int) =~= s);
    while hi > lo && white(t[hi - 1])
        invariant
            lo <= hi <= n == t@.len(),
            s == t@.subrange(lo as int, n as int),
            trim_end(s) == trim_end(s.subrange(0, (hi - lo) as int)),
        decreases hi - lo,
    {
        proof {
            assert(s[(hi - lo) - 1] == t@[hi - 1]);
            lemma_trim_end_step(s, (hi - lo) as int);
        }
        hi = hi - 1;
    }
    assert(s.subrange(0, (hi - lo) as int) =~= t@.subrange(lo as int, hi as int));
    slice(t, lo, hi)
}

/// `t` without trailing white space.
pub fn trimmed_end(t: &[char]) -> (r: Vec<char>)
    ensures
        r@ == trim_end(t@),
{
    let n = t.len();
    let mut hi: usize = n;
    assert(t@.subrange(0, n as int) =~= t@);
    while hi > 0 && white(t[hi - 1])
        invariant
            hi <= n == t@.len(),
            trim_end(t@) == trim_end(t@.subrange(0, hi as int)),
        decreases hi,
    {
        proof {
            lemma_trim_end_step(t@, hi as int);
        }
        hi = hi - 1;
    }
    slice(t, 0, hi)
}

/// ASCII lower-casing of one character.
pub fn lower(c: char) -> (r: char)
    ensures
        r == lower_char(c),
{
    if 'A' <= c && c <= 'Z' {
        let u = (c as u8) + 32;
        u as char
    } else {
        c
    }
}

/// ASCII upper-casing of one character.
pub fn upper(c: char) -> (r: char)
    ensures
        r == upper_char(c),
{
    if 'a' <= c && c <= 'z' {
        let u = (c as u8) - 32;
        u as char
    } else {
        c
    }
}

/// ASCII lower-casing of a whole sequence.
pub fn lowered(t: &[char]) -> (r: Vec<char>)
    ensures
        r@ == ascii_lower(t@),
{
    let mut r: Vec<char> = Vec::new();
    let mut i: usize = 0;
    while i < t.len()
        invariant
            i <= t@.len(),
            r@ == ascii_lower(t@.subrange(0, i as int)),
        decreases t@.len() - i,
    {
        r.push(lower(t[i]));
        i = i + 1;
        assert(r@ =~= ascii_lower(t@.subrange(0, i as int)));
    }
    assert(t@.subrange(0, t@.len() as int) =~= t@);
    r
}

/// Equal up to ASCII case.
pub fn same_ignoring_case(t: &[char], u: &[char]) -> (b: bool)
    ensures
        b == eq_ignore_case(t@, u@),
{
    let a = lowered(t);
    let c = lowered(u);
    same(&a, &c)
}

pub fn alpha(c: char) -> (b: bool)
    ensures
        b == is_ascii_alpha(c),
{
    ('a' <= c && c <= 'z') || ('A' <= c && c <= 'Z')
}

pub fn alnum(c: char) -> (b: bool)
    ensures
        b == is_ascii_alnum(c),
{
    ('a' <= c && c <= 'z') || ('A' <= c && c <= 'Z') || ('0' <= c && c <= '9')
}

/// Parses an unsigned run of digits, stopping with `None` once the value
/// exceeds `limit`.
fn digits_up_to(d: &[char], limit: u128) -> (r: Option<u128>)
    requires
        limit < 0x1_0000_0000_0000_0000_0000,
    ensures
        r is Some <==> (all_digits(d@) && digits_value(d@) <= limit),
        r matches Some(v) ==> v == digits_value(d@),
{
    let mut v: u128 = 0;
    let mut i: usize = 0;
    while i < d.len()
        invariant
            limit < 0x1_0000_0000_0000_0000_0000,
            i <= d@.len(),
            all_digits(d@.take(i as int)),
            v == digits_value(d@.take(i as int)),
            v <= limit,
        decreases d@.len() - i,
    {
        let c = d[i];
        if !('0' <= c && c <= '9') {
            assert(!all_digits(d@));
            return None;
        }
        assert(d@.take(i + 1).drop_last() =~= d@.take(i as int));
        let dv = (c as u32) - ('0' as u32);
        let nv = v * 10 + (dv as u128);
        assert(nv == digits_value(d@.take(i + 1)));
        assert(all_digits(d@.take(i + 1)));
        if nv > limit {
            proof {
                if all_digits(d@) {
                    lemma_digits_value_prefix(d@, i + 1);
                }
            }
            return None;
        }
        v = nv;
        i = i + 1;
    }
    assert(d@.take(d@.len() as int) =~= d@);
    Some(v)
}

/// `str::parse::<u32>` on a sequence of characters.
pub fn parse_u32(s: &[char]) -> (r: Option<u32>)
    ensures
        r == parse_u32_spec(s@),
{
    let d = if s.len() > 0 && s[0] == '+' {
        slice(s, 1, s.len())
    } else {
        slice(s, 0, s.len())
    };
    assert(s@.subrange(0, s@.len() as int) =~= s@);
    assert(s@.len() > 0 ==> s@.subrange(1, s@.len() as int) =~= s@.drop_first());
    if d.len() == 0 {
        return None;
    }
    match digits_up_to(&d, 0xffff_ffff) {
        Some(v) => Some(v as u32),
        None => None,
    }
}

/// `str::parse::<i64>` on a sequence of characters.
pub fn parse_i64(s: &[char]) -> (r: Option<i64>)
    ensures
        r == parse_i64_spec(s@),
{
    assert(s@.subrange(0, s@.len() as int) =~= s@);
    assert(s@.len() > 0 ==> s@.subrange(1, s@.len() as int) =~= s@.drop_first());
    if s.len() > 0 && s[0] == '-' {
        let d = slice(s, 1, s.len());
        if d.len() == 0 {
            return None;
        }
        match digits_up_to(&d, 0x8000_0000_0000_0000) {
            Some(v) => {
                if v == 0x8000_0000_0000_0000 {
                    Some(i64::MIN)
                } else {
                    let w = v as i64;
                    Some(-w)
                }
            },
            None => None,
        }
    } else {
        let d = if s.len() > 0 && s[0] == '+' {
            slice(s, 1, s.len())
        } else {
            slice(s, 0, s.len())
        };
        if d.len() == 0 {
            return None;
        }
        match digits_up_to(&d, 0x7fff_ffff_ffff_ffff) {
            Some(v) => Some(v as i64),
            None => None,
        }
    }
}

/// `t` with every `c` removed.
pub fn without_char(t: &[char], c: char) -> (r: Vec<char>)
    ensures
        r@ == remove_char(t@, c),
{
    let mut r: Vec<char> = Vec::new();
    let mut i: usize = 0;
    while i < t.len()
        invariant
            i <= t@.len(),
            r@ == remove_char(t@.subrange(0, i as int), c),
        decreases t@.len() - i,
    {
        proof {
            let s = t@.subrange(0, i + 1);
            assert(s.drop_last() =~= t@.subrange(0, i as int));
        }
        if t[i] != c {
            r.push(t[i]);
        }
        i = i + 1;
    }
    assert(t@.subrange(0, t@.len() as int) =~= t@);
    r
}

// ───────────────────────────── decimal text ─────────────────────────────

/// The ASCII digit for `d` (0..=15 gives `0-9a-f`).
pub open spec fn digit_char(d: nat) -> char {
    if d < 10 {
        ((48 + d) as u32) as char
    } else {
        ((87 + d) as u32) as char
    }
}

/// Decimal digits of `n`, most significant first, without leading zeros.
pub open spec fn decimal(n: nat) -> Seq<char>
    decreases n,
{
    if n < 10 {
        seq![digit_char(n)]
    } else {
        decimal(n / 10).push(digit_char(n % 10))
    }
}

/// `n` in decimal, left-padded with `0` to at least `width` characters.
pub open spec fn zero_padded(n: nat, width: nat) -> Seq<char> {
    let d = decimal(n);
    if d.len() >= width {
        d
    } else {
        Seq::new((width - d.len()) as nat, |i: int| '0') + d
    }
}

/// The digit character for `d < 16`.
pub fn digit(d: u64) -> (c: char)
    requires
        d < 16,
    ensures
        c == digit_char(d as nat),
{
    if d < 10 {
        let u = (d as u8) + 48;
        u as char
    } else {
        let u = (d as u8) + 87;
        u as char
    }
}

/// Decimal digits of `n`.
pub fn decimal_chars(n: u64) -> (v: Vec<char>)
    ensures
        v@ == decimal(n as nat),
    decreases n,
{
    if n < 10 {
        let mut v: Vec<char> = Vec::new();
        v.push(digit(n));
        v
    } else {
        let mut v = decimal_chars(n / 10);
        v.push(digit(n % 10));
        v
    }
}

/// Appends `s` to `v`.
pub fn push_all(v: &mut Vec<char>, s: &[char])
    ensures
        final(v)@ == old(v)@ + s@,
{
    let mut i: usize = 0;
    while i < s.len()
        invariant
            i <= s@.len(),
            v@ == old(v)@ + s@.subrange(0, i as int),
        decreases s@.len() - i,
    {
        v.push(s[i]);
        i = i + 1;
        assert(v@ =~= old(v)@ + s@.subrange(0, i as int));
    }
    assert(s@.subrange(0, s@.len() as int) =~= s@);
}

/// `n` in decimal, with a leading `-` when negative.
pub open spec fn signed_decimal(n: int) -> Seq<char> {
    if n < 0 {
        seq!['-'] + decimal((-n) as nat)
    } else {
        decimal(n as nat)
    }
}

pub fn signed_decimal_chars(n: i64) -> (v: Vec<char>)
    ensures
        v@ == signed_decimal(n as int),
{
    if n < 0 {
        let m: u64 = (-(n as i128)) as u64;
        let mut v: Vec<char> = Vec::new();
        v.push('-');
        let d = decimal_chars(m);
        push_all(&mut v, &d);
        v
    } else {
        decimal_chars(n as u64)
    }
}

/// Concatenation of three texts.
pub fn join3(a: &str, b: &str, c: &str) -> (r: String)
    ensures
        r@ == a@ + b@ + c@,
{
    let mut v = chars_of(a);
    let bc = chars_of(b);
    push_all(&mut v, &bc);
    let cc = chars_of(c);
    push_all(&mut v, &cc);
    string_of(&v)
}

/// `n` in decimal, zero-padded to `width` characters.
pub fn padded_decimal(n: u64, width: usize) -> (v: Vec<char>)
    ensures
        v@ == zero_padded(n as nat, width as nat),
{
    let d = decimal_chars(n);
    if d.len() >= width {
        return d;
    }
    let mut v: Vec<char> = Vec::new();
    let k = width - d.len();
    let mut i: usize = 0;
    while i < k
        invariant
            i <= k,
            v@ == Seq::new(i as nat, |j: int| '0'),
        decreases k - i,
    {
        v.push('0');
        i = i + 1;
        assert(v@ =~= Seq::new(i as nat, |j: int| '0'));
    }
    push_all(&mut v, &d);
    v
}

// ───────────────────────────── splitting ─────────────────────────────

/// The characters of an optional vector.
pub open spec fn opt_chars(o: Option<Vec<char>>) -> Option<Seq<char>> {
    match o {
        Some(v) => Some(v@),
        None => None,
    }
}

/// The part of `t` before the first occurrence of `p` (all of `t` without one).
pub fn before_first_of(t: &[char], p: &[char]) -> (r: Vec<char>)
    ensures
        r@ == before_first(t@, p@),
{
    match find(t, p) {
        Some(i) => slice(t, 0, i),
        None => {
            assert(t@.subrange(0, t@.len() as int) =~= t@);
            slice(t, 0, t.len())
        },
    }
}

/// The second piece of `t` split on `p`.
pub fn second_piece_of(t: &[char], p: &[char]) -> (r: Option<Vec<char>>)
    ensures
        opt_chars(r) == second_piece(t@, p@),
{
    let n = t.len();
    match find(t, p) {
        Some(i) => {
            assert(i + p@.len() <= n);
            let rest = slice(t, i + p.len(), n);
            Some(before_first_of(&rest, p))
        },
        None => None,
    }
}

/// The second piece of `t` split on `p`, with `p` given as text.
pub fn second_piece_str(t: &[char], p: &str) -> (r: Option<Vec<char>>)
    ensures
        opt_chars(r) == second_piece(t@, p@),
{
    let pc = chars_of(p);
    second_piece_of(t, &pc)
}

/// The part of `t` after the first occurrence of `p`, if `p` occurs.
pub fn after_first_of(t: &[char], p: &[char]) -> (r: Option<Vec<char>>)
    ensures
        opt_chars(r) == after_first(t@, p@),
{
    match find(t, p) {
        Some(i) => {
            assert(occurs_at(t@, p@, i as int));
            assert(i + p@.len() <= t@.len());
            let n = t.len();
            let j = i + p.len();
            Some(slice(t, j, n))
        },
        None => None,
    }
}

/// [`after_first_of`] with `p` given as text.
pub fn after_first_str(t: &[char], p: &str) -> (r: Option<Vec<char>>)
    ensures
        opt_chars(r) == after_first(t@, p@),
{
    let pc = chars_of(p);
    after_first_of(t, &pc)
}

/// The part of `t` before the first occurrence of `p`, with `p` given as text.
pub fn before_first_str(t: &[char], p: &str) -> (r: Vec<char>)
    ensures
        r@ == before_first(t@, p@),
{
    let pc = chars_of(p);
    before_first_of(t, &pc)
}

/// `t` with every occurrence of `p` removed (`str::replace(p, "")`).
pub fn removed_all(t: &[char], p: &[char]) -> (r: Vec<char>)
    ensures
        r@ == remove_all(t@, p@),
{
    if p.len() == 0 {
        assert(t@.subrange(0, t@.len() as int) =~= t@);
        return slice(t, 0, t.len());
    }
    let mut out: Vec<char> = Vec::new();
    let mut rest: Vec<char> = slice(t, 0, t.len());
    assert(rest@ =~= t@);
    loop
        invariant
            p@.len() > 0,
            out@ + remove_all(rest@, p@) == remove_all(t@, p@),
        decreases rest@.len(),
    {
        let n = rest.len();
        match find(&rest, p) {
            Some(i) => {
                assert(i + p@.len() <= n);
                let head = slice(&rest, 0, i);
                let tail = slice(&rest, i + p.len(), n);
                proof {
                    assert(remove_all(rest@, p@) == head@ + remove_all(tail@, p@));
                    assert(out@ + head@ + remove_all(tail@, p@) == out@ + (head@ + remove_all(
                        tail@,
                        p@,
                    )));
                }
                push_all(&mut out, &head);
                rest = tail;
            },
            None => {
                push_all(&mut out, &rest);
                return out;
            },
        }
    }
}

/// A comma-grouped integer surrounded by optional white space, as read by
/// `replace(',', "").trim().parse::<i64>()`.
pub open spec fn loose_number(n: Seq<char>) -> Option<i64> {
    parse_i64_spec(trim(remove_char(n, ',')))
}

/// See [`loose_number`].
pub fn parse_loose_number(n: &[char]) -> (r: Option<i64>)
    ensures
        r == loose_number(n@),
{
    let d = without_char(n, ',');
    let t = trimmed(&d);
    parse_i64(&t)
}

// ───────────────────────────── Unicode case ─────────────────────────────

/// What `str::to_lowercase` of std returns: Unicode lower case of every
/// character.
pub uninterp spec fn unicode_lowercase(s: Seq<char>) -> Seq<char>;

/// `str::to_lowercase` of std. Its result is named [`unicode_lowercase`]; the
/// Unicode case tables behind it are not stated here.
#[verifier::external_body]
pub(crate) fn to_lowercase(s: &str) -> (r: String)
    ensures
        r@ == unicode_lowercase(s@),
{
    s.to_lowercase()
}

/// What `str::to_uppercase` of std returns: Unicode upper case of every
/// character.
pub uninterp spec fn unicode_uppercase(s: Seq<char>) -> Seq<char>;

/// `str::to_uppercase` of std. Its result is named [`unicode_uppercase`];
/// the Unicode case tables behind it are not stated here.
#[verifier::external_body]
pub(crate) fn to_uppercase(s: &str) -> (r: String)
    ensures
        r@ == unicode_uppercase(s@),
{
    s.to_uppercase()
}

// ───────────────────────────── ordering ─────────────────────────────

/// Lexicographic order by code point, the order of `String`'s `Ord` (UTF-8
/// byte order agrees with code point order).
pub open spec fn lex_lt(a: Seq<char>, b: Seq<char>) -> bool
    decreases a.len(),
{
    if a.len() == 0 {
        b.len() > 0
    } else if b.len() == 0 {
        false
    } else if a[0] != b[0] {
        a[0] < b[0]
    } else {
        lex_lt(a.drop_first(), b.drop_first())
    }
}

/// `lex_lt` is a strict total order.
pub proof fn lemma_lex_total(a: Seq<char>, b: Seq<char>)
    ensures
        !lex_lt(a, a),
        a != b ==> lex_lt(a, b) || lex_lt(b, a),
        !(lex_lt(a, b) && lex_lt(b, a)),
    decreases a.len(),
{
    if a.len() > 0 {
        lemma_lex_total(a.drop_first(), a.drop_first());
    }
    if a.len() > 0 && b.len() > 0 && a[0] == b[0] {
        lemma_lex_total(a.drop_first(), b.drop_first());
        if a != b {
            assert(a.drop_first() != b.drop_first()) by {
                if a.drop_first() == b.drop_first() {
                    assert(a =~= seq![a[0]] + a.drop_first());
                    assert(b =~= seq![b[0]] + b.drop_first());
                }
            }
        }
    }
    if a.len() == 0 && b.len() == 0 {
        assert(a =~= b);
    }
}

/// `lex_lt` is transitive.
pub proof fn lemma_lex_trans(a: Seq<char>, b: Seq<char>, c: Seq<char>)
    requires
        lex_lt(a, b),
        lex_lt(b, c),
    ensures
        lex_lt(a, c),
    decreases a.len(),
{
    if a.len() > 0 && b.len() > 0 && c.len() > 0 && a[0] == b[0] && b[0] == c[0] {
        lemma_lex_trans(a.drop_first(), b.drop_first(), c.drop_first());
    }
}

/// `a` comes before `b` in `String` order.
pub fn less_than(a: &[char], b: &[char]) -> (r: bool)
    ensures
        r == lex_lt(a@, b@),
{
    let mut i: usize = 0;
    assert(a@.skip(0) =~= a@);
    assert(b@.skip(0) =~= b@);
    while i < a.len() && i < b.len()
        invariant
            i <= a@.len(),
            i <= b@.len(),
            lex_lt(a@, b@) == lex_lt(a@.skip(i as int), b@.skip(i as int)),
        decreases a@.len() - i,
    {
        if a[i] != b[i] {
            return a[i] < b[i];
        }
        proof {
            assert(a@.skip(i as int).drop_first() =~= a@.skip(i + 1));
            assert(b@.skip(i as int).drop_first() =~= b@.skip(i + 1));
        }
        i = i + 1;
    }
    i < b.len()
}

/// `v` is strictly increasing in `String` order.
pub open spec fn strictly_sorted(v: Seq<Seq<char>>) -> bool {
    forall|i: int, j: int| 0 <= i < j < v.len() ==> lex_lt(#[trigger] v[i], #[trigger] v[j])
}

/// The text of each string.
pub open spec fn texts(v: Seq<String>) -> Seq<Seq<char>> {
    v.map_values(|s: String| s@)
}

/// Inserts `x` into the strictly sorted `v`, unless it is there already.
pub fn insert_sorted(v: &mut Vec<String>, x: String)
    requires
        strictly_sorted(texts(old(v)@)),
    ensures
        strictly_sorted(texts(final(v)@)),
        forall|y: Seq<char>| texts(final(v)@).contains(y) <==> (texts(old(v)@).contains(y) || y == x@),
{
    let xc = chars_of(x.as_str());
    let mut k: usize = 0;
    while k < v.len()
        invariant
            k <= v@.len(),
            xc@ == x@,
            forall|j: int| 0 <= j < k ==> lex_lt(texts(v@)[j], x@),
        ensures
            k <= v@.len(),
            forall|j: int| 0 <= j < k ==> lex_lt(texts(v@)[j], x@),
            k < v@.len() ==> !lex_lt(texts(v@)[k as int], x@),
        decreases v@.len() - k,
    {
        let vc = chars_of(v[k].as_str());
        if !less_than(&vc, &xc) {
            break;
        }
        k = k + 1;
    }
    let ghost t0 = texts(v@);
    if k < v.len() {
        let vc = chars_of(v[k].as_str());
        if crate::text::same(&vc, &xc) {
            assert forall|y: Seq<char>| t0.contains(y) <==> (t0.contains(y) || y == x@) by {
                if y == x@ {
                    assert(t0[k as int] == y);
                }
            }
            return;
        }
        proof {
            lemma_lex_total(t0[k as int], x@);
            assert(lex_lt(x@, t0[k as int]));
        }
    }
    v.insert(k, x);
    proof {
        let t1 = texts(v@);
        assert(k < t0.len() ==> lex_lt(x@, t0[k as int]));
        assert(t1 =~= t0.insert(k as int, x@));
        assert forall|i: int, j: int| 0 <= i < j < t1.len() implies lex_lt(
            #[trigger] t1[i],
            #[trigger] t1[j],
        ) by {
            if j < k {
            } else if j == k {
            } else if i < k {
                assert(t1[j] == t0[j - 1]);
                lemma_lex_trans(t1[i], x@, t0[k as int]);
                if j - 1 > k {
                    lemma_lex_trans(t1[i], t0[k as int], t0[j - 1]);
                }
            } else if i == k {
                if j - 1 > k {
                    lemma_lex_trans(x@, t0[k as int], t0[j - 1]);
                }
            } else {
                assert(t1[i] == t0[i - 1]);
                assert(t1[j] == t0[j - 1]);
            }
        }
        assert forall|y: Seq<char>| t1.contains(y) <==> (t0.contains(y) || y == x@) by {
            if t1.contains(y) {
                let q = choose|q: int| 0 <= q < t1.len() && t1[q] == y;
                if q < k {
                    assert(t0[q] == y);
                } else if q > k {
                    assert(t0[q - 1] == y);
                }
            }
            if t0.contains(y) {
                let q = choose|q: int| 0 <= q < t0.len() && t0[q] == y;
                if q < k {
                    assert(t1[q] == y);
                } else {
                    assert(t1[q + 1] == y);
                }
            }
            if y == x@ {
                assert(t1[k as int] == y);
            }
        }
    }
}

} // verus!
