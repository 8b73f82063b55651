//! Stable sorting of records by composite integer keys.
//!
//! Every ordering the library presents (most recent first, most kills first
//! then by name, and so on) is a lexicographic order on a few fields. Each
//! record is given a key, a sequence of integers compared lexicographically,
//! and [`sort_by_keys`] arranges the records by it, keeping records with
//! equal keys in their original order.
use vstd::prelude::*;

use crate::text::lex_lt;

verus! {

/// Lexicographic order on keys; a proper prefix comes first.
pub open spec fn key_lt(a: Seq<i128>, b: Seq<i128>) -> bool
    decreases a.len(),
{
    if a.len() == 0 {
        b.len() > 0
    } else if b.len() == 0 {
        false
    } else if a[0] != b[0] {
        a[0] < b[0]
    } else {
        key_lt(a.drop_first(), b.drop_first())
    }
}

/// `key_lt` is a strict total order.
pub proof fn lemma_key_total(a: Seq<i128>, b: Seq<i128>)
    ensures
        !key_lt(a, a),
        a != b ==> key_lt(a, b) || key_lt(b, a),
        !(key_lt(a, b) && key_lt(b, a)),
    decreases a.len(),
{
    if a.len() > 0 {
        lemma_key_total(a.drop_first(), a.drop_first());
    }
    if a.len() > 0 && b.len() > 0 && a[0] == b[0] {
        lemma_key_total(a.drop_first(), b.drop_first());
        if a != b {
            assert(a.drop_first() != b.drop_first()) by {
                if a.drop_first() == b.drop_first() {
                    assert(a =~= seq![a[0]] + a.drop_first());
                    assert(b =~= seq![b[0]] + b.drop_first());
                }
            }
        }
    }
    if a.len() == 0 && b.len() == 0 {
        assert(a =~= b);
    }
}

/// `key_lt` is transitive.
pub proof fn lemma_key_trans(a: Seq<i128>, b: Seq<i128>, c: Seq<i128>)
    requires
        key_lt(a, b),
        key_lt(b, c),
    ensures
        key_lt(a, c),
    decreases a.len(),
{
    if a.len() > 0 && b.len() > 0 && c.len() > 0 && a[0] == b[0] && b[0] == c[0] {
        lemma_key_trans(a.drop_first(), b.drop_first(), c.drop_first());
    }
}

/// "Not before" is transitive: `a <= b <= c` gives `a <= c`.
proof fn lemma_key_le_trans(a: Seq<i128>, b: Seq<i128>, c: Seq<i128>)
    requires
        !key_lt(b, a),
        !key_lt(c, b),
    ensures
        !key_lt(c, a),
{
    lemma_key_total(a, b);
    lemma_key_total(b, c);
    lemma_key_total(a, c);
    if key_lt(c, a) {
        if a == b {
            assert(key_lt(c, b));
        } else if b == c {
            assert(key_lt(b, a));
        } else {
            lemma_key_trans(a, b, c);
        }
    }
}

/// `a` comes before `b` in key order.
pub fn key_less(a: &[i128], b: &[i128]) -> (r: bool)
    ensures
        r == key_lt(a@, b@),
{
    let mut i: usize = 0;
    assert(a@.skip(0) =~= a@);
    assert(b@.skip(0) =~= b@);
    while i < a.len() && i < b.len()
        invariant
            i <= a@.len(),
            i <= b@.len(),
            key_lt(a@, b@) == key_lt(a@.skip(i as int), b@.skip(i as int)),
        decreases a@.len() - i,
    {
        if a[i] != b[i] {
            return a[i] < b[i];
        }
        proof {
            assert(a@.skip(i as int).drop_first() =~= a@.skip(i + 1));
            assert(b@.skip(i as int).drop_first() =~= b@.skip(i + 1));
        }
        i = i + 1;
    }
    i < b.len()
}

/// `p` lists each index below `n` exactly once.
pub open spec fn is_permutation(p: Seq<int>, n: int) -> bool {
    &&& p.len() == n
    &&& forall|i: int| 0 <= i < p.len() ==> 0 <= #[trigger] p[i] < n
    &&& forall|i: int, j: int| 0 <= i < j < p.len() ==> #[trigger] p[i] != #[trigger] p[j]
}

/// Taking the records at the positions `p` in turn lists them by key, those
/// with equal keys in their original relative order.
pub open spec fn stable_order(keys: Seq<Seq<i128>>, p: Seq<int>) -> bool {
    &&& is_permutation(p, keys.len() as int)
    &&& forall|i: int, j: int|
        0 <= i < j < p.len() ==> !key_lt(keys[#[trigger] p[j]], keys[#[trigger] p[i]])
    &&& forall|i: int, j: int|
        0 <= i < j < p.len() && keys[#[trigger] p[i]] == keys[#[trigger] p[j]] ==> p[i] < p[j]
}

/// `out` is `items` taken at the positions `p` in turn.
pub open spec fn arranged<T>(out: Seq<T>, items: Seq<T>, p: Seq<int>) -> bool {
    &&& out.len() == p.len()
    &&& forall|i: int| 0 <= i < p.len() ==> out[i] == items[#[trigger] p[i]]
}

/// `out` is `items` stably sorted by `keys`.
pub open spec fn stably_sorted<T>(out: Seq<T>, items: Seq<T>, keys: Seq<Seq<i128>>) -> bool {
    exists|p: Seq<int>| stable_order(keys, p) && arranged(out, items, p)
}

/// The content of each key.
pub open spec fn key_views(keys: Seq<Vec<i128>>) -> Seq<Seq<i128>> {
    keys.map_values(|k: Vec<i128>| k@)
}

/// `items` stably sorted by `keys` (`keys[i]` is the key of `items[i]`).
pub fn sort_by_keys<T>(items: Vec<T>, keys: Vec<Vec<i128>>) -> (out: Vec<T>)
    requires
        items@.len() == keys@.len(),
    ensures
        stably_sorted(out@, items@, key_views(keys@)),
{
    let ghost items0 = items@;
    let ghost keys0 = key_views(keys@);
    let ghost n = items@.len() as int;
    let mut items = items;
    let mut keys = keys;
    let mut out: Vec<T> = Vec::new();
    let mut out_keys: Vec<Vec<i128>> = Vec::new();
    let ghost mut p: Seq<int> = Seq::empty();
    while items.len() > 0
        invariant
            items@.len() == keys@.len(),
            0 <= items@.len() <= n,
            n == items0.len(),
            n == keys0.len(),
            items@ == items0.take(items@.len() as int),
            key_views(keys@) == keys0.take(items@.len() as int),
            out@.len() == p.len(),
            out_keys@.len() == p.len(),
            p.len() == n - items@.len(),
            forall|i: int| 0 <= i < p.len() ==> items@.len() <= #[trigger] p[i] < n,
            forall|i: int, j: int| 0 <= i < j < p.len() ==> #[trigger] p[i] != #[trigger] p[j],
            forall|i: int| 0 <= i < p.len() ==> out@[i] == items0[#[trigger] p[i]],
            forall|i: int| 0 <= i < p.len() ==> out_keys@[i]@ == keys0[#[trigger] p[i]],
            forall|i: int, j: int|
                0 <= i < j < p.len() ==> !key_lt(keys0[#[trigger] p[j]], keys0[#[trigger] p[i]]),
            forall|i: int, j: int|
                0 <= i < j < p.len() && keys0[#[trigger] p[i]] == keys0[#[trigger] p[j]] ==> p[i]
                    < p[j],
        decreases items@.len(),
    {
        let ghost k = items@.len() - 1;
        let ghost kv = key_views(keys@);
        let x = items.pop().unwrap();
        let xk = keys.pop().unwrap();
        proof {
            assert(x == items0[k]);
            assert(kv[k] == keys0[k]);
            assert(xk@ == keys0[k]);
            assert(items@ =~= items0.take(k));
            assert(key_views(keys@) =~= keys0.take(k));
        }
        let mut pos: usize = 0;
        loop
            invariant
                pos <= out_keys@.len(),
                out_keys@.len() == p.len(),
                forall|i: int| 0 <= i < p.len() ==> out_keys@[i]@ == keys0[#[trigger] p[i]],
                forall|i: int| 0 <= i < pos ==> key_lt(#[trigger] keys0[p[i]], xk@),
            ensures
                pos <= out_keys@.len(),
                forall|i: int| 0 <= i < pos ==> key_lt(#[trigger] keys0[p[i]], xk@),
                pos < out_keys@.len() ==> !key_lt(keys0[p[pos as int]], xk@),
            decreases out_keys@.len() - pos,
        {
            if pos >= out_keys.len() {
                break;
            }
            if !key_less(&out_keys[pos], &xk) {
                break;
            }
            pos = pos + 1;
        }
        let ghost old_p = p;
        out.insert(pos, x);
        out_keys.insert(pos, xk);
        proof {
            p = old_p.insert(pos as int, k);
            let kx = keys0[k];
            assert forall|i: int| 0 <= i < p.len() implies items@.len() <= #[trigger] p[i] < n by {
                if i > pos {
                    assert(p[i] == old_p[i - 1]);
                }
            }
            assert forall|i: int, j: int| 0 <= i < j < p.len() implies #[trigger] p[i]
                != #[trigger] p[j] by {
                if i < pos && j > pos {
                    assert(p[j] == old_p[j - 1]);
                } else if i > pos {
                    assert(p[i] == old_p[i - 1]);
                    assert(p[j] == old_p[j - 1]);
                } else if j > pos {
                    assert(p[j] == old_p[j - 1]);
                }
            }
            assert forall|i: int| 0 <= i < p.len() implies out@[i] == items0[#[trigger] p[i]] by {
                if i > pos {
                    assert(p[i] == old_p[i - 1]);
                }
            }
            assert forall|i: int| 0 <= i < p.len() implies out_keys@[i]@ == keys0[#[trigger] p[i]] by {
                if i > pos {
                    assert(p[i] == old_p[i - 1]);
                }
            }
            assert forall|i: int, j: int| 0 <= i < j < p.len() implies !key_lt(
                keys0[#[trigger] p[j]],
                keys0[#[trigger] p[i]],
            ) by {
                if j < pos {
                } else if j == pos {
                    lemma_key_total(keys0[old_p[i]], kx);
                } else if i < pos {
                    assert(p[j] == old_p[j - 1]);
                    lemma_key_total(keys0[old_p[i]], kx);
                    if j - 1 > pos {
                        lemma_key_le_trans(kx, keys0[old_p[pos as int]], keys0[old_p[j - 1]]);
                    }
                    lemma_key_le_trans(keys0[old_p[i]], kx, keys0[old_p[j - 1]]);
                } else if i == pos {
                    assert(p[j] == old_p[j - 1]);
                    if j - 1 > pos {
                        lemma_key_le_trans(kx, keys0[old_p[pos as int]], keys0[old_p[j - 1]]);
                    }
                } else {
                    assert(p[i] == old_p[i - 1]);
                    assert(p[j] == old_p[j - 1]);
                }
            }
            assert forall|i: int, j: int|
                0 <= i < j < p.len() && keys0[#[trigger] p[i]] == keys0[#[trigger] p[j]] implies p[i]
                < p[j] by {
                if j < pos {
                } else if j == pos {
                    lemma_key_total(kx, kx);
                } else if i < pos {
                    assert(p[j] == old_p[j - 1]);
                } else if i == pos {
                    assert(p[j] == old_p[j - 1]);
                } else {
                    assert(p[i] == old_p[i - 1]);
                    assert(p[j] == old_p[j - 1]);
                }
            }
        }
    }
    proof {
        assert(stable_order(keys0, p));
        assert(arranged(out@, items0, p));
    }
    out
}


// ───────────────────────────── text in keys ─────────────────────────────

/// A text as a key part ordered like the text itself: its code points, then
/// a terminator below every code point.
pub open spec fn text_key_asc(s: Seq<char>) -> Seq<i128> {
    s.map_values(|c: char| (c as u32) as i128).push(-1i128)
}

/// A text as a key part ordered against the text: its negated code points,
/// then a terminator above every negated code point.
pub open spec fn text_key_desc(s: Seq<char>) -> Seq<i128> {
    s.map_values(|c: char| (-((c as u32) as int)) as i128).push(1i128)
}

/// Text key parts order texts as `String` does (ascending) or reversed
/// (descending), whatever follows them in the key.
pub proof fn lemma_text_keys(a: Seq<char>, b: Seq<char>, ra: Seq<i128>, rb: Seq<i128>)
    ensures
        key_lt(text_key_asc(a) + ra, text_key_asc(b) + rb) == (lex_lt(a, b) || (a == b && key_lt(ra, rb))),
        key_lt(text_key_desc(a) + ra, text_key_desc(b) + rb) == (lex_lt(b, a) || (a == b && key_lt(ra, rb))),
    decreases a.len(),
{
    let ka = text_key_asc(a) + ra;
    let kb = text_key_asc(b) + rb;
    let da = text_key_desc(a) + ra;
    let db = text_key_desc(b) + rb;
    if a.len() > 0 && b.len() > 0 {
        vstd::utf8::char_u32_cast(a[0], a[0] as u32);
        vstd::utf8::char_u32_cast(b[0], b[0] as u32);
        assert(ka[0] == (a[0] as u32) as i128);
        assert(kb[0] == (b[0] as u32) as i128);
        assert(da[0] == (-((a[0] as u32) as int)) as i128);
        assert(db[0] == (-((b[0] as u32) as int)) as i128);
        assert(ka.drop_first() =~= text_key_asc(a.drop_first()) + ra);
        assert(kb.drop_first() =~= text_key_asc(b.drop_first()) + rb);
        assert(da.drop_first() =~= text_key_desc(a.drop_first()) + ra);
        assert(db.drop_first() =~= text_key_desc(b.drop_first()) + rb);
        lemma_text_keys(a.drop_first(), b.drop_first(), ra, rb);
        if a[0] == b[0] {
            if a.drop_first() == b.drop_first() {
                assert(a =~= seq![a[0]] + a.drop_first());
                assert(b =~= seq![b[0]] + b.drop_first());
            }
            if a == b {
                assert(a.drop_first() == b.drop_first());
            }
        }
    } else if a.len() == 0 && b.len() == 0 {
        assert(ka.drop_first() =~= ra);
        assert(kb.drop_first() =~= rb);
        assert(da.drop_first() =~= ra);
        assert(db.drop_first() =~= rb);
        assert(a =~= b);
    } else if a.len() == 0 {
        assert(ka[0] == -1);
        assert(da[0] == 1);
        assert(kb[0] == (b[0] as u32) as i128);
        assert(db[0] == (-((b[0] as u32) as int)) as i128);
    } else {
        assert(kb[0] == -1);
        assert(db[0] == 1);
        assert(ka[0] == (a[0] as u32) as i128);
        assert(da[0] == (-((a[0] as u32) as int)) as i128);
    }
}

/// Appends the key part of `s`, ascending or descending.
pub fn push_text_key(k: &mut Vec<i128>, s: &str, descending: bool)
    ensures
        final(k)@ == old(k)@ + if descending {
            text_key_desc(s@)
        } else {
            text_key_asc(s@)
        },
{
    let ghost k0 = k@;
    for c in it: s.chars()
        invariant
            it.seq() == s@,
            k@ == k0 + if descending {
                s@.take(it.index() as int).map_values(|c: char| (-((c as u32) as int)) as i128)
            } else {
                s@.take(it.index() as int).map_values(|c: char| (c as u32) as i128)
            },
    {
        let ghost idx = it.index() as int;
        if descending {
            k.push(-(c as u32 as i128));
        } else {
            k.push(c as u32 as i128);
        }
        proof {
            assert(s@.take(idx + 1) =~= s@.take(idx).push(c));
            if descending {
                assert(s@.take(idx + 1).map_values(|c: char| (-((c as u32) as int)) as i128) =~= s@.take(
                    idx,
                ).map_values(|c: char| (-((c as u32) as int)) as i128).push((-((c as u32) as int)) as i128));
            } else {
                assert(s@.take(idx + 1).map_values(|c: char| (c as u32) as i128) =~= s@.take(
                    idx,
                ).map_values(|c: char| (c as u32) as i128).push((c as u32) as i128));
            }
        }
    }
    assert(s@.take(s@.len() as int) =~= s@);
    if descending {
        k.push(1);
        assert(k@ =~= k0 + text_key_desc(s@));
    } else {
        k.push(-1);
        assert(k@ =~= k0 + text_key_asc(s@));
    }
}

} // verus!
