//! Aggregates over the recorded arena matches: each fighter's record, the
//! directed head-to-head matrix, and the most recent results.
use vstd::prelude::*;

use crate::sort::{key_views, push_text_key, sort_by_keys, stably_sorted, text_key_desc};

verus! {

/// One directed head-to-head cell: `fighter` against `opponent`.
pub struct ArenaHeadToHead {
    pub fighter: String,
    pub opponent: String,
    pub wins: u32,
    pub losses: u32,
}

/// A recently observed resolved match.
pub struct ArenaRecentMatch {
    pub fought_at: String,
    pub fighter_a: String,
    pub fighter_b: String,
    pub winner: String,
}

/// A fighter's overall record.
pub struct FighterRecord {
    pub name: String,
    pub wins: u32,
    pub losses: u32,
}

/// How many recent results are listed.
pub const RECENT_LIMIT: usize = 15;

/// (fighter a, fighter b, winner)
pub type MatchView = (Seq<char>, Seq<char>, Seq<char>);

pub open spec fn match_view(m: ArenaRecentMatch) -> MatchView {
    (m.fighter_a@, m.fighter_b@, m.winner@)
}

pub open spec fn match_views(ms: Seq<ArenaRecentMatch>) -> Seq<MatchView> {
    ms.map_values(|m: ArenaRecentMatch| match_view(m))
}

/// The loser of a match: the fighter other than the one named winner (the
/// first fighter when the winner is neither).
pub open spec fn loser_of(m: MatchView) -> Seq<char> {
    if m.2 == m.0 {
        m.1
    } else {
        m.0
    }
}

/// How many of the matches `f` won against `o`.
pub open spec fn beat_count(ms: Seq<MatchView>, f: Seq<char>, o: Seq<char>) -> nat
    decreases ms.len(),
{
    if ms.len() == 0 {
        0
    } else {
        beat_count(ms.drop_last(), f, o) + if ms.last().2 == f && loser_of(ms.last()) == o {
            1nat
        } else {
            0nat
        }
    }
}

/// How many of the matches `f` won.
pub open spec fn win_count(ms: Seq<MatchView>, f: Seq<char>) -> nat
    decreases ms.len(),
{
    if ms.len() == 0 {
        0
    } else {
        win_count(ms.drop_last(), f) + if ms.last().2 == f {
            1nat
        } else {
            0nat
        }
    }
}

/// How many of the matches `f` lost.
pub open spec fn loss_count(ms: Seq<MatchView>, f: Seq<char>) -> nat
    decreases ms.len(),
{
    if ms.len() == 0 {
        0
    } else {
        loss_count(ms.drop_last(), f) + if loser_of(ms.last()) == f {
            1nat
        } else {
            0nat
        }
    }
}

/// `f` fought `o` in some match, winning or losing.
pub open spec fn met(ms: Seq<MatchView>, f: Seq<char>, o: Seq<char>) -> bool {
    exists|k: int|
        0 <= k < ms.len() && ((#[trigger] ms[k]).2 == f && loser_of(ms[k]) == o || ms[k].2 == o
            && loser_of(ms[k]) == f)
}

/// `f` fought in some match.
pub open spec fn fought(ms: Seq<MatchView>, f: Seq<char>) -> bool {
    exists|k: int| 0 <= k < ms.len() && ((#[trigger] ms[k]).2 == f || loser_of(ms[k]) == f)
}

/// (fighter, opponent, wins, losses)
pub type CellView = (Seq<char>, Seq<char>, int, int);

pub open spec fn cell_views(cs: Seq<ArenaHeadToHead>) -> Seq<CellView> {
    cs.map_values(|c: ArenaHeadToHead| (c.fighter@, c.opponent@, c.wins as int, c.losses as int))
}

/// One cell per directed pair of fighters that met, with the matches the
/// fighter won and lost against that opponent; no other cells.
pub open spec fn head_to_head_of(cells: Seq<CellView>, ms: Seq<MatchView>) -> bool {
    &&& forall|i: int, j: int|
        0 <= i < j < cells.len() ==> (#[trigger] cells[i].0, cells[i].1) != (
        #[trigger] cells[j].0,
        cells[j].1,
    )
    &&& forall|i: int|
        0 <= i < cells.len() ==> met(ms, (#[trigger] cells[i]).0, cells[i].1) && cells[i].2
            == beat_count(ms, cells[i].0, cells[i].1) && cells[i].3 == beat_count(
            ms,
            cells[i].1,
            cells[i].0,
        )
    &&& forall|f: Seq<char>, o: Seq<char>|
        #[trigger] met(ms, f, o) ==> exists|i: int|
            0 <= i < cells.len() && (#[trigger] cells[i]).0 == f && cells[i].1 == o
}

/// The matrix mirrors itself: next to the cell of a fighter against an
/// opponent stands the opponent's cell against the fighter, with wins and
/// losses swapped.
pub proof fn lemma_h2h_mirror(cells: Seq<CellView>, ms: Seq<MatchView>, i: int)
    requires
        head_to_head_of(cells, ms),
        0 <= i < cells.len(),
    ensures
        exists|j: int|
            0 <= j < cells.len() && (#[trigger] cells[j]).0 == cells[i].1 && cells[j].1 == cells[i].0
                && cells[j].2 == cells[i].3 && cells[j].3 == cells[i].2,
{
    let f = cells[i].0;
    let o = cells[i].1;
    assert(met(ms, f, o));
    let k = choose|k: int|
        0 <= k < ms.len() && ((#[trigger] ms[k]).2 == f && loser_of(ms[k]) == o || ms[k].2 == o
            && loser_of(ms[k]) == f);
    assert(met(ms, o, f));
    let j = choose|j: int| 0 <= j < cells.len() && (#[trigger] cells[j]).0 == o && cells[j].1 == f;
    assert(cells[j].2 == beat_count(ms, o, f));
}

/// (name, wins, losses)
pub type RecordView = (Seq<char>, int, int);

pub open spec fn record_views(rs: Seq<FighterRecord>) -> Seq<RecordView> {
    rs.map_values(|r: FighterRecord| (r.name@, r.wins as int, r.losses as int))
}

/// One record per fighter that fought, with its wins and losses; no other
/// records.
pub open spec fn records_of(rs: Seq<RecordView>, ms: Seq<MatchView>) -> bool {
    &&& forall|i: int, j: int| 0 <= i < j < rs.len() ==> #[trigger] rs[i].0 != #[trigger] rs[j].0
    &&& forall|i: int|
        0 <= i < rs.len() ==> fought(ms, (#[trigger] rs[i]).0) && rs[i].1 == win_count(ms, rs[i].0)
            && rs[i].2 == loss_count(ms, rs[i].0)
    &&& forall|f: Seq<char>| #[trigger] fought(ms, f) ==> exists|i: int| 0 <= i < rs.len() && (#[trigger] rs[i]).0 == f
}

/// Sum of the wins of the records.
pub open spec fn wins_total(rs: Seq<RecordView>) -> int
    decreases rs.len(),
{
    if rs.len() == 0 {
        0
    } else {
        wins_total(rs.drop_last()) + rs.last().1
    }
}

/// Sum of the losses of the records.
pub open spec fn losses_total(rs: Seq<RecordView>) -> int
    decreases rs.len(),
{
    if rs.len() == 0 {
        0
    } else {
        losses_total(rs.drop_last()) + rs.last().2
    }
}

/// How many records carry the name `x`.
spec fn name_count(rs: Seq<RecordView>, x: Seq<char>) -> int
    decreases rs.len(),
{
    if rs.len() == 0 {
        0
    } else {
        name_count(rs.drop_last(), x) + if rs.last().0 == x {
            1int
        } else {
            0int
        }
    }
}

/// The wins and the losses in `ms` of the records' fighters, summed.
spec fn count_sums(rs: Seq<RecordView>, ms: Seq<MatchView>) -> (int, int)
    decreases rs.len(),
{
    if rs.len() == 0 {
        (0, 0)
    } else {
        let p = count_sums(rs.drop_last(), ms);
        (p.0 + win_count(ms, rs.last().0), p.1 + loss_count(ms, rs.last().0))
    }
}

spec fn names_distinct(rs: Seq<RecordView>) -> bool {
    forall|i: int, j: int| 0 <= i < j < rs.len() ==> #[trigger] rs[i].0 != #[trigger] rs[j].0
}

spec fn names_listed(rs: Seq<RecordView>, x: Seq<char>) -> bool {
    exists|i: int| 0 <= i < rs.len() && #[trigger] rs[i].0 == x
}

proof fn lemma_name_count_one(rs: Seq<RecordView>, x: Seq<char>)
    requires
        names_distinct(rs),
    ensures
        name_count(rs, x) == if names_listed(rs, x) {
            1int
        } else {
            0int
        },
    decreases rs.len(),
{
    if rs.len() > 0 {
        let d = rs.drop_last();
        assert(names_distinct(d)) by {
            assert forall|i: int, j: int| 0 <= i < j < d.len() implies #[trigger] d[i].0 != #[trigger] d[j].0 by {
                assert(d[i] == rs[i] && d[j] == rs[j]);
            }
        }
        lemma_name_count_one(d, x);
        if names_listed(d, x) {
            let i = choose|i: int| 0 <= i < d.len() && #[trigger] d[i].0 == x;
            assert(rs[i].0 == x);
            assert(rs[i].0 != rs[rs.len() - 1].0);
        }
        if names_listed(rs, x) && rs.last().0 != x {
            let i = choose|i: int| 0 <= i < rs.len() && #[trigger] rs[i].0 == x;
            assert(d[i].0 == x);
        }
        if rs.last().0 == x {
            assert(rs[rs.len() - 1].0 == x);
        }
    }
}

proof fn lemma_count_sums_push(rs: Seq<RecordView>, ms: Seq<MatchView>, m: MatchView)
    ensures
        count_sums(rs, ms.push(m)) == (
            count_sums(rs, ms).0 + name_count(rs, m.2),
            count_sums(rs, ms).1 + name_count(rs, loser_of(m)),
        ),
    decreases rs.len(),
{
    assert(ms.push(m).drop_last() =~= ms);
    if rs.len() > 0 {
        lemma_count_sums_push(rs.drop_last(), ms, m);
    }
}

proof fn lemma_count_sums_empty(rs: Seq<RecordView>)
    ensures
        count_sums(rs, Seq::empty()) == (0int, 0int),
    decreases rs.len(),
{
    if rs.len() > 0 {
        lemma_count_sums_empty(rs.drop_last());
    }
}

/// When the records name every winner and every loser, once each, their
/// summed wins and losses are both the number of matches.
proof fn lemma_count_sums_cover(rs: Seq<RecordView>, ms: Seq<MatchView>)
    requires
        names_distinct(rs),
        forall|k: int| 0 <= k < ms.len() ==> names_listed(rs, (#[trigger] ms[k]).2) && names_listed(rs, loser_of(ms[k])),
    ensures
        count_sums(rs, ms) == (ms.len() as int, ms.len() as int),
    decreases ms.len(),
{
    if ms.len() == 0 {
        lemma_count_sums_empty(rs);
        assert(ms =~= Seq::<MatchView>::empty());
    } else {
        let pre = ms.drop_last();
        let m = ms.last();
        assert forall|k: int| 0 <= k < pre.len() implies names_listed(rs, (#[trigger] pre[k]).2) && names_listed(rs, loser_of(pre[k])) by {
            assert(pre[k] == ms[k]);
        }
        lemma_count_sums_cover(rs, pre);
        assert(ms =~= pre.push(m));
        lemma_count_sums_push(rs, pre, m);
        assert(ms[ms.len() - 1] == m);
        lemma_name_count_one(rs, m.2);
        lemma_name_count_one(rs, loser_of(m));
    }
}

proof fn lemma_totals_are_sums(rs: Seq<RecordView>, ms: Seq<MatchView>)
    requires
        forall|i: int|
            0 <= i < rs.len() ==> (#[trigger] rs[i]).1 == win_count(ms, rs[i].0) && rs[i].2 == loss_count(ms, rs[i].0),
    ensures
        count_sums(rs, ms) == (wins_total(rs), losses_total(rs)),
    decreases rs.len(),
{
    if rs.len() > 0 {
        let d = rs.drop_last();
        assert forall|i: int| 0 <= i < d.len() implies (#[trigger] d[i]).1 == win_count(ms, d[i].0) && d[i].2 == loss_count(ms, d[i].0) by {
            assert(d[i] == rs[i]);
        }
        lemma_totals_are_sums(d, ms);
        assert(rs.last() == rs[rs.len() - 1]);
    }
}

/// Every match counts one win and one loss: over the fighters' records, the
/// wins add up to the number of matches, and so do the losses.
pub proof fn lemma_records_add_up(rs: Seq<RecordView>, ms: Seq<MatchView>)
    requires
        records_of(rs, ms),
    ensures
        wins_total(rs) == ms.len(),
        losses_total(rs) == ms.len(),
{
    assert forall|k: int| 0 <= k < ms.len() implies names_listed(rs, (#[trigger] ms[k]).2) && names_listed(rs, loser_of(ms[k])) by {
        assert(fought(ms, ms[k].2));
        assert(fought(ms, loser_of(ms[k])));
        let i = choose|i: int| 0 <= i < rs.len() && (#[trigger] rs[i]).0 == ms[k].2;
        assert(rs[i].0 == ms[k].2);
        let j = choose|j: int| 0 <= j < rs.len() && (#[trigger] rs[j]).0 == loser_of(ms[k]);
        assert(rs[j].0 == loser_of(ms[k]));
    }
    lemma_count_sums_cover(rs, ms);
    lemma_totals_are_sums(rs, ms);
}

proof fn lemma_counts_push(ms: Seq<MatchView>, m: MatchView, f: Seq<char>, o: Seq<char>)
    ensures
        beat_count(ms.push(m), f, o) == beat_count(ms, f, o) + if m.2 == f && loser_of(m) == o {
            1nat
        } else {
            0nat
        },
        win_count(ms.push(m), f) == win_count(ms, f) + if m.2 == f {
            1nat
        } else {
            0nat
        },
        loss_count(ms.push(m), f) == loss_count(ms, f) + if loser_of(m) == f {
            1nat
        } else {
            0nat
        },
{
    assert(ms.push(m).drop_last() =~= ms);
}

proof fn lemma_counts_bound(ms: Seq<MatchView>, f: Seq<char>, o: Seq<char>)
    ensures
        beat_count(ms, f, o) <= ms.len(),
        win_count(ms, f) <= ms.len(),
        loss_count(ms, f) <= ms.len(),
    decreases ms.len(),
{
    if ms.len() > 0 {
        lemma_counts_bound(ms.drop_last(), f, o);
    }
}

proof fn lemma_not_met(ms: Seq<MatchView>, f: Seq<char>, o: Seq<char>)
    requires
        !met(ms, f, o),
    ensures
        beat_count(ms, f, o) == 0,
        beat_count(ms, o, f) == 0,
    decreases ms.len(),
{
    if ms.len() > 0 {
        assert(!met(ms.drop_last(), f, o)) by {
            if met(ms.drop_last(), f, o) {
                let k = choose|k: int|
                    0 <= k < ms.drop_last().len() && ((#[trigger] ms.drop_last()[k]).2 == f
                        && loser_of(ms.drop_last()[k]) == o || ms.drop_last()[k].2 == o && loser_of(
                        ms.drop_last()[k],
                    ) == f);
                assert(ms[k] == ms.drop_last()[k]);
            }
        }
        assert(ms.last() == ms[ms.len() - 1]);
        lemma_not_met(ms.drop_last(), f, o);
    }
}

proof fn lemma_not_fought(ms: Seq<MatchView>, f: Seq<char>)
    requires
        !fought(ms, f),
    ensures
        win_count(ms, f) == 0,
        loss_count(ms, f) == 0,
    decreases ms.len(),
{
    if ms.len() > 0 {
        assert(!fought(ms.drop_last(), f)) by {
            if fought(ms.drop_last(), f) {
                let k = choose|k: int|
                    0 <= k < ms.drop_last().len() && ((#[trigger] ms.drop_last()[k]).2 == f
                        || loser_of(ms.drop_last()[k]) == f);
                assert(ms[k] == ms.drop_last()[k]);
            }
        }
        assert(ms.last() == ms[ms.len() - 1]);
        lemma_not_fought(ms.drop_last(), f);
    }
}

/// The position of the cell for (`f`, `o`), if there is one.
pub open spec fn pair_index(cells: Seq<CellView>, f: Seq<char>, o: Seq<char>) -> Option<int> {
    if exists|j: int| 0 <= j < cells.len() && (#[trigger] cells[j]).0 == f && cells[j].1 == o {
        Some(choose|j: int| 0 <= j < cells.len() && (#[trigger] cells[j]).0 == f && cells[j].1 == o)
    } else {
        None
    }
}

/// The cells after adding `dw` wins and `dl` losses to the cell (`f`, `o`),
/// which is appended if missing.
pub open spec fn bump(cells: Seq<CellView>, f: Seq<char>, o: Seq<char>, dw: int, dl: int) -> Seq<
    CellView,
> {
    match pair_index(cells, f, o) {
        Some(j) => cells.update(j, (f, o, cells[j].2 + dw, cells[j].3 + dl)),
        None => cells.push((f, o, dw, dl)),
    }
}

/// No two cells are for the same directed pair.
pub open spec fn unique_pairs(cells: Seq<CellView>) -> bool {
    forall|i: int, j: int|
        0 <= i < j < cells.len() ==> (#[trigger] cells[i].0, cells[i].1) != (
        #[trigger] cells[j].0,
        cells[j].1,
    )
}

/// Adds `dw` wins and `dl` losses to the cell (`f`, `o`).
fn bump_cell(cells: &mut Vec<ArenaHeadToHead>, f: &String, o: &String, dw: u32, dl: u32)
    requires
        unique_pairs(cell_views(old(cells)@)),
        forall|k: int|
            0 <= k < old(cells)@.len() ==> (#[trigger] old(cells)@[k]).wins + dw <= u32::MAX
                && old(cells)@[k].losses + dl <= u32::MAX,
    ensures
        cell_views(final(cells)@) == bump(cell_views(old(cells)@), f@, o@, dw as int, dl as int),
        unique_pairs(cell_views(final(cells)@)),
{
    let ghost c0 = cell_views(cells@);
    let mut j: usize = 0;
    while j < cells.len()
        invariant
            j <= cells@.len(),
            c0 == cell_views(cells@),
            forall|k: int| 0 <= k < j ==> !(c0[k].0 == f@ && c0[k].1 == o@),
        ensures
            j <= cells@.len(),
            c0 == cell_views(cells@),
            forall|k: int| 0 <= k < j ==> !(c0[k].0 == f@ && c0[k].1 == o@),
            j < cells@.len() ==> c0[j as int].0 == f@ && c0[j as int].1 == o@,
        decreases cells@.len() - j,
    {
        if cells[j].fighter == *f && cells[j].opponent == *o {
            break;
        }
        j = j + 1;
    }
    if j < cells.len() {
        proof {
            assert(c0[j as int].0 == f@ && c0[j as int].1 == o@);
            let q = choose|q: int| 0 <= q < c0.len() && (#[trigger] c0[q]).0 == f@ && c0[q].1 == o@;
            if q != j {
                if q < j {
                    assert((c0[q].0, c0[q].1) != (c0[j as int].0, c0[j as int].1));
                } else {
                    assert((c0[j as int].0, c0[j as int].1) != (c0[q].0, c0[q].1));
                }
            }
            assert(pair_index(c0, f@, o@) == Some(j as int));
        }
        let w = cells[j].wins + dw;
        let l = cells[j].losses + dl;
        cells.set(j, ArenaHeadToHead { fighter: f.clone(), opponent: o.clone(), wins: w, losses: l });
        proof {
            assert(cell_views(cells@) =~= c0.update(j as int, (f@, o@, w as int, l as int)));
        }
    } else {
        proof {
            assert(j == cells@.len());
            assert(pair_index(c0, f@, o@) is None);
        }
        cells.push(ArenaHeadToHead { fighter: f.clone(), opponent: o.clone(), wins: dw, losses: dl });
        proof {
            assert(cell_views(cells@) =~= c0.push((f@, o@, dw as int, dl as int)));
        }
    }
}

/// Adding a win keeps every loss count.
proof fn lemma_bump_losses(c: Seq<CellView>, f: Seq<char>, o: Seq<char>, bound: int)
    requires
        bound >= 0,
        forall|k: int| 0 <= k < c.len() ==> (#[trigger] c[k]).3 <= bound,
    ensures
        forall|k: int| 0 <= k < bump(c, f, o, 1, 0).len() ==> (#[trigger] bump(c, f, o, 1, 0)[k]).3 <= bound,
{
    let b = bump(c, f, o, 1, 0);
    assert forall|k: int| 0 <= k < b.len() implies (#[trigger] b[k]).3 <= bound by {
        match pair_index(c, f, o) {
            Some(j) => {
                if k != j {
                    assert(b[k] == c[k]);
                }
            },
            None => {
                if k < c.len() {
                    assert(b[k] == c[k]);
                }
            },
        }
    }
}

/// The first half of adding a match `m` to a matrix exact for `ms`: the
/// winner's cell against the loser gains the win.
pub open spec fn half_step(c: Seq<CellView>, ms: Seq<MatchView>, m: MatchView) -> bool {
    let ms2 = ms.push(m);
    &&& unique_pairs(c)
    &&& forall|i: int|
        0 <= i < c.len() ==> met(ms2, (#[trigger] c[i]).0, c[i].1) && c[i].2 == beat_count(
            ms2,
            c[i].0,
            c[i].1,
        ) && c[i].3 == beat_count(ms, c[i].1, c[i].0)
    &&& forall|f: Seq<char>, o: Seq<char>|
        #[trigger] met(ms, f, o) ==> exists|i: int|
            0 <= i < c.len() && (#[trigger] c[i]).0 == f && c[i].1 == o
    &&& exists|i: int| 0 <= i < c.len() && (#[trigger] c[i]).0 == m.2 && c[i].1 == loser_of(m)
}

proof fn lemma_met_push(ms: Seq<MatchView>, m: MatchView, f: Seq<char>, o: Seq<char>)
    requires
        met(ms, f, o),
    ensures
        met(ms.push(m), f, o),
{
    let k = choose|k: int|
        0 <= k < ms.len() && ((#[trigger] ms[k]).2 == f && loser_of(ms[k]) == o || ms[k].2 == o
            && loser_of(ms[k]) == f);
    assert(ms.push(m)[k] == ms[k]);
}

proof fn lemma_met_new(ms: Seq<MatchView>, m: MatchView)
    ensures
        met(ms.push(m), m.2, loser_of(m)),
        met(ms.push(m), loser_of(m), m.2),
{
    assert(ms.push(m)[ms.len() as int] == m);
}

/// Which pairs a match `m` makes met: those met before, and its two
/// fighters in both directions.
proof fn lemma_met_cases(ms: Seq<MatchView>, m: MatchView, f: Seq<char>, o: Seq<char>)
    requires
        met(ms.push(m), f, o),
    ensures
        met(ms, f, o) || (f == m.2 && o == loser_of(m)) || (f == loser_of(m) && o == m.2),
{
    let ms2 = ms.push(m);
    let k = choose|k: int|
        0 <= k < ms2.len() && ((#[trigger] ms2[k]).2 == f && loser_of(ms2[k]) == o || ms2[k].2 == o
            && loser_of(ms2[k]) == f);
    if k < ms.len() {
        assert(ms2[k] == ms[k]);
    } else {
        assert(ms2[k] == m);
    }
}

proof fn lemma_first_bump(cells: Seq<CellView>, ms: Seq<MatchView>, m: MatchView)
    requires
        head_to_head_of(cells, ms),
    ensures
        half_step(bump(cells, m.2, loser_of(m), 1, 0), ms, m),
{
    let w = m.2;
    let l = loser_of(m);
    let c1 = bump(cells, w, l, 1, 0);
    let ms2 = ms.push(m);
    lemma_met_new(ms, m);
    match pair_index(cells, w, l) {
        Some(j) => {
            let q = choose|q: int| 0 <= q < cells.len() && (#[trigger] cells[q]).0 == w && cells[q].1 == l;
            assert(j == q) by {
                if j != q {
                    if j < q {
                        assert((cells[j].0, cells[j].1) != (cells[q].0, cells[q].1));
                    } else {
                        assert((cells[q].0, cells[q].1) != (cells[j].0, cells[j].1));
                    }
                }
            }
            assert(c1[j].0 == w && c1[j].1 == l);
        },
        None => {
            assert(c1[cells.len() as int].0 == w && c1[cells.len() as int].1 == l);
            assert(!met(ms, w, l)) by {
                if met(ms, w, l) {
                    let q = choose|q: int| 0 <= q < cells.len() && (#[trigger] cells[q]).0 == w && cells[q].1 == l;
                }
            }
            lemma_not_met(ms, w, l);
        },
    }
    assert forall|i: int, k: int| 0 <= i < k < c1.len() implies (#[trigger] c1[i].0, c1[i].1) != (
    #[trigger] c1[k].0,
    c1[k].1,
) by {
        match pair_index(cells, w, l) {
            Some(j) => {
                assert((cells[i].0, cells[i].1) != (cells[k].0, cells[k].1));
            },
            None => {
                if k < cells.len() {
                    assert((cells[i].0, cells[i].1) != (cells[k].0, cells[k].1));
                } else {
                    assert(!(cells[i].0 == w && cells[i].1 == l));
                }
            },
        }
    }
    assert forall|i: int| 0 <= i < c1.len() implies met(ms2, (#[trigger] c1[i]).0, c1[i].1)
        && c1[i].2 == beat_count(ms2, c1[i].0, c1[i].1) && c1[i].3 == beat_count(
        ms,
        c1[i].1,
        c1[i].0,
    ) by {
        lemma_counts_push(ms, m, c1[i].0, c1[i].1);
        match pair_index(cells, w, l) {
            Some(j) => {
                lemma_met_push(ms, m, cells[i].0, cells[i].1);
                if i != j {
                    assert(c1[i] == cells[i]);
                    assert(!(cells[i].0 == w && cells[i].1 == l)) by {
                        let q = choose|q: int| 0 <= q < cells.len() && (#[trigger] cells[q]).0 == w && cells[q].1 == l;
                        if cells[i].0 == w && cells[i].1 == l {
                            if i < q {
                                assert((cells[i].0, cells[i].1) != (cells[q].0, cells[q].1));
                            } else if q < i {
                                assert((cells[q].0, cells[q].1) != (cells[i].0, cells[i].1));
                            }
                        }
                    }
                }
            },
            None => {
                if i < cells.len() {
                    assert(c1[i] == cells[i]);
                    lemma_met_push(ms, m, cells[i].0, cells[i].1);
                }
            },
        }
    }
    assert forall|f: Seq<char>, o: Seq<char>| #[trigger] met(ms, f, o) implies exists|i: int|
        0 <= i < c1.len() && (#[trigger] c1[i]).0 == f && c1[i].1 == o by {
        let i = choose|i: int| 0 <= i < cells.len() && (#[trigger] cells[i]).0 == f && cells[i].1 == o;
        match pair_index(cells, w, l) {
            Some(j) => {
                assert(c1[i].0 == f && c1[i].1 == o);
            },
            None => {
                assert(c1[i] == cells[i]);
            },
        }
    }
}

proof fn lemma_second_bump(c1: Seq<CellView>, ms: Seq<MatchView>, m: MatchView)
    requires
        half_step(c1, ms, m),
    ensures
        head_to_head_of(bump(c1, loser_of(m), m.2, 0, 1), ms.push(m)),
{
    let w = m.2;
    let l = loser_of(m);
    let c2 = bump(c1, l, w, 0, 1);
    let ms2 = ms.push(m);
    lemma_met_new(ms, m);
    match pair_index(c1, l, w) {
        Some(j) => {
            let q = choose|q: int| 0 <= q < c1.len() && (#[trigger] c1[q]).0 == l && c1[q].1 == w;
            assert(j == q) by {
                if j != q {
                    if j < q {
                        assert((c1[j].0, c1[j].1) != (c1[q].0, c1[q].1));
                    } else {
                        assert((c1[q].0, c1[q].1) != (c1[j].0, c1[j].1));
                    }
                }
            }
        },
        None => {
            assert(!met(ms, l, w));
            lemma_not_met(ms, l, w);
            assert(!(w == l)) by {
                if w == l {
                    let q = choose|q: int| 0 <= q < c1.len() && (#[trigger] c1[q]).0 == w && c1[q].1 == l;
                }
            }
        },
    }
    assert forall|i: int, k: int| 0 <= i < k < c2.len() implies (#[trigger] c2[i].0, c2[i].1) != (
    #[trigger] c2[k].0,
    c2[k].1,
) by {
        match pair_index(c1, l, w) {
            Some(j) => {
                assert((c1[i].0, c1[i].1) != (c1[k].0, c1[k].1));
            },
            None => {
                if k < c1.len() {
                    assert((c1[i].0, c1[i].1) != (c1[k].0, c1[k].1));
                } else {
                    assert(!(c1[i].0 == l && c1[i].1 == w));
                }
            },
        }
    }
    assert forall|i: int| 0 <= i < c2.len() implies met(ms2, (#[trigger] c2[i]).0, c2[i].1)
        && c2[i].2 == beat_count(ms2, c2[i].0, c2[i].1) && c2[i].3 == beat_count(
        ms2,
        c2[i].1,
        c2[i].0,
    ) by {
        lemma_counts_push(ms, m, c2[i].1, c2[i].0);
        match pair_index(c1, l, w) {
            Some(j) => {
                if i != j {
                    assert(c2[i] == c1[i]);
                    assert(!(c1[i].0 == l && c1[i].1 == w)) by {
                        if c1[i].0 == l && c1[i].1 == w {
                            if i < j {
                                assert((c1[i].0, c1[i].1) != (c1[j].0, c1[j].1));
                            } else {
                                assert((c1[j].0, c1[j].1) != (c1[i].0, c1[i].1));
                            }
                        }
                    }
                }
            },
            None => {
                if i < c1.len() {
                    assert(c2[i] == c1[i]);
                } else {
                    lemma_counts_push(ms, m, l, w);
                }
            },
        }
    }
    assert forall|f: Seq<char>, o: Seq<char>| #[trigger] met(ms2, f, o) implies exists|i: int|
        0 <= i < c2.len() && (#[trigger] c2[i]).0 == f && c2[i].1 == o by {
        lemma_met_cases(ms, m, f, o);
        if f == l && o == w {
            match pair_index(c1, l, w) {
                Some(j) => {
                    assert(c2[j].0 == f && c2[j].1 == o);
                },
                None => {
                    assert(c2[c1.len() as int].0 == f && c2[c1.len() as int].1 == o);
                },
            }
        } else {
            let i = if met(ms, f, o) {
                choose|i: int| 0 <= i < c1.len() && (#[trigger] c1[i]).0 == f && c1[i].1 == o
            } else {
                choose|i: int| 0 <= i < c1.len() && (#[trigger] c1[i]).0 == w && c1[i].1 == l
            };
            assert(c1[i].0 == f && c1[i].1 == o);
            match pair_index(c1, l, w) {
                Some(j) => {
                    assert(c2[i].0 == f && c2[i].1 == o);
                },
                None => {
                    assert(c2[i] == c1[i]);
                },
            }
        }
    }
}

/// Adding a match keeps the matrix exact.
proof fn lemma_h2h_step(cells: Seq<CellView>, ms: Seq<MatchView>, m: MatchView)
    requires
        head_to_head_of(cells, ms),
    ensures
        head_to_head_of(
            bump(bump(cells, m.2, loser_of(m), 1, 0), loser_of(m), m.2, 0, 1),
            ms.push(m),
        ),
{
    lemma_first_bump(cells, ms, m);
    lemma_second_bump(bump(cells, m.2, loser_of(m), 1, 0), ms, m);
}

/// The directed head-to-head matrix of the matches: for every pair of
/// fighters that met, in each direction, one cell with the fighter's wins
/// and losses against that opponent.
pub fn head_to_head(matches: &[ArenaRecentMatch]) -> (r: Vec<ArenaHeadToHead>)
    requires
        matches@.len() <= u32::MAX,
    ensures
        head_to_head_of(cell_views(r@), match_views(matches@)),
{
    let ghost ms = match_views(matches@);
    let mut cells: Vec<ArenaHeadToHead> = Vec::new();
    let mut i: usize = 0;
    assert(ms.take(0) =~= Seq::<MatchView>::empty());
    while i < matches.len()
        invariant
            i <= matches@.len() <= u32::MAX,
            ms == match_views(matches@),
            head_to_head_of(cell_views(cells@), ms.take(i as int)),
        decreases matches@.len() - i,
    {
        let m = &matches[i];
        let loser = if m.winner == m.fighter_a {
            m.fighter_b.clone()
        } else {
            m.fighter_a.clone()
        };
        let ghost pre = ms.take(i as int);
        let ghost mv = ms[i as int];
        proof {
            assert(loser@ == loser_of(mv));
            assert(ms.take(i + 1) =~= pre.push(mv));
            assert forall|k: int| 0 <= k < cells@.len() implies (#[trigger] cells@[k]).wins + 1
                <= u32::MAX && cells@[k].losses + 1 <= u32::MAX by {
                let cv = cell_views(cells@)[k];
                lemma_counts_bound(pre, cv.0, cv.1);
                lemma_counts_bound(pre, cv.1, cv.0);
            }
        }
        let ghost c0 = cell_views(cells@);
        bump_cell(&mut cells, &m.winner, &loser, 1, 0);
        proof {
            assert forall|q: int| 0 <= q < c0.len() implies (#[trigger] c0[q]).3 <= pre.len() by {
                lemma_counts_bound(pre, c0[q].1, c0[q].0);
            }
            lemma_bump_losses(c0, mv.2, loser_of(mv), pre.len() as int);
            assert forall|q: int| 0 <= q < cells@.len() implies (#[trigger] cells@[q]).wins + 0
                <= u32::MAX && cells@[q].losses + 1 <= u32::MAX by {
                assert(cell_views(cells@)[q].3 == cells@[q].losses);
            }
        }
        bump_cell(&mut cells, &loser, &m.winner, 0, 1);
        proof {
            lemma_h2h_step(c0, pre, mv);
        }
        i = i + 1;
    }
    assert(ms.take(matches@.len() as int) =~= ms);
    cells
}


/// The position of `f`'s record, if there is one.
pub open spec fn name_index(rs: Seq<RecordView>, f: Seq<char>) -> Option<int> {
    if exists|j: int| 0 <= j < rs.len() && (#[trigger] rs[j]).0 == f {
        Some(choose|j: int| 0 <= j < rs.len() && (#[trigger] rs[j]).0 == f)
    } else {
        None
    }
}

/// The records after adding `dw` wins and `dl` losses to `f`'s record,
/// which is appended if missing.
pub open spec fn bump_record(rs: Seq<RecordView>, f: Seq<char>, dw: int, dl: int) -> Seq<RecordView> {
    match name_index(rs, f) {
        Some(j) => rs.update(j, (f, rs[j].1 + dw, rs[j].2 + dl)),
        None => rs.push((f, dw, dl)),
    }
}

pub open spec fn unique_names(rs: Seq<RecordView>) -> bool {
    forall|i: int, j: int| 0 <= i < j < rs.len() ==> #[trigger] rs[i].0 != #[trigger] rs[j].0
}

fn bump_fighter(rs: &mut Vec<FighterRecord>, f: &String, dw: u32, dl: u32)
    requires
        unique_names(record_views(old(rs)@)),
        forall|k: int|
            0 <= k < old(rs)@.len() ==> (#[trigger] old(rs)@[k]).wins + dw <= u32::MAX
                && old(rs)@[k].losses + dl <= u32::MAX,
    ensures
        record_views(final(rs)@) == bump_record(record_views(old(rs)@), f@, dw as int, dl as int),
        unique_names(record_views(final(rs)@)),
{
    let ghost r0 = record_views(rs@);
    let mut j: usize = 0;
    while j < rs.len()
        invariant
            j <= rs@.len(),
            r0 == record_views(rs@),
            forall|k: int| 0 <= k < j ==> r0[k].0 != f@,
        ensures
            j <= rs@.len(),
            r0 == record_views(rs@),
            forall|k: int| 0 <= k < j ==> r0[k].0 != f@,
            j < rs@.len() ==> r0[j as int].0 == f@,
        decreases rs@.len() - j,
    {
        if rs[j].name == *f {
            break;
        }
        j = j + 1;
    }
    if j < rs.len() {
        proof {
            let q = choose|q: int| 0 <= q < r0.len() && (#[trigger] r0[q]).0 == f@;
            if q != j {
                if q < j {
                    assert(r0[q].0 != r0[j as int].0);
                } else {
                    assert(r0[j as int].0 != r0[q].0);
                }
            }
            assert(name_index(r0, f@) == Some(j as int));
        }
        let w = rs[j].wins + dw;
        let l = rs[j].losses + dl;
        rs.set(j, FighterRecord { name: f.clone(), wins: w, losses: l });
        proof {
            assert(record_views(rs@) =~= r0.update(j as int, (f@, w as int, l as int)));
        }
    } else {
        proof {
            assert(name_index(r0, f@) is None);
        }
        rs.push(FighterRecord { name: f.clone(), wins: dw, losses: dl });
        proof {
            assert(record_views(rs@) =~= r0.push((f@, dw as int, dl as int)));
        }
    }
}

/// Adding a win keeps every loss count.
proof fn lemma_bump_record_losses(rs: Seq<RecordView>, f: Seq<char>, bound: int)
    requires
        bound >= 0,
        forall|k: int| 0 <= k < rs.len() ==> (#[trigger] rs[k]).2 <= bound,
    ensures
        forall|k: int|
            0 <= k < bump_record(rs, f, 1, 0).len() ==> (#[trigger] bump_record(rs, f, 1, 0)[k]).2
                <= bound,
{
    let b = bump_record(rs, f, 1, 0);
    assert forall|k: int| 0 <= k < b.len() implies (#[trigger] b[k]).2 <= bound by {
        match name_index(rs, f) {
            Some(j) => {
                if k != j {
                    assert(b[k] == rs[k]);
                }
            },
            None => {
                if k < rs.len() {
                    assert(b[k] == rs[k]);
                }
            },
        }
    }
}

proof fn lemma_fought_push(ms: Seq<MatchView>, m: MatchView, f: Seq<char>)
    ensures
        fought(ms, f) ==> fought(ms.push(m), f),
        fought(ms.push(m), m.2),
        fought(ms.push(m), loser_of(m)),
        fought(ms.push(m), f) ==> fought(ms, f) || f == m.2 || f == loser_of(m),
{
    let ms2 = ms.push(m);
    assert(ms2[ms.len() as int] == m);
    if fought(ms, f) {
        let k = choose|k: int| 0 <= k < ms.len() && ((#[trigger] ms[k]).2 == f || loser_of(ms[k]) == f);
        assert(ms2[k] == ms[k]);
    }
    if fought(ms2, f) {
        let k = choose|k: int| 0 <= k < ms2.len() && ((#[trigger] ms2[k]).2 == f || loser_of(ms2[k]) == f);
        if k < ms.len() {
            assert(ms2[k] == ms[k]);
        }
    }
}

proof fn lemma_records_step(rs: Seq<RecordView>, ms: Seq<MatchView>, m: MatchView)
    requires
        records_of(rs, ms),
    ensures
        records_of(bump_record(bump_record(rs, m.2, 1, 0), loser_of(m), 0, 1), ms.push(m)),
{
    let w = m.2;
    let l = loser_of(m);
    let ms2 = ms.push(m);
    let r1 = bump_record(rs, w, 1, 0);
    let r2 = bump_record(r1, l, 0, 1);
    lemma_fought_push(ms, m, w);
    // first bump
    match name_index(rs, w) {
        Some(j) => {
            let q = choose|q: int| 0 <= q < rs.len() && (#[trigger] rs[q]).0 == w;
            assert(j == q) by {
                if j != q {
                    if j < q {
                        assert(rs[j].0 != rs[q].0);
                    } else {
                        assert(rs[q].0 != rs[j].0);
                    }
                }
            }
        },
        None => {
            assert(!fought(ms, w));
            lemma_not_fought(ms, w);
        },
    }
    assert(unique_names(r1)) by {
        assert forall|i: int, k: int| 0 <= i < k < r1.len() implies #[trigger] r1[i].0 != #[trigger] r1[k].0 by {
            match name_index(rs, w) {
                Some(j) => {
                    assert(rs[i].0 != rs[k].0);
                },
                None => {
                    if k < rs.len() {
                        assert(rs[i].0 != rs[k].0);
                    } else {
                        assert(rs[i].0 != w);
                    }
                },
            }
        }
    }
    assert forall|i: int| 0 <= i < r1.len() implies fought(ms2, (#[trigger] r1[i]).0) && r1[i].1
        == win_count(ms2, r1[i].0) && r1[i].2 == loss_count(ms, r1[i].0) by {
        lemma_counts_push(ms, m, r1[i].0, r1[i].0);
        match name_index(rs, w) {
            Some(j) => {
                lemma_fought_push(ms, m, rs[i].0);
                if i != j {
                    assert(r1[i] == rs[i]);
                    assert(rs[i].0 != w) by {
                        if i < j {
                            assert(rs[i].0 != rs[j].0);
                        } else {
                            assert(rs[j].0 != rs[i].0);
                        }
                    }
                }
            },
            None => {
                if i < rs.len() {
                    assert(r1[i] == rs[i]);
                    lemma_fought_push(ms, m, rs[i].0);
                }
            },
        }
    }
    assert(exists|i: int| 0 <= i < r1.len() && (#[trigger] r1[i]).0 == w) by {
        match name_index(rs, w) {
            Some(j) => {
                assert(r1[j].0 == w);
            },
            None => {
                assert(r1[rs.len() as int].0 == w);
            },
        }
    }
    assert forall|f: Seq<char>| #[trigger] fought(ms, f) implies exists|i: int|
        0 <= i < r1.len() && (#[trigger] r1[i]).0 == f by {
        let i = choose|i: int| 0 <= i < rs.len() && (#[trigger] rs[i]).0 == f;
        match name_index(rs, w) {
            Some(j) => {
                assert(r1[i].0 == f);
            },
            None => {
                assert(r1[i] == rs[i]);
            },
        }
    }
    // second bump
    lemma_fought_push(ms, m, l);
    match name_index(r1, l) {
        Some(j) => {
            let q = choose|q: int| 0 <= q < r1.len() && (#[trigger] r1[q]).0 == l;
            assert(j == q) by {
                if j != q {
                    if j < q {
                        assert(r1[j].0 != r1[q].0);
                    } else {
                        assert(r1[q].0 != r1[j].0);
                    }
                }
            }
        },
        None => {
            assert(!fought(ms, l));
            lemma_not_fought(ms, l);
            assert(l != w);
        },
    }
    assert forall|i: int, k: int| 0 <= i < k < r2.len() implies #[trigger] r2[i].0 != #[trigger] r2[k].0 by {
        match name_index(r1, l) {
            Some(j) => {
                assert(r1[i].0 != r1[k].0);
            },
            None => {
                if k < r1.len() {
                    assert(r1[i].0 != r1[k].0);
                } else {
                    assert(r1[i].0 != l);
                }
            },
        }
    }
    assert forall|i: int| 0 <= i < r2.len() implies fought(ms2, (#[trigger] r2[i]).0) && r2[i].1
        == win_count(ms2, r2[i].0) && r2[i].2 == loss_count(ms2, r2[i].0) by {
        lemma_counts_push(ms, m, r2[i].0, r2[i].0);
        match name_index(r1, l) {
            Some(j) => {
                if i != j {
                    assert(r2[i] == r1[i]);
                    assert(r1[i].0 != l) by {
                        if i < j {
                            assert(r1[i].0 != r1[j].0);
                        } else {
                            assert(r1[j].0 != r1[i].0);
                        }
                    }
                }
            },
            None => {
                if i < r1.len() {
                    assert(r2[i] == r1[i]);
                }
            },
        }
    }
    assert forall|f: Seq<char>| #[trigger] fought(ms2, f) implies exists|i: int|
        0 <= i < r2.len() && (#[trigger] r2[i]).0 == f by {
        lemma_fought_push(ms, m, f);
        if f == l {
            match name_index(r1, l) {
                Some(j) => {
                    assert(r2[j].0 == f);
                },
                None => {
                    assert(r2[r1.len() as int].0 == f);
                },
            }
        } else {
            let i = choose|i: int| 0 <= i < r1.len() && (#[trigger] r1[i]).0 == f;
            match name_index(r1, l) {
                Some(j) => {
                    assert(r2[i].0 == f);
                },
                None => {
                    assert(r2[i] == r1[i]);
                },
            }
        }
    }
}

/// Each fighter's overall record over the matches: one record per fighter
/// that fought, with its wins and losses.
pub fn fighter_records(matches: &[ArenaRecentMatch]) -> (r: Vec<FighterRecord>)
    requires
        matches@.len() <= u32::MAX,
    ensures
        records_of(record_views(r@), match_views(matches@)),
        wins_total(record_views(r@)) == matches@.len(),
        losses_total(record_views(r@)) == matches@.len(),
{
    let ghost ms = match_views(matches@);
    let mut rs: Vec<FighterRecord> = Vec::new();
    let mut i: usize = 0;
    assert(ms.take(0) =~= Seq::<MatchView>::empty());
    while i < matches.len()
        invariant
            i <= matches@.len() <= u32::MAX,
            ms == match_views(matches@),
            records_of(record_views(rs@), ms.take(i as int)),
        decreases matches@.len() - i,
    {
        let m = &matches[i];
        let loser = if m.winner == m.fighter_a {
            m.fighter_b.clone()
        } else {
            m.fighter_a.clone()
        };
        let ghost pre = ms.take(i as int);
        let ghost mv = ms[i as int];
        let ghost r0 = record_views(rs@);
        proof {
            assert(loser@ == loser_of(mv));
            assert(ms.take(i + 1) =~= pre.push(mv));
            assert forall|k: int| 0 <= k < rs@.len() implies (#[trigger] rs@[k]).wins + 1
                <= u32::MAX && rs@[k].losses + 1 <= u32::MAX by {
                lemma_counts_bound(pre, r0[k].0, r0[k].0);
            }
        }
        bump_fighter(&mut rs, &m.winner, 1, 0);
        proof {
            assert forall|q: int| 0 <= q < r0.len() implies (#[trigger] r0[q]).2 <= pre.len() by {
                lemma_counts_bound(pre, r0[q].0, r0[q].0);
            }
            lemma_bump_record_losses(r0, mv.2, pre.len() as int);
            assert forall|q: int| 0 <= q < rs@.len() implies (#[trigger] rs@[q]).wins + 0
                <= u32::MAX && rs@[q].losses + 1 <= u32::MAX by {
                assert(record_views(rs@)[q].2 == rs@[q].losses);
            }
        }
        bump_fighter(&mut rs, &loser, 0, 1);
        proof {
            lemma_records_step(r0, pre, mv);
        }
        i = i + 1;
    }
    assert(ms.take(matches@.len() as int) =~= ms);
    proof {
        lemma_records_add_up(record_views(rs@), ms);
    }
    rs
}


/// Newest first: by time descending, then by recording order descending.
pub open spec fn recent_key(m: ArenaRecentMatch, index: int) -> Seq<i128> {
    text_key_desc(m.fought_at@) + seq![(-index) as i128]
}

pub open spec fn recent_keys(ms: Seq<ArenaRecentMatch>) -> Seq<Seq<i128>> {
    Seq::new(ms.len(), |i: int| recent_key(ms[i], i))
}

/// The latest results, newest first (by time, then by recording order), at
/// most [`RECENT_LIMIT`] of them. `matches` are in recording order.
pub fn recent_matches(matches: Vec<ArenaRecentMatch>) -> (r: Vec<ArenaRecentMatch>)
    requires
        matches@.len() <= i64::MAX,
    ensures
        exists|s: Seq<ArenaRecentMatch>|
            stably_sorted(s, matches@, recent_keys(matches@)) && r@ == s.take(
                if s.len() < RECENT_LIMIT {
                    s.len() as int
                } else {
                    RECENT_LIMIT as int
                },
            ),
{
    let ghost ms = matches@;
    let mut keys: Vec<Vec<i128>> = Vec::new();
    let mut i: usize = 0;
    while i < matches.len()
        invariant
            i <= matches@.len() <= i64::MAX,
            ms == matches@,
            key_views(keys@) == recent_keys(ms).take(i as int),
        decreases matches@.len() - i,
    {
        let mut k: Vec<i128> = Vec::new();
        push_text_key(&mut k, matches[i].fought_at.as_str(), true);
        k.push(-(i as i128));
        proof {
            assert(k@ =~= recent_key(ms[i as int], i as int));
        }
        let ghost before = keys@;
        keys.push(k);
        proof {
            assert(keys@ =~= before.push(k));
            assert(key_views(keys@) =~= key_views(before).push(k@));
            assert(recent_keys(ms).take(i + 1) =~= recent_keys(ms).take(i as int).push(
                recent_key(ms[i as int], i as int),
            ));
        }
        i = i + 1;
    }
    proof {
        assert(key_views(keys@) =~= recent_keys(ms));
    }
    let mut sorted = sort_by_keys(matches, keys);
    let ghost s = sorted@;
    sorted.truncate(RECENT_LIMIT);
    proof {
        let p = choose|p: Seq<int>|
            crate::sort::stable_order(recent_keys(ms), p) && crate::sort::arranged(s, ms, p);
        assert(stably_sorted(s, ms, recent_keys(ms)));
        if s.len() < RECENT_LIMIT {
            assert(s.take(s.len() as int) =~= s);
        }
    }
    sorted
}

} // verus!
