//! Combat Wisdom award history: per-monster cooldown rows.
//!
//! Combat Wisdom is awarded for killing notable monsters. The log never
//! states a monster's class, so its reuse cooldown is derived empirically:
//! the shortest real gap (at least a minute, to skip duplicate emits)
//! observed between two consecutive awards for it.
use vstd::prelude::*;

use crate::sort::{key_views, sort_by_keys, stably_sorted};

verus! {

/// Per-monster aggregate for the cooldown list.
pub struct CombatWisdomMonster {
    pub name: String,
    pub verb: String,
    /// Epoch milliseconds of the most recent award.
    pub last_earned_ms: i64,
    pub count: u32,
    pub total_amount: i64,
    /// Smallest gap (seconds, at least 60) ever observed between two
    /// consecutive awards; `None` until such a gap exists.
    pub min_gap_secs: Option<i64>,
}

/// One persisted monster award, its local timestamp already read as epoch
/// milliseconds.
pub struct AwardRow {
    pub name: String,
    pub verb: String,
    pub earned_ms: i64,
    pub amount: i64,
}

/// Awards closer together than this are one kill reported twice.
pub const MIN_REAL_GAP_SECS: i64 = 60;

/// (name, verb, earned ms, amount)
pub type AwardView = (Seq<char>, Seq<char>, int, int);

/// (name, verb, last earned ms, count, total amount, minimum gap)
pub type MonsterView = (Seq<char>, Seq<char>, int, int, int, Option<int>);

pub open spec fn award_view(r: AwardRow) -> AwardView {
    (r.name@, r.verb@, r.earned_ms as int, r.amount as int)
}

pub open spec fn award_views(rows: Seq<AwardRow>) -> Seq<AwardView> {
    rows.map_values(|r: AwardRow| award_view(r))
}

pub open spec fn monster_view(m: CombatWisdomMonster) -> MonsterView {
    (
        m.name@,
        m.verb@,
        m.last_earned_ms as int,
        m.count as int,
        m.total_amount as int,
        match m.min_gap_secs {
            Some(g) => Some(g as int),
            None => None,
        },
    )
}

pub open spec fn monster_views(ms: Seq<CombatWisdomMonster>) -> Seq<MonsterView> {
    ms.map_values(|m: CombatWisdomMonster| monster_view(m))
}

/// Whole seconds between two instants, truncated toward zero.
pub open spec fn gap_secs(from_ms: int, to_ms: int) -> int {
    let d = to_ms - from_ms;
    if d >= 0 {
        d / 1000
    } else {
        -((-d) / 1000)
    }
}

/// The minimum gap after observing a gap of `gap` seconds.
pub open spec fn next_min_gap(min_gap: Option<int>, gap: int) -> Option<int> {
    if gap >= MIN_REAL_GAP_SECS {
        match min_gap {
            Some(m) => Some(if gap < m {
                gap
            } else {
                m
            }),
            None => Some(gap),
        }
    } else {
        min_gap
    }
}

/// Folds the awards, in the order given, into one row per run of
/// consecutive awards for the same monster: the latest verb and award time,
/// the number of awards, their total amount and the smallest real gap
/// between consecutive awards.
pub open spec fn fold_awards(rows: Seq<AwardView>) -> Seq<MonsterView>
    decreases rows.len(),
{
    if rows.len() == 0 {
        Seq::empty()
    } else {
        let acc = fold_awards(rows.drop_last());
        let r = rows.last();
        if acc.len() > 0 && acc.last().0 == r.0 {
            let m = acc.last();
            acc.drop_last().push(
                (
                    m.0,
                    r.1,
                    r.2,
                    m.3 + 1,
                    m.4 + r.3,
                    next_min_gap(m.5, gap_secs(m.2, r.2)),
                ),
            )
        } else {
            acc.push((r.0, r.1, r.2, 1, r.3, None))
        }
    }
}

/// Total number of awards the rows count.
pub open spec fn count_sum(ms: Seq<MonsterView>) -> int
    decreases ms.len(),
{
    if ms.len() == 0 {
        0
    } else {
        count_sum(ms.drop_last()) + ms.last().3
    }
}

/// Every row of the fold counts at least one award, and a minimum gap, once
/// there is one, is a real one: never under [`MIN_REAL_GAP_SECS`].
pub proof fn lemma_gaps_are_real(rows: Seq<AwardView>)
    ensures
        forall|i: int|
            0 <= i < fold_awards(rows).len() ==> (#[trigger] fold_awards(rows)[i]).3 >= 1 && (
            fold_awards(rows)[i].5 matches Some(g) ==> g >= MIN_REAL_GAP_SECS),
    decreases rows.len(),
{
    if rows.len() > 0 {
        lemma_gaps_are_real(rows.drop_last());
        let acc = fold_awards(rows.drop_last());
        let f = fold_awards(rows);
        assert forall|i: int| 0 <= i < f.len() implies (#[trigger] f[i]).3 >= 1 && (
        f[i].5 matches Some(g) ==> g >= MIN_REAL_GAP_SECS) by {
            if acc.len() > 0 && acc.last().0 == rows.last().0 {
                if i < acc.len() - 1 {
                    assert(f[i] == acc[i]);
                } else {
                    assert(acc.last() == acc[acc.len() - 1]);
                }
            } else {
                if i < acc.len() {
                    assert(f[i] == acc[i]);
                }
            }
        }
    }
}

/// Every award is counted once: the counts of the fold add up to the
/// number of awards.
pub proof fn lemma_every_award_counted(rows: Seq<AwardView>)
    ensures
        count_sum(fold_awards(rows)) == rows.len(),
    decreases rows.len(),
{
    if rows.len() > 0 {
        lemma_every_award_counted(rows.drop_last());
        let acc = fold_awards(rows.drop_last());
        let f = fold_awards(rows);
        if acc.len() > 0 && acc.last().0 == rows.last().0 {
            assert(f.drop_last() =~= acc.drop_last());
        } else {
            assert(f.drop_last() =~= acc);
        }
    }
}

/// Every intermediate row of the fold fits the result's field types, and
/// every gap computed between consecutive awards of one monster fits an
/// `i64`.
pub open spec fn awards_fit(rows: Seq<AwardView>) -> bool {
    &&& forall|k: int, i: int|
        0 <= k <= rows.len() && 0 <= i < fold_awards(rows.take(k)).len() ==> {
            let m = #[trigger] fold_awards(rows.take(k))[i];
            &&& m.3 <= u32::MAX
            &&& i64::MIN <= m.4 <= i64::MAX
        }
    &&& forall|i: int|
        0 < i < rows.len() && #[trigger] rows[i].0 == rows[i - 1].0 ==> i64::MIN <= rows[i].2
            - rows[i - 1].2 <= i64::MAX
}

/// The sort key that lists the most recently earned first.
pub open spec fn recency_key(m: MonsterView) -> Seq<i128> {
    seq![(-m.2) as i128]
}

pub open spec fn recency_keys(ms: Seq<MonsterView>) -> Seq<Seq<i128>> {
    ms.map_values(|m: MonsterView| recency_key(m))
}

fn fold_step(m: CombatWisdomMonster, r: &AwardRow) -> (n: CombatWisdomMonster)
    requires
        m.count < u32::MAX,
        i64::MIN <= m.total_amount + r.amount <= i64::MAX,
        i64::MIN <= r.earned_ms - m.last_earned_ms <= i64::MAX,
    ensures
        monster_view(n) == (
            monster_view(m).0,
            r.verb@,
            r.earned_ms as int,
            m.count + 1,
            m.total_amount + r.amount,
            next_min_gap(monster_view(m).5, gap_secs(m.last_earned_ms as int, r.earned_ms as int)),
        ),
{
    let d = r.earned_ms - m.last_earned_ms;
    let gap: i64 = if d >= 0 {
        d / 1000
    } else {
        -((-(d as i128) / 1000) as i64)
    };
    let min_gap = if gap >= MIN_REAL_GAP_SECS {
        match m.min_gap_secs {
            Some(g) => Some(
                if gap < g {
                    gap
                } else {
                    g
                },
            ),
            None => Some(gap),
        }
    } else {
        m.min_gap_secs
    };
    CombatWisdomMonster {
        name: m.name,
        verb: r.verb.clone(),
        last_earned_ms: r.earned_ms,
        count: m.count + 1,
        total_amount: m.total_amount + r.amount,
        min_gap_secs: min_gap,
    }
}

/// The per-monster rows of [`fold_awards`], in fold order.
pub fn fold_monsters(rows: &[AwardRow]) -> (out: Vec<CombatWisdomMonster>)
    requires
        awards_fit(award_views(rows@)),
    ensures
        monster_views(out@) == fold_awards(award_views(rows@)),
{
    let ghost rv = award_views(rows@);
    let mut out: Vec<CombatWisdomMonster> = Vec::new();
    let mut i: usize = 0;
    assert(rv.take(0) =~= Seq::<AwardView>::empty());
    while i < rows.len()
        invariant
            i <= rows@.len(),
            rv == award_views(rows@),
            awards_fit(rv),
            monster_views(out@) == fold_awards(rv.take(i as int)),
        decreases rows@.len() - i,
    {
        let ghost acc = fold_awards(rv.take(i as int));
        let ghost next = rv.take(i + 1);
        proof {
            assert(next.drop_last() =~= rv.take(i as int));
            assert(next.last() == rv[i as int]);
        }
        let r = &rows[i];
        let n = out.len();
        let same = n > 0 && out[n - 1].name == r.name;
        if same {
            let m = out.pop().unwrap();
            proof {
                assert(monster_views(out@) =~= acc.drop_last());
                assert(monster_view(m) == acc.last());
                assert(rv[i as int - 1].0 == acc.last().0) by {
                    lemma_fold_last(rv.take(i as int));
                    assert(rv.take(i as int).last() == rv[i as int - 1]);
                }
                let f = fold_awards(next);
                assert(f.last() == f[f.len() - 1]);
                assert(0 <= f.len() - 1 < fold_awards(rv.take(i + 1)).len());
                assert(m.count + 1 <= u32::MAX);
                assert(i64::MIN <= m.total_amount + r.amount <= i64::MAX);
                lemma_fold_last(rv.take(i as int));
                assert(rv[i as int].0 == rv[i as int - 1].0);
            }
            let nm = fold_step(m, r);
            out.push(nm);
            proof {
                assert(monster_views(out@) =~= fold_awards(next));
            }
        } else {
            let nm = CombatWisdomMonster {
                name: r.name.clone(),
                verb: r.verb.clone(),
                last_earned_ms: r.earned_ms,
                count: 1,
                total_amount: r.amount,
                min_gap_secs: None,
            };
            out.push(nm);
            proof {
                assert(monster_views(out@) =~= fold_awards(next));
            }
        }
        i = i + 1;
    }
    assert(rv.take(rows@.len() as int) =~= rv);
    out
}

/// The last row of a fold is the last award's monster, with that award's
/// time.
proof fn lemma_fold_last(rows: Seq<AwardView>)
    requires
        rows.len() > 0,
    ensures
        fold_awards(rows).len() > 0,
        fold_awards(rows).last().0 == rows.last().0,
        fold_awards(rows).last().2 == rows.last().2,
{
}

/// Awards `s..` are all for the monster of the last award.
pub open spec fn same_monster_from(rows: Seq<AwardView>, s: int) -> bool {
    forall|j: int| s <= j < rows.len() ==> (#[trigger] rows[j]).0 == rows.last().0
}

/// The cooldown of the last row of the fold is the shortest real gap
/// (at least [`MIN_REAL_GAP_SECS`]) between two consecutive awards of the
/// last monster's run: it is at most every such gap and is one of them,
/// and it is absent only when the run has no such gap.
pub proof fn lemma_min_gap_is_shortest_real_gap(rows: Seq<AwardView>)
    requires
        rows.len() > 0,
    ensures
        forall|k: int|
            0 < k < rows.len() && same_monster_from(rows, k - 1) && gap_secs(
                rows[k - 1].2,
                #[trigger] rows[k].2,
            ) >= MIN_REAL_GAP_SECS ==> fold_awards(rows).last().5 is Some && fold_awards(
                rows,
            ).last().5->0 <= gap_secs(rows[k - 1].2, rows[k].2),
        fold_awards(rows).last().5 matches Some(g) ==> exists|k: int|
            0 < k < rows.len() && same_monster_from(rows, k - 1) && g == gap_secs(
                rows[k - 1].2,
                #[trigger] rows[k].2,
            ) && g >= MIN_REAL_GAP_SECS,
    decreases rows.len(),
{
    let n = rows.len();
    let r = rows.last();
    let m = fold_awards(rows).last();
    if n == 1 {
        assert(fold_awards(rows.drop_last()) =~= Seq::<MonsterView>::empty());
    } else {
        let p = rows.drop_last();
        let acc = fold_awards(p);
        lemma_fold_last(p);
        lemma_min_gap_is_shortest_real_gap(p);
        assert(p.last() == rows[n - 2]);
        if acc.last().0 == r.0 {
            let a = acc.last();
            let last_gap = gap_secs(rows[n - 2].2, rows[n - 1].2);
            assert(m == (a.0, r.1, r.2, a.3 + 1, a.4 + r.3, next_min_gap(a.5, last_gap)));
            assert forall|k: int|
                0 < k < rows.len() && same_monster_from(rows, k - 1) && gap_secs(
                    rows[k - 1].2,
                    #[trigger] rows[k].2,
                ) >= MIN_REAL_GAP_SECS implies m.5 is Some && m.5->0 <= gap_secs(
                rows[k - 1].2,
                rows[k].2,
            ) by {
                if k < n - 1 {
                    assert forall|j: int| k - 1 <= j < p.len() implies (#[trigger] p[j]).0
                        == p.last().0 by {
                        assert(p[j] == rows[j]);
                    }
                    assert(p[k] == rows[k]);
                    assert(p[k - 1] == rows[k - 1]);
                }
            }
            if let Some(g) = m.5 {
                if a.5 is Some && last_gap >= MIN_REAL_GAP_SECS && a.5->0 <= last_gap {
                    let k = choose|k: int|
                        0 < k < p.len() && same_monster_from(p, k - 1) && a.5->0 == gap_secs(
                            p[k - 1].2,
                            #[trigger] p[k].2,
                        ) && a.5->0 >= MIN_REAL_GAP_SECS;
                    assert(p[k] == rows[k]);
                    assert(p[k - 1] == rows[k - 1]);
                    assert(same_monster_from(rows, k - 1)) by {
                        assert forall|j: int| k - 1 <= j < rows.len() implies (#[trigger] rows[j]).0
                            == rows.last().0 by {
                            if j < n - 1 {
                                assert(p[j] == rows[j]);
                            }
                        }
                    }
                } else if last_gap >= MIN_REAL_GAP_SECS {
                    assert(same_monster_from(rows, n - 2));
                    assert(g == gap_secs(rows[n - 2].2, rows[n - 1].2));
                } else {
                    let k = choose|k: int|
                        0 < k < p.len() && same_monster_from(p, k - 1) && g == gap_secs(
                            p[k - 1].2,
                            #[trigger] p[k].2,
                        ) && g >= MIN_REAL_GAP_SECS;
                    assert(p[k] == rows[k]);
                    assert(p[k - 1] == rows[k - 1]);
                    assert(same_monster_from(rows, k - 1)) by {
                        assert forall|j: int| k - 1 <= j < rows.len() implies (#[trigger] rows[j]).0
                            == rows.last().0 by {
                            if j < n - 1 {
                                assert(p[j] == rows[j]);
                            }
                        }
                    }
                }
            }
        } else {
            assert(m.5 is None);
            assert(rows[n - 2].0 != rows.last().0);
        }
    }
}

/// The total amount of awards `s..`.
pub open spec fn amount_from(rows: Seq<AwardView>, s: int) -> int
    decreases rows.len() - s,
{
    if s < 0 || s >= rows.len() {
        0
    } else {
        rows[s].3 + amount_from(rows, s + 1)
    }
}

proof fn lemma_amount_from_last(rows: Seq<AwardView>, s: int)
    requires
        0 <= s < rows.len(),
    ensures
        amount_from(rows, s) == amount_from(rows.drop_last(), s) + rows.last().3,
    decreases rows.len() - s,
{
    if s + 1 < rows.len() {
        lemma_amount_from_last(rows, s + 1);
        assert(rows.drop_last()[s] == rows[s]);
    } else {
        assert(amount_from(rows, s + 1) == 0);
        assert(amount_from(rows.drop_last(), s) == 0);
    }
}

/// The last row of the fold sums up the run of awards `s..` for the last
/// monster (the run that starts after the last award of another monster):
/// it is that monster, counts the run's awards, totals their amounts, and
/// carries the latest award's verb and time.
pub proof fn lemma_last_row_sums_its_run(rows: Seq<AwardView>, s: int)
    requires
        0 <= s < rows.len(),
        same_monster_from(rows, s),
        s == 0 || rows[s - 1].0 != rows.last().0,
    ensures
        fold_awards(rows).last().0 == rows.last().0,
        fold_awards(rows).last().1 == rows.last().1,
        fold_awards(rows).last().2 == rows.last().2,
        fold_awards(rows).last().3 == rows.len() - s,
        fold_awards(rows).last().4 == amount_from(rows, s),
    decreases rows.len(),
{
    let n = rows.len();
    let p = rows.drop_last();
    let r = rows.last();
    lemma_amount_from_last(rows, s);
    let f = fold_awards(rows);
    let acc = fold_awards(p);
    if n - 1 == s {
        assert(amount_from(p, s) == 0);
        if s > 0 {
            lemma_fold_last(p);
            assert(p.last() == rows[s - 1]);
            assert(acc.last().0 != r.0);
        } else {
            assert(p.len() == 0);
            assert(acc.len() == 0);
        }
        assert(f == acc.push((r.0, r.1, r.2, 1, r.3, None)));
        assert(f.last() == (r.0, r.1, r.2, 1int, r.3, None::<int>));
    } else {
        assert(same_monster_from(p, s)) by {
            assert forall|j: int| s <= j < p.len() implies (#[trigger] p[j]).0 == p.last().0 by {
                assert(p[j] == rows[j]);
                assert(p.last() == rows[n - 2]);
            }
        }
        if s > 0 {
            assert(p[s - 1] == rows[s - 1]);
            assert(p.last() == rows[n - 2]);
        }
        lemma_last_row_sums_its_run(p, s);
        lemma_fold_last(p);
        assert(p.last() == rows[n - 2]);
        assert(rows[n - 2].0 == r.0);
        let a = acc.last();
        assert(a.0 == r.0);
        assert(f == acc.drop_last().push(
            (a.0, r.1, r.2, a.3 + 1, a.4 + r.3, next_min_gap(a.5, gap_secs(a.2, r.2))),
        ));
        assert(f.last() == (a.0, r.1, r.2, a.3 + 1, a.4 + r.3, next_min_gap(a.5, gap_secs(a.2, r.2))));
    }
}

/// Aggregates persisted monster awards (ordered by monster, then time) into
/// per-monster cooldown rows, most recently earned first; rows earned at the
/// same instant keep their fold order.
pub fn aggregate_monsters(rows: &[AwardRow]) -> (out: Vec<CombatWisdomMonster>)
    requires
        awards_fit(award_views(rows@)),
    ensures
        stably_sorted(
            monster_views(out@),
            fold_awards(award_views(rows@)),
            recency_keys(fold_awards(award_views(rows@))),
        ),
{
    let folded = fold_monsters(rows);
    let ghost fv = monster_views(folded@);
    let mut keys: Vec<Vec<i128>> = Vec::new();
    let mut i: usize = 0;
    while i < folded.len()
        invariant
            i <= folded@.len(),
            fv == monster_views(folded@),
            key_views(keys@) == recency_keys(fv).take(i as int),
        decreases folded@.len() - i,
    {
        let mut k: Vec<i128> = Vec::new();
        k.push(-(folded[i].last_earned_ms as i128));
        proof {
            assert(k@ =~= recency_key(fv[i as int]));
        }
        let ghost before = keys@;
        keys.push(k);
        proof {
            assert(keys@ =~= before.push(k));
            assert(key_views(keys@) =~= key_views(before).push(k@));
            assert(recency_keys(fv).take(i + 1) =~= recency_keys(fv).take(i as int).push(
                recency_key(fv[i as int]),
            ));
        }
        i = i + 1;
    }
    proof {
        assert(key_views(keys@) =~= recency_keys(fv));
    }
    let sorted = sort_by_keys(folded, keys);
    proof {
        let p = choose|p: Seq<int>|
            crate::sort::stable_order(recency_keys(fv), p) && crate::sort::arranged(
                sorted@,
                folded@,
                p,
            );
        assert(crate::sort::arranged(monster_views(sorted@), fv, p));
    }
    sorted
}

} // verus!
