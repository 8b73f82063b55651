//! Casino roulette outcome history.
//!
//! Only outcomes reach the logs (`Roulette ball ended on N!`); the player's
//! own bet never does. Every observed winning number is kept, and the
//! dashboard shows how often each number came up and the latest spin.
use vstd::prelude::*;

use crate::text::{chars_of, lex_lt, lemma_lex_total, lemma_lex_trans, less_than};

verus! {

/// Count of spins that landed on a given number.
pub struct RouletteNumberCount {
    pub number: u32,
    pub count: u32,
}

/// Aggregate roulette outcome history.
pub struct RouletteStats {
    /// Total spins observed.
    pub total: u32,
    /// Per-number counts, ascending by number (only numbers that appeared).
    pub counts: Vec<RouletteNumberCount>,
    /// `YYYY-MM-DD HH:MM:SS` of the most recent spin, if any.
    pub last_spun_at: Option<String>,
    /// The most recent winning number, if any.
    pub last_number: Option<u32>,
}

/// One recorded spin.
pub struct RouletteSpin {
    pub spun_at: String,
    pub number: u32,
}

/// How many of `numbers` equal `n`.
pub open spec fn count_of(numbers: Seq<u32>, n: u32) -> nat
    decreases numbers.len(),
{
    if numbers.len() == 0 {
        0
    } else {
        count_of(numbers.drop_last(), n) + if numbers.last() == n {
            1nat
        } else {
            0nat
        }
    }
}

pub open spec fn spin_numbers(spins: Seq<RouletteSpin>) -> Seq<u32> {
    spins.map_values(|s: RouletteSpin| s.number)
}

pub open spec fn count_pairs(counts: Seq<RouletteNumberCount>) -> Seq<(u32, u32)> {
    counts.map_values(|c: RouletteNumberCount| (c.number, c.count))
}

/// One entry per number that came up, ascending by number, with how often
/// it came up.
pub open spec fn tallies(counts: Seq<(u32, u32)>, numbers: Seq<u32>) -> bool {
    &&& forall|i: int, j: int| 0 <= i < j < counts.len() ==> #[trigger] counts[i].0 < #[trigger] counts[j].0
    &&& forall|i: int| 0 <= i < counts.len() ==> #[trigger] counts[i].1 == count_of(numbers, counts[i].0)
    &&& forall|i: int| 0 <= i < counts.len() ==> numbers.contains(#[trigger] counts[i].0)
    &&& forall|n: u32| #[trigger] numbers.contains(n) ==> exists|i: int| 0 <= i < counts.len() && counts[i].0 == n
}

/// Spin `i` is the most recent: no spin has a later time, and of the spins
/// at the same time it was recorded last.
pub open spec fn is_latest(spins: Seq<RouletteSpin>, i: int) -> bool {
    &&& 0 <= i < spins.len()
    &&& forall|j: int|
        0 <= j < spins.len() && j != i ==> lex_lt(#[trigger] spins[j].spun_at@, spins[i].spun_at@) || (
        spins[j].spun_at@ == spins[i].spun_at@ && j < i)
}

proof fn lemma_count_push(numbers: Seq<u32>, x: u32, n: u32)
    ensures
        count_of(numbers.push(x), n) == count_of(numbers, n) + if x == n {
            1nat
        } else {
            0nat
        },
{
    assert(numbers.push(x).drop_last() =~= numbers);
}

proof fn lemma_count_absent(numbers: Seq<u32>, n: u32)
    requires
        !numbers.contains(n),
    ensures
        count_of(numbers, n) == 0,
    decreases numbers.len(),
{
    if numbers.len() > 0 {
        assert(!numbers.drop_last().contains(n)) by {
            if numbers.drop_last().contains(n) {
                let k = choose|k: int| 0 <= k < numbers.drop_last().len() && numbers.drop_last()[k] == n;
                assert(numbers[k] == n);
            }
        }
        assert(numbers.last() == numbers[numbers.len() - 1]);
        lemma_count_absent(numbers.drop_last(), n);
    }
}

proof fn lemma_count_bound(numbers: Seq<u32>, n: u32)
    ensures
        count_of(numbers, n) <= numbers.len(),
    decreases numbers.len(),
{
    if numbers.len() > 0 {
        lemma_count_bound(numbers.drop_last(), n);
    }
}

/// Sum of the counts.
pub open spec fn counts_total(c: Seq<(u32, u32)>) -> int
    decreases c.len(),
{
    if c.len() == 0 {
        0
    } else {
        counts_total(c.drop_last()) + c.last().1
    }
}

proof fn lemma_total_remove(c: Seq<(u32, u32)>, k: int)
    requires
        0 <= k < c.len(),
    ensures
        counts_total(c.remove(k)) == counts_total(c) - c[k].1,
    decreases c.len(),
{
    if k == c.len() - 1 {
        assert(c.remove(k) =~= c.drop_last());
    } else {
        lemma_total_remove(c.drop_last(), k);
        assert(c.remove(k).drop_last() =~= c.drop_last().remove(k));
        assert(c.remove(k).last() == c.last());
    }
}

proof fn lemma_total_update(c: Seq<(u32, u32)>, k: int, v: (u32, u32))
    requires
        0 <= k < c.len(),
    ensures
        counts_total(c.update(k, v)) == counts_total(c) - c[k].1 + v.1,
    decreases c.len(),
{
    if k == c.len() - 1 {
        assert(c.update(k, v).drop_last() =~= c.drop_last());
    } else {
        lemma_total_update(c.drop_last(), k, v);
        assert(c.update(k, v).drop_last() =~= c.drop_last().update(k, v));
    }
}

proof fn lemma_count_present(numbers: Seq<u32>, n: u32)
    requires
        numbers.contains(n),
    ensures
        count_of(numbers, n) >= 1,
    decreases numbers.len(),
{
    if numbers.last() != n {
        let k = choose|k: int| 0 <= k < numbers.len() && numbers[k] == n;
        assert(numbers.drop_last()[k] == n);
        lemma_count_present(numbers.drop_last(), n);
    }
}

/// The counts add up to the total: every spin is counted once, under its
/// number.
pub proof fn lemma_counts_add_up(counts: Seq<(u32, u32)>, numbers: Seq<u32>)
    requires
        tallies(counts, numbers),
    ensures
        counts_total(counts) == numbers.len(),
    decreases numbers.len(),
{
    if numbers.len() == 0 {
        if counts.len() > 0 {
            assert(numbers.contains(counts[0].0));
        }
    } else {
        let ns = numbers.drop_last();
        let x = numbers.last();
        assert(numbers.drop_last() == ns);
        assert(numbers.contains(x)) by {
            assert(numbers[numbers.len() - 1] == x);
        }
        let k = choose|k: int| 0 <= k < counts.len() && counts[k].0 == x;
        assert(counts[k].1 == count_of(numbers, x));
        assert(forall|n: u32| #[trigger] count_of(numbers, n) == count_of(ns, n) + if x == n {
            1int
        } else {
            0int
        });
        assert forall|n: u32| #[trigger] numbers.contains(n) && n != x implies ns.contains(n) by {
            let q = choose|q: int| 0 <= q < numbers.len() && numbers[q] == n;
            assert(q < numbers.len() - 1);
            assert(ns[q] == n);
        }
        assert forall|n: u32| #[trigger] ns.contains(n) implies numbers.contains(n) by {
            let q = choose|q: int| 0 <= q < ns.len() && ns[q] == n;
            assert(numbers[q] == n);
        }
        if count_of(ns, x) == 0 {
            let c2 = counts.remove(k);
            assert(!ns.contains(x)) by {
                if ns.contains(x) {
                    lemma_count_present(ns, x);
                }
            }
            assert forall|i: int, j: int| 0 <= i < j < c2.len() implies #[trigger] c2[i].0 < #[trigger] c2[j].0 by {
                let i2 = if i < k { i } else { i + 1 };
                let j2 = if j < k { j } else { j + 1 };
                assert(c2[i] == counts[i2]);
                assert(c2[j] == counts[j2]);
            }
            assert forall|i: int| 0 <= i < c2.len() implies (#[trigger] c2[i]).1 == count_of(ns, c2[i].0) && ns.contains(c2[i].0) by {
                let i2 = if i < k { i } else { i + 1 };
                assert(c2[i] == counts[i2]);
                if i2 < k {
                    assert(counts[i2].0 < counts[k].0);
                } else {
                    assert(counts[k].0 < counts[i2].0);
                }
                assert(numbers.contains(counts[i2].0));
            }
            assert forall|n: u32| #[trigger] ns.contains(n) implies exists|i: int| 0 <= i < c2.len() && c2[i].0 == n by {
                assert(numbers.contains(n));
                let q = choose|q: int| 0 <= q < counts.len() && counts[q].0 == n;
                assert(q != k);
                if q < k {
                    assert(c2[q] == counts[q]);
                } else {
                    assert(c2[q - 1] == counts[q]);
                }
            }
            lemma_counts_add_up(c2, ns);
            lemma_total_remove(counts, k);
        } else {
            let v = (x, (counts[k].1 - 1) as u32);
            let c2 = counts.update(k, v);
            assert forall|i: int, j: int| 0 <= i < j < c2.len() implies #[trigger] c2[i].0 < #[trigger] c2[j].0 by {
                assert(c2[i].0 == counts[i].0);
                assert(c2[j].0 == counts[j].0);
            }
            assert forall|i: int| 0 <= i < c2.len() implies (#[trigger] c2[i]).1 == count_of(ns, c2[i].0) && ns.contains(c2[i].0) by {
                if i == k {
                    assert(ns.contains(x)) by {
                        if !ns.contains(x) {
                            lemma_count_absent(ns, x);
                        }
                    }
                } else {
                    assert(c2[i] == counts[i]);
                    if i < k {
                        assert(counts[i].0 < counts[k].0);
                    } else {
                        assert(counts[k].0 < counts[i].0);
                    }
                    assert(numbers.contains(counts[i].0));
                }
            }
            assert forall|n: u32| #[trigger] ns.contains(n) implies exists|i: int| 0 <= i < c2.len() && c2[i].0 == n by {
                assert(numbers.contains(n));
                let q = choose|q: int| 0 <= q < counts.len() && counts[q].0 == n;
                assert(c2[q].0 == n);
            }
            lemma_counts_add_up(c2, ns);
            lemma_total_update(counts, k, v);
        }
    }
}

/// Adds one spin of `x` to the tallies of `numbers`.
fn tally(counts: &mut Vec<RouletteNumberCount>, x: u32, Ghost(numbers): Ghost<Seq<u32>>)
    requires
        tallies(count_pairs(old(counts)@), numbers),
        numbers.len() < u32::MAX,
    ensures
        tallies(count_pairs(final(counts)@), numbers.push(x)),
{
    let ghost c0 = count_pairs(counts@);
    let ghost nn = numbers.push(x);
    proof {
        assert forall|m: u32| #![auto] true implies count_of(nn, m) == count_of(numbers, m) + if x == m {
            1nat
        } else {
            0nat
        } by {
            lemma_count_push(numbers, x, m);
        }
        lemma_count_bound(numbers, x);
    }
    let mut k: usize = 0;
    while k < counts.len()
        invariant
            k <= counts@.len(),
            c0 == count_pairs(counts@),
            forall|j: int| 0 <= j < k ==> c0[j].0 < x,
        ensures
            k <= counts@.len(),
            forall|j: int| 0 <= j < k ==> c0[j].0 < x,
            k < counts@.len() ==> c0[k as int].0 >= x,
        decreases counts@.len() - k,
    {
        if counts[k].number >= x {
            break;
        }
        k = k + 1;
    }
    if k < counts.len() && counts[k].number == x {
        let c = counts[k].count;
        proof {
            assert(c0[k as int].1 == count_of(numbers, x));
        }
        counts.set(k, RouletteNumberCount { number: x, count: c + 1 });
        proof {
            let c1 = count_pairs(counts@);
            assert(c1 =~= c0.update(k as int, (x, (c + 1) as u32)));
            assert forall|n: u32| #[trigger] nn.contains(n) implies exists|i: int|
                0 <= i < c1.len() && c1[i].0 == n by {
                if n == x {
                    assert(c1[k as int].0 == n);
                } else {
                    let q = choose|q: int| 0 <= q < nn.len() && nn[q] == n;
                    assert(numbers[q] == n);
                    assert(numbers.contains(n));
                    let i = choose|i: int| 0 <= i < c0.len() && c0[i].0 == n;
                    assert(c1[i].0 == n);
                }
            }
            assert forall|i: int| 0 <= i < c1.len() implies nn.contains(#[trigger] c1[i].0) by {
                if i == k {
                    assert(nn[numbers.len() as int] == x);
                } else {
                    assert(numbers.contains(c0[i].0));
                    let q = choose|q: int| 0 <= q < numbers.len() && numbers[q] == c0[i].0;
                    assert(nn[q] == c0[i].0);
                }
            }
        }
    } else {
        proof {
            assert(!numbers.contains(x)) by {
                if numbers.contains(x) {
                    let i = choose|i: int| 0 <= i < c0.len() && c0[i].0 == x;
                    if i < k {
                        assert(c0[i].0 < x);
                    } else if i > k {
                        assert(c0[k as int].0 < c0[i].0);
                    }
                }
            }
            lemma_count_absent(numbers, x);
        }
        counts.insert(k, RouletteNumberCount { number: x, count: 1 });
        proof {
            let c1 = count_pairs(counts@);
            assert(c1 =~= c0.insert(k as int, (x, 1u32)));
            assert forall|i: int, j: int| 0 <= i < j < c1.len() implies #[trigger] c1[i].0
                < #[trigger] c1[j].0 by {
                if i < k && j == k {
                } else if i < k && j > k {
                    assert(c1[j] == c0[j - 1]);
                    if j - 1 > k {
                        assert(c0[k as int].0 < c0[j - 1].0);
                    }
                } else if i == k {
                    assert(c1[j] == c0[j - 1]);
                    if j - 1 > k {
                        assert(c0[k as int].0 < c0[j - 1].0);
                    }
                } else if i > k {
                    assert(c1[i] == c0[i - 1]);
                    assert(c1[j] == c0[j - 1]);
                }
            }
            assert forall|i: int| 0 <= i < c1.len() implies #[trigger] c1[i].1 == count_of(nn, c1[i].0) by {
                if i > k {
                    assert(c1[i] == c0[i - 1]);
                }
                if i < k {
                    assert(c1[i] == c0[i]);
                }
            }
            assert forall|n: u32| #[trigger] nn.contains(n) implies exists|i: int|
                0 <= i < c1.len() && c1[i].0 == n by {
                if n == x {
                    assert(c1[k as int].0 == n);
                } else {
                    let q = choose|q: int| 0 <= q < nn.len() && nn[q] == n;
                    assert(numbers[q] == n);
                    assert(numbers.contains(n));
                    let i = choose|i: int| 0 <= i < c0.len() && c0[i].0 == n;
                    if i < k {
                        assert(c1[i].0 == n);
                    } else {
                        assert(c1[i + 1].0 == n);
                    }
                }
            }
            assert forall|i: int| 0 <= i < c1.len() implies nn.contains(#[trigger] c1[i].0) by {
                if i == k {
                    assert(nn[numbers.len() as int] == x);
                } else {
                    let ci = if i < k {
                        c0[i]
                    } else {
                        c0[i - 1]
                    };
                    assert(c1[i] == ci);
                    assert(numbers.contains(ci.0));
                    let q = choose|q: int| 0 <= q < numbers.len() && numbers[q] == ci.0;
                    assert(nn[q] == ci.0);
                }
            }
        }
    }
}

/// Aggregates the recorded spins (in the order they were recorded) into the
/// outcome statistics: the total, the count per number that came up in
/// ascending order of number, and the most recent spin (latest time, the
/// last recorded one among spins at that time).
pub fn roulette_stats(spins: &[RouletteSpin]) -> (r: RouletteStats)
    requires
        spins@.len() <= u32::MAX,
    ensures
        r.total == spins@.len(),
        r.total == counts_total(count_pairs(r.counts@)),
        tallies(count_pairs(r.counts@), spin_numbers(spins@)),
        spins@.len() == 0 ==> r.last_spun_at is None && r.last_number is None,
        spins@.len() > 0 ==> exists|i: int|
            is_latest(spins@, i) && r.last_spun_at == Some(spins@[i].spun_at) && r.last_number
                == Some(spins@[i].number),
{
    let ghost nums = spin_numbers(spins@);
    let mut counts: Vec<RouletteNumberCount> = Vec::new();
    let mut best: usize = 0;
    let mut best_text: Vec<char> = Vec::new();
    let mut i: usize = 0;
    while i < spins.len()
        invariant
            i <= spins@.len(),
            spins@.len() <= u32::MAX,
            nums == spin_numbers(spins@),
            tallies(count_pairs(counts@), nums.take(i as int)),
            i > 0 ==> best < i && best_text@ == spins@[best as int].spun_at@,
            i > 0 ==> forall|j: int|
                0 <= j < i && j != best ==> lex_lt(#[trigger] spins@[j].spun_at@, spins@[best as int].spun_at@)
                    || (spins@[j].spun_at@ == spins@[best as int].spun_at@ && j < best),
        decreases spins@.len() - i,
    {
        proof {
            assert(nums.take(i + 1) =~= nums.take(i as int).push(spins@[i as int].number));
        }
        tally(&mut counts, spins[i].number, Ghost(nums.take(i as int)));
        let t = chars_of(spins[i].spun_at.as_str());
        if i == 0 || !less_than(&t, &best_text) {
            proof {
                if i > 0 {
                    let cur = spins@[i as int].spun_at@;
                    let b = spins@[best as int].spun_at@;
                    lemma_lex_total(cur, b);
                    assert forall|j: int| 0 <= j < i + 1 && j != i implies lex_lt(
                        #[trigger] spins@[j].spun_at@,
                        cur,
                    ) || (spins@[j].spun_at@ == cur && j < i) by {
                        if j != best {
                            if lex_lt(spins@[j].spun_at@, b) {
                                if b != cur {
                                    lemma_lex_trans(spins@[j].spun_at@, b, cur);
                                }
                            }
                        }
                        if spins@[j].spun_at@ != cur {
                            lemma_lex_total(spins@[j].spun_at@, cur);
                            if lex_lt(cur, spins@[j].spun_at@) {
                                if j == best {
                                } else if lex_lt(spins@[j].spun_at@, b) {
                                    lemma_lex_trans(cur, spins@[j].spun_at@, b);
                                }
                            }
                        }
                    }
                }
            }
            best = i;
            best_text = t;
        } else {
            proof {
                let cur = spins@[i as int].spun_at@;
                let b = spins@[best as int].spun_at@;
                assert(lex_lt(cur, b));
            }
        }
        i = i + 1;
    }
    proof {
        assert(nums.take(spins@.len() as int) =~= nums);
        lemma_counts_add_up(count_pairs(counts@), nums);
    }
    if spins.len() == 0 {
        RouletteStats { total: 0, counts, last_spun_at: None, last_number: None }
    } else {
        proof {
            assert(is_latest(spins@, best as int));
        }
        RouletteStats {
            total: spins.len() as u32,
            counts,
            last_spun_at: Some(spins[best].spun_at.clone()),
            last_number: Some(spins[best].number),
        }
    }
}

} // verus!
