//! Ranking: the order of a set of candidates by a score, highest first, with
//! ties going to the smaller key.

use vstd::prelude::*;

use crate::ordered_map::{keys_ascending, rank_lt, OrderedKey};

verus! {

/// Whether the candidate at position `i` comes before the one at position
/// `j`: it has the higher score, or the same score and the earlier position.
pub open spec fn outranks(xs: Seq<u64>, i: int, j: int) -> bool {
    xs[i] > xs[j] || (xs[i] == xs[j] && i < j)
}

/// `order` lists the positions of `xs`, each once, so that each listed
/// position outranks all that follow it.
pub open spec fn is_ranking(xs: Seq<u64>, order: Seq<usize>) -> bool {
    &&& order.len() == xs.len() <= usize::MAX
    &&& forall|k: int| 0 <= k < order.len() ==> (#[trigger] order[k]) < xs.len()
    &&& forall|a: int, b: int|
        0 <= a < b < order.len() ==> outranks(xs, #[trigger] order[a] as int, #[trigger] order[b] as int)
    &&& forall|i: usize| i < xs.len() ==> #[trigger] order.contains(i)
}

/// Whether candidate `a` comes before candidate `b`: it has the higher score,
/// or the same score and the smaller key.
pub open spec fn beats<K: OrderedKey>(score_of: spec_fn(K) -> u64, a: K, b: K) -> bool {
    score_of(a) > score_of(b) || (score_of(a) == score_of(b) && rank_lt(a.rank(), b.rank()))
}

/// The number of candidates that come before `who`. The best candidate has
/// standing 0.
pub open spec fn standing<K: OrderedKey>(among: Set<K>, score_of: spec_fn(K) -> u64, who: K) -> nat {
    among.filter(|k: K| beats(score_of, k, who)).len()
}

/// In a ranking of candidates listed by ascending key, the candidate at
/// place `k` has exactly `k` candidates before it.
pub proof fn lemma_standing<K: OrderedKey>(
    ks: Seq<K>,
    xs: Seq<u64>,
    order: Seq<usize>,
    score_of: spec_fn(K) -> u64,
    k: int,
)
    requires
        ks.len() == xs.len(),
        keys_ascending(ks),
        forall|i: int| 0 <= i < ks.len() ==> score_of(#[trigger] ks[i]) == xs[i],
        is_ranking(xs, order),
        0 <= k < order.len(),
    ensures
        standing(ks.to_set(), score_of, ks[order[k] as int]) == k,
{
    let who = ks[order[k] as int];
    let ahead = Seq::new(k as nat, |a: int| ks[order[a] as int]);
    let target = ks.to_set().filter(|x: K| beats(score_of, x, who));
    assert forall|a: int, b: int| 0 <= a < ahead.len() && 0 <= b < ahead.len() && a != b implies ahead[a]
        != ahead[b] by {
        let (lo, hi) = if a < b {
            (a, b)
        } else {
            (b, a)
        };
        assert(outranks(xs, order[lo] as int, order[hi] as int));
        let i = order[lo] as int;
        let j = order[hi] as int;
        if i < j {
            assert(rank_lt(ks[i].rank(), ks[j].rank()));
        } else if j < i {
            assert(rank_lt(ks[j].rank(), ks[i].rank()));
        }
    }
    assert forall|x: K| ahead.to_set().contains(x) <==> target.contains(x) by {
        if ahead.contains(x) {
            let a = choose|a: int| 0 <= a < ahead.len() && ahead[a] == x;
            let i = order[a] as int;
            let j = order[k] as int;
            assert(outranks(xs, i, j));
            assert(ks[i] == x);
            assert(ks.contains(x));
            if i < j {
                assert(rank_lt(ks[i].rank(), ks[j].rank()));
            }
            assert(beats(score_of, x, who));
        }
        if target.contains(x) {
            assert(ks.contains(x));
            let i = choose|i: int| 0 <= i < ks.len() && ks[i] == x;
            assert(order.contains(i as usize));
            let a = choose|a: int| 0 <= a < order.len() && order[a] == i as usize;
            let j = order[k] as int;
            assert(order[a] as int == i);
            if a > k {
                assert(outranks(xs, order[k] as int, order[a] as int));
                if j < i {
                    assert(rank_lt(ks[j].rank(), ks[i].rank()));
                }
                assert(false);
            }
            if a == k {
                assert(x == who);
                assert(false);
            }
            assert(a < k);
            assert(ahead[a] == x);
        }
    }
    assert(ahead.to_set() =~= target);
    ahead.unique_seq_to_set();
}

/// The ranking of the scores `xs`: their positions, highest score first, and
/// among equal scores the earlier position first.
pub fn ranking(xs: &Vec<u64>) -> (order: Vec<usize>)
    ensures
        is_ranking(xs@, order@),
{
    let n = xs.len();
    let mut order: Vec<usize> = Vec::new();
    let mut i: usize = 0;
    while i < n
        invariant
            n == xs@.len(),
            i <= n,
            order@.len() == i,
            forall|k: int| 0 <= k < order@.len() ==> (#[trigger] order@[k]) < i,
            forall|a: int, b: int|
                0 <= a < b < order@.len() ==> outranks(
                    xs@,
                    #[trigger] order@[a] as int,
                    #[trigger] order@[b] as int,
                ),
            forall|j: usize| j < i ==> #[trigger] order@.contains(j),
        decreases n - i,
    {
        let mut p: usize = 0;
        while p < order.len() && xs[order[p]] >= xs[i]
            invariant
                n == xs@.len(),
                i < n,
                order@.len() == i,
                p <= order@.len(),
                forall|k: int| 0 <= k < order@.len() ==> (#[trigger] order@[k]) < i,
                forall|k: int| 0 <= k < p ==> xs@[(#[trigger] order@[k]) as int] >= xs@[i as int],
            decreases order@.len() - p,
        {
            p = p + 1;
        }
        let ghost before = order@;
        order.insert(p, i);
        proof {
            let after = order@;
            assert forall|k: int| p <= k < before.len() implies xs@[(#[trigger] before[k]) as int]
                < xs@[i as int] by {
                if p < k {
                    assert(outranks(xs@, before[p as int] as int, before[k] as int));
                }
            }
            assert forall|a: int, b: int| 0 <= a < b < after.len() implies outranks(
                xs@,
                #[trigger] after[a] as int,
                #[trigger] after[b] as int,
            ) by {
                let oa = if a < p {
                    a
                } else {
                    a - 1
                };
                let ob = if b < p {
                    b
                } else {
                    b - 1
                };
                if a != p && b != p {
                    assert(after[a] == before[oa]);
                    assert(after[b] == before[ob]);
                    assert(outranks(xs@, before[oa] as int, before[ob] as int));
                } else if a == p {
                    assert(after[b] == before[ob]);
                    assert(xs@[before[ob] as int] < xs@[i as int]);
                } else {
                    assert(after[a] == before[oa]);
                    assert(xs@[before[oa] as int] >= xs@[i as int]);
                    assert(before[oa] < i);
                }
            }
            assert forall|j: usize| j < i + 1 implies #[trigger] after.contains(j) by {
                if j < i {
                    assert(before.contains(j));
                    let w = choose|w: int| 0 <= w < before.len() && before[w] == j;
                    if w < p {
                        assert(after[w] == j);
                    } else {
                        assert(after[w + 1] == j);
                    }
                } else {
                    assert(after[p as int] == j);
                }
            }
            assert forall|k: int| 0 <= k < after.len() implies (#[trigger] after[k]) < i + 1 by {
                if k < p {
                    assert(after[k] == before[k]);
                } else if k > p {
                    assert(after[k] == before[k - 1]);
                }
            }
        }
        i = i + 1;
    }
    order
}

} // verus!
