//! Weighted choice of a player and ordering of players by effective rating.
use crate::draws::draw_below;
use vstd::prelude::*;

verus! {

/// Weight of slot `i` once the exempt slot, if any, is zeroed.
pub open spec fn weight_at(ratios: Seq<u64>, exempt: Option<usize>, i: int) -> int {
    if exempt == Some(i as usize) {
        0
    } else {
        ratios[i] as int
    }
}

/// Sum of the weights of the first `k` slots.
pub open spec fn prefix_weight(ratios: Seq<u64>, exempt: Option<usize>, k: int) -> int
    decreases k,
{
    if k <= 0 {
        0
    } else {
        prefix_weight(ratios, exempt, k - 1) + weight_at(ratios, exempt, k - 1)
    }
}

pub open spec fn total_weight(ratios: Seq<u64>, exempt: Option<usize>) -> int {
    prefix_weight(ratios, exempt, ratios.len() as int)
}

/// Number of slots a zero-weight choice is made among: every slot but the
/// exempt one, or all of them where nothing else is left.
pub open spec fn fallback_count(len: int, exempt: Option<usize>) -> int {
    match exempt {
        Some(e) => if e < len && len > 1 { len - 1 } else { len },
        None => len,
    }
}

/// The `draw`-th slot of the zero-weight fallback, skipping the exempt slot.
pub open spec fn fallback_pick(len: int, exempt: Option<usize>, draw: int) -> int {
    match exempt {
        Some(e) => if e < len && len > 1 && draw >= e { draw + 1 } else { draw },
        None => draw,
    }
}

proof fn lemma_prefix_monotone(ratios: Seq<u64>, exempt: Option<usize>, j: int, k: int)
    requires
        0 <= j <= k,
    ensures
        prefix_weight(ratios, exempt, j) <= prefix_weight(ratios, exempt, k),
    decreases k - j,
{
    if j < k {
        lemma_prefix_monotone(ratios, exempt, j, k - 1);
        assert(weight_at(ratios, exempt, k - 1) >= 0);
    }
}

/// Weights each at most `bound` sum to at most `k * bound`.
pub proof fn lemma_prefix_bound(ratios: Seq<u64>, exempt: Option<usize>, k: int, bound: int)
    requires
        0 <= k <= ratios.len(),
        0 <= bound,
        forall|i: int| 0 <= i < ratios.len() ==> ratios[i] <= bound,
    ensures
        0 <= prefix_weight(ratios, exempt, k) <= k * bound,
    decreases k,
{
    if k > 0 {
        lemma_prefix_bound(ratios, exempt, k - 1, bound);
        assert(0 <= weight_at(ratios, exempt, k - 1) <= bound);
        assert((k - 1) * bound + bound == k * bound) by (nonlinear_arith);
        assert(0 <= (k - 1) * bound) by (nonlinear_arith)
            requires
                k >= 1,
                bound >= 0,
        ;
    }
}

/// Resolves a weighted choice from a draw already made: with a positive total
/// the result is the slot whose cumulative interval holds `draw`; with a zero
/// total it is the `draw`-th non-exempt slot.
pub fn pick_from_draw(ratios: &Vec<u64>, exempt: Option<usize>, draw: u64) -> (r: usize)
    requires
        ratios.len() > 0,
        total_weight(ratios@, exempt) <= u64::MAX,
        total_weight(ratios@, exempt) > 0 ==> draw < total_weight(ratios@, exempt),
        total_weight(ratios@, exempt) == 0 ==> draw < fallback_count(ratios.len() as int, exempt),
    ensures
        r < ratios.len(),
        total_weight(ratios@, exempt) > 0 ==> prefix_weight(ratios@, exempt, r as int) <= draw
            < prefix_weight(ratios@, exempt, r + 1),
        total_weight(ratios@, exempt) > 0 ==> weight_at(ratios@, exempt, r as int) > 0,
        total_weight(ratios@, exempt) == 0 ==> r == fallback_pick(
            ratios.len() as int,
            exempt,
            draw as int,
        ),
{
    let total = sum_weights(ratios, exempt);
    if total == 0 {
        match exempt {
            Some(e) => {
                if e < ratios.len() && ratios.len() > 1 && draw >= e as u64 {
                    (draw + 1) as usize
                } else {
                    draw as usize
                }
            },
            None => draw as usize,
        }
    } else {
        let mut running: u64 = 0;
        let mut i: usize = 0;
        while i < ratios.len()
            invariant
                i <= ratios.len(),
                total == total_weight(ratios@, exempt),
                total <= u64::MAX,
                draw < total,
                running == prefix_weight(ratios@, exempt, i as int),
                running <= draw,
            decreases ratios.len() - i,
        {
            proof {
                lemma_prefix_monotone(ratios@, exempt, i + 1, ratios.len() as int);
            }
            let w: u64 = if exempt == Some(i) {
                0
            } else {
                ratios[i]
            };
            running = running + w;
            if draw < running {
                return i;
            }
            i = i + 1;
        }
        proof {
            assert(running == total);
        }
        0
    }
}

fn sum_weights(ratios: &Vec<u64>, exempt: Option<usize>) -> (s: u64)
    requires
        total_weight(ratios@, exempt) <= u64::MAX,
    ensures
        s == total_weight(ratios@, exempt),
{
    let mut s: u64 = 0;
    let mut i: usize = 0;
    while i < ratios.len()
        invariant
            i <= ratios.len(),
            total_weight(ratios@, exempt) <= u64::MAX,
            s == prefix_weight(ratios@, exempt, i as int),
        decreases ratios.len() - i,
    {
        proof {
            lemma_prefix_monotone(ratios@, exempt, i + 1, ratios.len() as int);
        }
        let w: u64 = if exempt == Some(i) {
            0
        } else {
            ratios[i]
        };
        s = s + w;
        i = i + 1;
    }
    s
}

/// Weighted choice of a slot: draws uniformly over the total weight, the
/// exempt slot's weight counting as zero. A zero total falls back to a
/// uniform choice among the non-exempt slots, and never fails.
pub fn pick_player(ratios: &Vec<u64>, exempt: Option<usize>, rng: &mut rand::rngs::StdRng) -> (r:
    usize)
    requires
        ratios.len() > 0,
        total_weight(ratios@, exempt) <= u64::MAX,
    ensures
        r < ratios.len(),
        total_weight(ratios@, exempt) > 0 ==> weight_at(ratios@, exempt, r as int) > 0,
        total_weight(ratios@, exempt) == 0 && fallback_count(ratios.len() as int, exempt)
            < ratios.len() ==> exempt != Some(r),
{
    let total = sum_weights(ratios, exempt);
    if total == 0 {
        let n: u64 = match exempt {
            Some(e) => if e < ratios.len() && ratios.len() > 1 {
                (ratios.len() - 1) as u64
            } else {
                ratios.len() as u64
            },
            None => ratios.len() as u64,
        };
        let draw = draw_below(rng, n);
        pick_from_draw(ratios, exempt, draw)
    } else {
        let draw = draw_below(rng, total);
        pick_from_draw(ratios, exempt, draw)
    }
}

/// `a` rates strictly below `b`; an ineligible player (`None`) rates below
/// every eligible one.
pub open spec fn ovr_lt(a: Option<u64>, b: Option<u64>) -> bool {
    match (a, b) {
        (None, Some(_)) => true,
        (Some(x), Some(y)) => x < y,
        _ => false,
    }
}

/// The strict order by (rating, index) that the rotation walks the court in.
pub open spec fn key_lt(ovrs: Seq<Option<u64>>, i: int, j: int) -> bool {
    ovr_lt(ovrs[i], ovrs[j]) || (ovrs[i] == ovrs[j] && i < j)
}

/// `r` lists each index of `ovrs` exactly once, weakest first, ties broken by
/// the lower index.
pub open spec fn is_rating_order(ovrs: Seq<Option<u64>>, r: Seq<usize>) -> bool {
    &&& r.len() == ovrs.len()
    &&& r.no_duplicates()
    &&& forall|k: int| 0 <= k < r.len() ==> r[k] < ovrs.len()
    &&& forall|j: usize| j < ovrs.len() ==> #[trigger] r.contains(j)
    &&& forall|a: int, b: int| 0 <= a < b < r.len() ==> key_lt(ovrs, r[a] as int, r[b] as int)
}

fn ovr_less(a: Option<u64>, b: Option<u64>) -> (r: bool)
    ensures
        r == ovr_lt(a, b),
{
    match (a, b) {
        (None, Some(_)) => true,
        (Some(x), Some(y)) => x < y,
        _ => false,
    }
}

/// Indexes of `ovrs` ordered from the weakest rating to the strongest, ties
/// in index order: a stable, total order with no repeated or missing index.
pub fn get_sorted_indexes(ovrs: &Vec<Option<u64>>) -> (r: Vec<usize>)
    ensures
        is_rating_order(ovrs@, r@),
{
    let mut r: Vec<usize> = Vec::new();
    let mut i: usize = 0;
    while i < ovrs.len()
        invariant
            i <= ovrs.len(),
            r.len() == i,
            r@.no_duplicates(),
            forall|k: int| 0 <= k < r.len() ==> r[k] < i,
            forall|j: usize| j < i ==> #[trigger] r@.contains(j),
            forall|a: int, b: int| 0 <= a < b < r.len() ==> key_lt(ovrs@, r[a] as int, r[b] as int),
        decreases ovrs.len() - i,
    {
        let mut p: usize = 0;
        while p < r.len() && !ovr_less(ovrs[i], ovrs[r[p]])
            invariant
                p <= r.len(),
                r.len() == i,
                i < ovrs.len(),
                forall|k: int| 0 <= k < r.len() ==> r[k] < i,
                forall|q: int| 0 <= q < p ==> !ovr_lt(ovrs@[i as int], ovrs@[r[q] as int]),
            decreases r.len() - p,
        {
            p = p + 1;
        }
        proof {
            // Everything from `p` on rates strictly above the new index.
            assert forall|q: int| p <= q < r.len() implies ovr_lt(
                ovrs@[i as int],
                ovrs@[r[q] as int],
            ) by {
                if q > p {
                    assert(key_lt(ovrs@, r[p as int] as int, r[q] as int));
                }
            }
        }
        let ghost old_r = r@;
        r.insert(p, i);
        proof {
            assert(r@ == old_r.insert(p as int, i));
            assert forall|j: usize| j <= i implies #[trigger] r@.contains(j) by {
                if j < i {
                    assert(old_r.contains(j));
                    let k = choose|k: int| 0 <= k < old_r.len() && old_r[k] == j;
                    if k < p {
                        assert(r@[k] == j);
                    } else {
                        assert(r@[k + 1] == j);
                    }
                } else {
                    assert(r@[p as int] == i);
                }
            }
            assert forall|a: int, b: int| 0 <= a < b < r.len() implies key_lt(
                ovrs@,
                r[a] as int,
                r[b] as int,
            ) by {
                if b < p {
                } else if b == p {
                    assert(!ovr_lt(ovrs@[i as int], ovrs@[old_r[a] as int]));
                } else if a < p {
                    assert(key_lt(ovrs@, old_r[a] as int, old_r[b - 1] as int) || a == b - 1);
                    assert(!ovr_lt(ovrs@[i as int], ovrs@[old_r[a] as int]));
                    assert(ovr_lt(ovrs@[i as int], ovrs@[old_r[b - 1] as int]));
                } else if a == p {
                    assert(ovr_lt(ovrs@[i as int], ovrs@[old_r[b - 1] as int]));
                } else {
                    assert(key_lt(ovrs@, old_r[a - 1] as int, old_r[b - 1] as int));
                }
            }
            assert forall|x: int, y: int| 0 <= x < y < r.len() implies r@[x] != r@[y] by {
                if x < p && y > p {
                    assert(r@[y] == old_r[y - 1]);
                } else if x > p {
                    assert(old_r[x - 1] != old_r[y - 1]);
                } else if x < p && y < p {
                    assert(old_r[x] != old_r[y]);
                }
            }
        }
        i = i + 1;
    }
    r
}

} // verus!
