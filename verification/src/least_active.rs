//! Least-active load balancing: among the invokers with the fewest calls in
//! flight, pick one: the only one when there is one; otherwise one drawn by
//! weight when their weights differ and some is positive, or one drawn
//! uniformly.
use crate::url::{Url, UrlView};
use rand::RngCore;
use vstd::prelude::*;
use vstd::string::*;

verus! {

/// A value of `rand::thread_rng().next_u32()`. Nothing is claimed of it.
#[verifier::external_body]
fn random_u32() -> u32 {
    rand::thread_rng().next_u32()
}

/// The sum of the first `k` weights.
pub open spec fn weight_prefix(weights: Seq<usize>, k: int) -> int
    decreases k,
{
    if k <= 0 {
        0
    } else {
        weight_prefix(weights, k - 1) + weights[k - 1]
    }
}

/// Invoker `i` has the fewest calls in flight.
pub open spec fn is_least_active(actives: Seq<usize>, i: int) -> bool {
    &&& 0 <= i < actives.len()
    &&& forall|j: int| 0 <= j < actives.len() ==> actives[i] <= #[trigger] actives[j]
}

/// Invoker `i` alone has the fewest calls in flight.
pub open spec fn only_least_active(actives: Seq<usize>, i: int) -> bool {
    &&& 0 <= i < actives.len()
    &&& forall|j: int| 0 <= j < actives.len() && j != i ==> actives[i] < #[trigger] actives[j]
}

/// The fewest calls in flight among the first `n` invokers (`n >= 1`).
pub open spec fn min_prefix(actives: Seq<usize>, n: int) -> usize
    decreases n,
{
    if n <= 1 {
        actives[0]
    } else {
        let m = min_prefix(actives, n - 1);
        if actives[n - 1] < m {
            actives[n - 1]
        } else {
            m
        }
    }
}

/// The positions, in order, among the first `n`, of the invokers with `m`
/// calls in flight.
pub open spec fn indexes_with(actives: Seq<usize>, m: usize, n: int) -> Seq<usize>
    decreases n,
{
    if n <= 0 {
        Seq::<usize>::empty()
    } else {
        let p = indexes_with(actives, m, n - 1);
        if actives[n - 1] == m {
            p.push((n - 1) as usize)
        } else {
            p
        }
    }
}

/// The positions, in order, of the invokers with the fewest calls in
/// flight.
pub open spec fn least_positions(actives: Seq<usize>) -> Seq<usize> {
    indexes_with(actives, min_prefix(actives, actives.len() as int), actives.len() as int)
}

/// The sum of the weights of the invokers at positions `idx`.
pub open spec fn weight_sum_of(weights: Seq<usize>, idx: Seq<usize>) -> int
    decreases idx.len(),
{
    if idx.len() == 0 {
        0
    } else {
        weight_sum_of(weights, idx.drop_last()) + weights[idx.last() as int]
    }
}

/// The invokers at positions `idx` all have the weight of the first.
pub open spec fn same_weights(weights: Seq<usize>, idx: Seq<usize>) -> bool {
    forall|k: int| 0 <= k < idx.len() ==> weights[#[trigger] idx[k] as int] == weights[idx[0] as int]
}

/// The weighted choice among the positions `least`, from the `k`th on, with
/// `off` left of the draw: the first whose weight exceeds what is left, the
/// weights of those passed over being taken off; `None` when none does.
pub open spec fn weighted_pick(weights: Seq<usize>, least: Seq<usize>, off: int, k: int) -> Option<usize>
    decreases least.len() - k,
{
    if k < 0 || k >= least.len() {
        None
    } else if off < weights[least[k] as int] {
        Some(least[k])
    } else {
        weighted_pick(weights, least, off - weights[least[k] as int], k + 1)
    }
}

/// The position picked with draws `r1` and `r2` among the invokers with the
/// fewest calls in flight (`least_positions`): the only one when there is
/// one; when their weights differ and add up to a positive total, the one
/// at which `r1` modulo the total falls within the running sum of their
/// weights; otherwise the one at `r2` modulo their number.
pub open spec fn least_active_pick(actives: Seq<usize>, weights: Seq<usize>, r1: u32, r2: u32) -> usize {
    let least = least_positions(actives);
    let total = weight_sum_of(weights, least);
    let uniform = least[(r2 as int) % (least.len() as int)];
    if least.len() == 1 {
        least[0]
    } else if !same_weights(weights, least) && total > 0 {
        match weighted_pick(weights, least, (r1 as int) % total, 0) {
            Some(i) => i,
            None => uniform,
        }
    } else {
        uniform
    }
}

proof fn lemma_indexes_with_none(actives: Seq<usize>, m: usize, n: int)
    requires
        0 <= n <= actives.len(),
        forall|j: int| 0 <= j < n ==> actives[j] != m,
    ensures
        indexes_with(actives, m, n) == Seq::<usize>::empty(),
    decreases n,
{
    if n > 0 {
        lemma_indexes_with_none(actives, m, n - 1);
    }
}

proof fn lemma_weight_prefix_mono(weights: Seq<usize>, a: int, b: int)
    requires
        0 <= a <= b <= weights.len(),
    ensures
        weight_prefix(weights, a) <= weight_prefix(weights, b),
    decreases b - a,
{
    if a < b {
        lemma_weight_prefix_mono(weights, a, b - 1);
    }
}

/// The index of the invoker picked with draws `r1` (by weight) and `r2`
/// (uniform), given the calls in flight and the weight of each invoker: the
/// one `least_active_pick` gives. It has the fewest calls in flight, and it
/// is the only such invoker when exactly one has them. The weights must add
/// up within `usize`.
pub fn least_active_index(actives: &Vec<usize>, weights: &Vec<usize>, r1: u32, r2: u32) -> (r: usize)
    requires
        actives@.len() > 0,
        actives@.len() == weights@.len(),
        weight_prefix(weights@, weights@.len() as int) <= usize::MAX,
    ensures
        r == least_active_pick(actives@, weights@, r1, r2),
        is_least_active(actives@, r as int),
        forall|i: int| only_least_active(actives@, i) ==> r == i,
{
    let n = actives.len();
    let mut least_active: usize = usize::MAX;
    let mut least_indexes: Vec<usize> = Vec::new();
    let mut total_weight: usize = 0;
    let mut first_weight: usize = 0;
    let mut same_weight: bool = true;
    let mut i: usize = 0;
    while i < n
        invariant
            n == actives@.len(),
            n == weights@.len(),
            weight_prefix(weights@, n as int) <= usize::MAX,
            i <= n,
            i > 0 ==> least_indexes@.len() > 0,
            i == 0 ==> least_indexes@.len() == 0,
            forall|k: int| 0 <= k < least_indexes@.len() ==> (#[trigger] least_indexes@[k]) < i
                && actives@[least_indexes@[k] as int] == least_active,
            forall|j: int| 0 <= j < i ==> least_active <= #[trigger] actives@[j],
            forall|j: int| 0 <= j < i && actives@[j] == least_active ==> #[trigger] least_indexes@.contains(j as usize),
            total_weight <= weight_prefix(weights@, i as int),
            i > 0 ==> least_active == min_prefix(actives@, i as int),
            least_indexes@ == indexes_with(actives@, least_active, i as int),
            total_weight == weight_sum_of(weights@, least_indexes@),
            least_indexes@.len() > 0 ==> first_weight == weights@[least_indexes@[0] as int],
            same_weight == same_weights(weights@, least_indexes@),
        decreases n - i,
    {
        proof {
            lemma_weight_prefix_mono(weights@, i + 1, n as int);
        }
        let active = actives[i];
        let after_warmup = weights[i];
        if i == 0 || active < least_active {
            least_active = active;
            least_indexes = Vec::new();
            least_indexes.push(i);
            total_weight = after_warmup;
            first_weight = after_warmup;
            same_weight = true;
            proof {
                assert(least_indexes@[0] == i);
                assert forall|j: int| 0 <= j < i + 1 && actives@[j] == least_active implies #[trigger] least_indexes@.contains(j as usize) by {
                    assert(j == i);
                    assert(least_indexes@[0] == j as usize);
                }
                lemma_indexes_with_none(actives@, active, i as int);
                assert(least_indexes@ =~= indexes_with(actives@, least_active, i + 1));
                assert(least_indexes@.drop_last() =~= Seq::<usize>::empty());
                assert(weight_sum_of(weights@, least_indexes@) == weight_sum_of(weights@, least_indexes@.drop_last())
                    + weights@[i as int]);
                assert(same_weights(weights@, least_indexes@));
            }
        } else if active == least_active {
            let ghost prev = least_indexes@;
            least_indexes.push(i);
            total_weight = total_weight + after_warmup;
            if same_weight && after_warmup != first_weight {
                same_weight = false;
            }
            proof {
                assert(least_indexes@.drop_last() =~= prev);
                assert(weight_sum_of(weights@, least_indexes@) == weight_sum_of(weights@, prev) + weights@[i as int]);
                assert(least_indexes@ =~= indexes_with(actives@, least_active, i + 1));
                assert(least_indexes@[0] == prev[0]);
                assert(same_weight == same_weights(weights@, least_indexes@)) by {
                    if same_weights(weights@, least_indexes@) {
                        assert forall|k: int| 0 <= k < prev.len() implies weights@[#[trigger] prev[k] as int]
                            == weights@[prev[0] as int] by {
                            assert(least_indexes@[k] == prev[k]);
                        }
                        assert(least_indexes@[prev.len() as int] == i);
                    }
                    if same_weight {
                        assert forall|k: int| 0 <= k < least_indexes@.len() implies weights@[
                            #[trigger] least_indexes@[k] as int] == weights@[least_indexes@[0] as int] by {
                            if k < prev.len() {
                                assert(least_indexes@[k] == prev[k]);
                            }
                        }
                    }
                }
                assert forall|k: int| 0 <= k < least_indexes@.len() implies (#[trigger] least_indexes@[k]) < i + 1
                    && actives@[least_indexes@[k] as int] == least_active by {
                    if k < prev.len() {
                        assert(least_indexes@[k] == prev[k]);
                    }
                }
                assert forall|j: int| 0 <= j < i + 1 && actives@[j] == least_active implies #[trigger] least_indexes@.contains(j as usize) by {
                    if j < i {
                        assert(prev.contains(j as usize));
                        let k = choose|k: int| 0 <= k < prev.len() && prev[k] == j as usize;
                        assert(least_indexes@[k] == j as usize);
                    } else {
                        assert(least_indexes@[prev.len() as int] == j as usize);
                    }
                }
            }
        }
        i = i + 1;
    }
    let least_count = least_indexes.len();
    assert(least_indexes@ == least_positions(actives@));
    proof {
        assert forall|k: int| 0 <= k < least_indexes@.len() implies is_least_active(actives@, #[trigger] least_indexes@[k] as int) by {
            let x = least_indexes@[k] as int;
            assert forall|j: int| 0 <= j < actives@.len() implies actives@[x] <= #[trigger] actives@[j] by {}
        }
        assert forall|x: int| only_least_active(actives@, x) implies forall|k: int| 0 <= k < least_indexes@.len() ==> #[trigger] least_indexes@[k] == x by {
            assert forall|k: int| 0 <= k < least_indexes@.len() implies #[trigger] least_indexes@[k] == x by {
                let y = least_indexes@[k] as int;
                if y != x {
                    assert(actives@[x] < actives@[y]);
                    assert(actives@[y] <= actives@[x]);
                }
            }
        }
    }
    if least_count == 1 {
        return least_indexes[0];
    }
    if !same_weight && total_weight > 0 {
        let mut offset_weight: usize = (r1 as usize) % total_weight;
        let ghost drawn: int = (r1 as int) % (total_weight as int);
        let mut k: usize = 0;
        while k < least_count
            invariant
                weighted_pick(weights@, least_indexes@, drawn, 0) == weighted_pick(
                    weights@,
                    least_indexes@,
                    offset_weight as int,
                    k as int,
                ),
                least_indexes@ == least_positions(actives@),
                total_weight == weight_sum_of(weights@, least_indexes@),
                !same_weights(weights@, least_indexes@),
                total_weight > 0,
                least_count != 1,
                drawn == (r1 as int) % (total_weight as int),
                least_count == least_indexes@.len(),
                k <= least_count,
                n == weights@.len(),
                n == actives@.len(),
                forall|m: int| 0 <= m < least_indexes@.len() ==> (#[trigger] least_indexes@[m]) < n,
                forall|m: int| 0 <= m < least_indexes@.len() ==> is_least_active(actives@, #[trigger] least_indexes@[m] as int),
                forall|x: int| only_least_active(actives@, x) ==> forall|m: int| 0 <= m < least_indexes@.len() ==> #[trigger] least_indexes@[m] == x,
            decreases least_count - k,
        {
            let least_index = least_indexes[k];
            let w = weights[least_index];
            if offset_weight < w {
                proof {
                    assert(is_least_active(actives@, least_indexes@[k as int] as int));
                    assert forall|x: int| only_least_active(actives@, x) implies least_index == x by {
                        assert(least_indexes@[k as int] == x);
                    }
                }
                return least_index;
            }
            offset_weight = offset_weight - w;
            k = k + 1;
        }
    }
    let random_index = (r2 as usize) % least_count;
    least_indexes[random_index]
}

/// The least-active policy.
#[derive(Debug, Clone)]
pub struct LeastActive {
    pub name: String,
}

impl LeastActive {
    /// The policy named `least_active`.
    pub fn new() -> (l: LeastActive)
        ensures
            l.name@ == seq!['l', 'e', 'a', 's', 't', '_', 'a', 'c', 't', 'i', 'v', 'e'],
    {
        proof {
            reveal_strlit("least_active");
            assert("least_active"@ =~= seq!['l', 'e', 'a', 's', 't', '_', 'a', 'c', 't', 'i', 'v', 'e']);
        }
        LeastActive { name: String::from_str("least_active") }
    }

    /// One of the invokers with the fewest calls in flight, given the calls
    /// in flight and the weight of each; the only one when exactly one has
    /// them. The draws come from the thread's generator. There must be an
    /// invoker, and the weights must add up within `usize`.
    pub fn do_select(&mut self, invokers: &Vec<Url>, actives: &Vec<usize>, weights: &Vec<usize>) -> (r: Option<Url>)
        requires
            invokers@.len() > 0,
            invokers@.len() == actives@.len(),
            actives@.len() == weights@.len(),
            weight_prefix(weights@, weights@.len() as int) <= usize::MAX,
        ensures
            r matches Some(u) && exists|r1: u32, r2: u32|
                u@ == invokers@[#[trigger] least_active_pick(actives@, weights@, r1, r2) as int]@,
            r matches Some(u) && exists|i: int| is_least_active(actives@, i) && u@ == invokers@[i]@,
            forall|i: int| only_least_active(actives@, i) ==> (r matches Some(u) && u@ == invokers@[i]@),
            final(self).name == old(self).name,
    {
        let r1 = random_u32();
        let r2 = random_u32();
        let i = least_active_index(actives, weights, r1, r2);
        let u = invokers[i].copy();
        assert(is_least_active(actives@, i as int));
        Some(u)
    }
}

} // verus!
