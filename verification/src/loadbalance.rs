//! Choosing one invoker among several: at random, round robin per call
//! fingerprint, or by weight.
use crate::invocation::RpcInvocation;
use crate::keyed::{first_pos, lemma_first_pos, lemma_first_pos_at, lemma_first_pos_none, named, put_named};
use crate::single_router::urls_view;
use crate::url::{Url, UrlView};
use rand::distributions::Distribution;
use rand::Rng;
use vstd::arithmetic::div_mod::{lemma_fundamental_div_mod, lemma_fundamental_div_mod_converse, lemma_mod_bound};
use vstd::prelude::*;
use vstd::string::*;

verus! {

#[verifier::external_type_specification]
#[verifier::external_body]
pub struct ExStdRng(rand::rngs::StdRng);

/// A value of `rand::random::<usize>()`. Nothing is claimed of it: it comes
/// from the thread's random generator.
#[verifier::external_body]
fn random_usize() -> usize {
    rand::random::<usize>()
}

/// The sum of the weights.
pub open spec fn weight_sum(w: Seq<u32>) -> int
    decreases w.len(),
{
    if w.len() == 0 {
        0
    } else {
        weight_sum(w.drop_last()) + w.last()
    }
}

/// `WeightedIndex::new(weights).ok().map(|d| d.sample(rng))` from `rand`.
/// Its source shows: an error (here `None`) exactly when there is no weight
/// or they sum to zero; otherwise the sample is the first index whose
/// running sum exceeds a uniform draw below the total, so an index whose
/// weight is positive. Which index comes out rests on the generator. The
/// running sum must fit in `u32` (it is added up with `+=`).
#[verifier::external_body]
pub fn weighted_index(weights: &[u32], rng: &mut rand::rngs::StdRng) -> (r: Option<usize>)
    requires
        weight_sum(weights@) <= u32::MAX,
    ensures
        match r {
            Some(i) => i < weights@.len() && weights@[i as int] > 0,
            None => weight_sum(weights@) == 0,
        },
{
    rand::distributions::WeightedIndex::new(weights).ok().map(|d| d.sample(rng))
}

/// `rng.gen_range(0..n)`: an index below `n`, drawn from the generator.
#[verifier::external_body]
fn uniform_index(n: usize, rng: &mut rand::rngs::StdRng) -> (r: usize)
    requires
        n > 0,
    ensures
        r < n,
{
    rng.gen_range(0..n)
}

/// An index drawn by weight, or uniformly when every weight is zero.
pub fn weighted_random_index(weights: &[u32], rng: &mut rand::rngs::StdRng) -> (r: usize)
    requires
        weights@.len() > 0,
        weight_sum(weights@) <= u32::MAX,
    ensures
        r < weights@.len(),
        weight_sum(weights@) > 0 ==> weights@[r as int] > 0,
{
    match weighted_index(weights, rng) {
        Some(i) => i,
        None => uniform_index(weights.len(), rng),
    }
}

/// Spreads calls at random by the invokers' weights.
#[derive(Debug, Clone, Copy, Default)]
pub struct RandomLoadBalancer {}

impl RandomLoadBalancer {
    /// The position of the invoker a call goes to, given the invokers'
    /// weights: drawn by weight, or uniformly when every weight is zero.
    pub fn select_invokers(&self, weights: &[u32], rng: &mut rand::rngs::StdRng) -> (r: usize)
        requires
            weights@.len() > 0,
            weight_sum(weights@) <= u32::MAX,
        ensures
            r < weights@.len(),
            weight_sum(weights@) > 0 ==> weights@[r as int] > 0,
    {
        weighted_random_index(weights, rng)
    }
}

/// The balancers a call can be spread with.
#[derive(Debug, Clone, Copy, PartialEq, Eq)]
pub enum BalancerKind {
    /// By weight, at random.
    Random,
    /// The better of two drawn at random.
    P2c,
}

/// The balancer named `loadbalancer`: `random` is the weighted random one;
/// any other name, `p2c` among them, is the power-of-two-choices one.
pub fn get_loadbalancer(loadbalancer: &str) -> (k: BalancerKind)
    ensures
        k == (if loadbalancer@ == "random"@ {
            BalancerKind::Random
        } else {
            BalancerKind::P2c
        }),
{
    if String::from_str(loadbalancer) == String::from_str("random") {
        BalancerKind::Random
    } else {
        BalancerKind::P2c
    }
}

/// The name of a load balancing policy.
#[derive(Debug, Clone, Default)]
pub struct Metadata {
    pub name: String,
}

impl Metadata {
    /// The metadata of the policy `name`.
    pub fn new(name: &str) -> (m: Metadata)
        ensures
            m.name@ == name@,
    {
        Metadata { name: String::from_str(name) }
    }
}

/// The invoker at `index % len`, `None` when there is none.
pub fn pick(invokers: &Vec<Url>, index: usize) -> (r: Option<Url>)
    ensures
        match r {
            Some(u) => invokers@.len() > 0 && u@ == invokers@[index as int % invokers@.len() as int]@,
            None => invokers@.len() == 0,
        },
{
    if invokers.len() == 0 {
        return None;
    }
    Some(invokers[index % invokers.len()].copy())
}

/// Uniformly random choice.
#[derive(Debug)]
pub struct RandomLoadBalance {
    pub metadata: Metadata,
}

impl RandomLoadBalance {
    /// The policy named `random`.
    pub fn default() -> (r: RandomLoadBalance)
        ensures
            r.metadata.name@ == seq!['r', 'a', 'n', 'd', 'o', 'm'],
    {
        proof {
            reveal_strlit("random");
            assert("random"@ =~= seq!['r', 'a', 'n', 'd', 'o', 'm']);
        }
        RandomLoadBalance { metadata: Metadata::new("random") }
    }

    /// One of the invokers, drawn at random; `None` when there is none.
    pub fn select(&self, invokers: &Vec<Url>, _url: Option<Url>, _invocation: &RpcInvocation) -> (r: Option<Url>)
        ensures
            match r {
                Some(u) => exists|i: int| 0 <= i < invokers@.len() && u@ == (#[trigger] invokers@[i])@,
                None => invokers@.len() == 0,
            },
    {
        let draw = random_usize();
        let r = pick(invokers, draw);
        proof {
            if invokers@.len() > 0 {
                let i = draw as int % invokers@.len() as int;
                assert(u_of(r)@ == invokers@[i]@);
            }
        }
        r
    }
}

spec fn u_of(r: Option<Url>) -> Url {
    r->0
}

pub open spec fn counters_view(v: Seq<(String, usize)>) -> Seq<(Seq<char>, usize)> {
    v.map_values(|e: (String, usize)| (e.0@, e.1))
}

/// The counter of `key` after a selection: one more, wrapping at the top,
/// starting from zero for a new key.
pub open spec fn counter_of(cs: Seq<(Seq<char>, usize)>, key: Seq<char>) -> usize {
    match named(cs, key) {
        Some(c) => c,
        None => 0,
    }
}

/// What a round-robin selection does: with invokers, the one at the call
/// fingerprint's counter modulo their number, the counter moving on by one
/// (wrapping at the top); without, nothing, and nothing changes. The name
/// stays.
pub open spec fn rr_picked(
    before: RoundRobinLoadBalance,
    after: RoundRobinLoadBalance,
    invokers: Seq<Url>,
    invocation: RpcInvocation,
    r: Option<Url>,
) -> bool {
    let key = invocation.service_view() + seq!['#'] + invocation.method_view();
    let c = counter_of(counters_view(before.counter_map@), key);
    &&& after.metadata == before.metadata
    &&& match r {
        Some(u) => invokers.len() > 0 && u@ == invokers[c as int % invokers.len() as int]@
            && counters_view(after.counter_map@) == put_named(
                counters_view(before.counter_map@),
                key,
                if c == usize::MAX { 0usize } else { (c + 1) as usize },
            ),
        None => invokers.len() == 0 && after.counter_map == before.counter_map,
    }
}

/// Round robin per call fingerprint (`service#method`).
#[derive(Debug)]
pub struct RoundRobinLoadBalance {
    pub metadata: Metadata,
    pub counter_map: Vec<(String, usize)>,
}

impl RoundRobinLoadBalance {
    /// The policy named `roundrobin`, with no counter.
    pub fn default() -> (r: RoundRobinLoadBalance)
        ensures
            r.metadata.name@ == seq!['r', 'o', 'u', 'n', 'd', 'r', 'o', 'b', 'i', 'n'],
            r.counter_map@.len() == 0,
    {
        proof {
            reveal_strlit("roundrobin");
            assert("roundrobin"@ =~= seq!['r', 'o', 'u', 'n', 'd', 'r', 'o', 'b', 'i', 'n']);
        }
        RoundRobinLoadBalance { metadata: Metadata::new("roundrobin"), counter_map: Vec::new() }
    }

    /// The position of the counter of `key`, adding one at zero when there
    /// is none.
    fn guarantee_counter_key(&mut self, key: &String) -> (p: usize)
        ensures
            p < final(self).counter_map@.len(),
            final(self).counter_map@[p as int].0@ == key@,
            counters_view(final(self).counter_map@) == (if first_pos(counters_view(old(self).counter_map@), key@) < 0 {
                counters_view(old(self).counter_map@).push((key@, 0usize))
            } else {
                counters_view(old(self).counter_map@)
            }),
            first_pos(counters_view(final(self).counter_map@), key@) == p,
            final(self).metadata == old(self).metadata,
    {
        let ghost cs = counters_view(self.counter_map@);
        let mut pos: usize = 0;
        while pos < self.counter_map.len() && self.counter_map[pos].0 != *key
            invariant
                cs == counters_view(self.counter_map@),
                pos <= self.counter_map@.len(),
                forall|j: int| 0 <= j < pos ==> (#[trigger] cs[j]).0 != key@,
            decreases self.counter_map@.len() - pos,
        {
            assert(cs[pos as int].0 == self.counter_map@[pos as int].0@);
            pos = pos + 1;
        }
        if pos < self.counter_map.len() {
            proof {
                assert(cs[pos as int].0 == self.counter_map@[pos as int].0@);
                lemma_first_pos_at(cs, key@, pos as int);
            }
            pos
        } else {
            proof {
                lemma_first_pos_none(cs, key@);
            }
            self.counter_map.push((key.clone(), 0));
            proof {
                let after = counters_view(self.counter_map@);
                assert(after =~= cs.push((key@, 0usize)));
                assert forall|j: int| 0 <= j < pos implies (#[trigger] after[j]).0 != key@ by {
                    assert(after[j] == cs[j]);
                }
                lemma_first_pos_at(after, key@, pos as int);
            }
            pos
        }
    }

    /// The next invoker in turn for the call's fingerprint: the one at the
    /// fingerprint's counter modulo their number; the counter then moves on
    /// by one. `None`, with nothing changed, when there is no invoker.
    pub fn select(&mut self, invokers: &Vec<Url>, _url: Option<Url>, invocation: &RpcInvocation) -> (r: Option<Url>)
        ensures
            rr_picked(*old(self), *final(self), invokers@, *invocation, r),
    {
        if invokers.len() == 0 {
            return None;
        }
        let fingerprint = invocation.unique_fingerprint();
        let ghost before = counters_view(self.counter_map@);
        let p = self.guarantee_counter_key(&fingerprint);
        let ghost mid = counters_view(self.counter_map@);
        let c = self.counter_map[p].1;
        proof {
            if first_pos(before, fingerprint@) >= 0 {
                assert(mid == before);
            } else {
                lemma_first_pos(before, fingerprint@);
                assert forall|j: int| 0 <= j < before.len() implies (#[trigger] mid[j]).0 != fingerprint@ by {
                    assert(mid[j] == before[j]);
                }
                lemma_first_pos_at(mid, fingerprint@, before.len() as int);
                assert(mid[p as int].1 == 0);
            }
        }
        assert(c == counter_of(before, fingerprint@));
        let next = c.wrapping_add(1);
        let key = self.counter_map[p].0.clone();
        self.counter_map.set(p, (key, next));
        proof {
            let after = counters_view(self.counter_map@);
            assert(after =~= mid.update(p as int, (fingerprint@, next)));
            if first_pos(before, fingerprint@) < 0 {
                assert(after =~= before.push((fingerprint@, next)));
            }
        }
        pick(invokers, c)
    }
}

/// The slot of the `k`-th selection from counter `c` over `n` invokers.
pub open spec fn rr_slot(c: int, k: int, n: int) -> int {
    (c + k) % n
}

/// Some selection among the next `n` from counter `c` lands on `i`.
pub open spec fn rr_visited(c: int, n: int, i: int) -> bool {
    exists|k: int| 0 <= k < n && #[trigger] rr_slot(c, k, n) == i
}

/// Round robin: `n` selections from counter `c` over `n` invokers visit
/// every invoker exactly once.
pub proof fn law_round_robin_covers(c: int, n: int)
    requires
        c >= 0,
        n > 0,
    ensures
        forall|i: int| 0 <= i < n ==> #[trigger] rr_visited(c, n, i),
        forall|k1: int, k2: int| 0 <= k1 < n && 0 <= k2 < n && k1 != k2 ==> #[trigger] rr_slot(c, k1, n) != #[trigger] rr_slot(c, k2, n),
{
    assert forall|i: int| 0 <= i < n implies #[trigger] rr_visited(c, n, i) by {
        let k = (i + n - (c % n)) % n;
        lemma_mod_shift(c, i, n);
        assert(0 <= k < n && rr_slot(c, k, n) == i);
    }
    assert forall|k1: int, k2: int| 0 <= k1 < n && 0 <= k2 < n && k1 != k2 implies #[trigger] rr_slot(c, k1, n) != #[trigger] rr_slot(c, k2, n) by {
        lemma_mod_distinct(c, k1, k2, n);
    }
}

proof fn lemma_mod_shift(c: int, i: int, n: int)
    requires
        c >= 0,
        n > 0,
        0 <= i < n,
    ensures
        0 <= (i + n - (c % n)) % n < n,
        (c + (i + n - (c % n)) % n) % n == i,
{
    let r = c % n;
    let q = c / n;
    lemma_fundamental_div_mod(c, n);
    lemma_mod_bound(c, n);
    let t = i + n - r;
    assert(0 < t < 2 * n);
    if t < n {
        lemma_fundamental_div_mod_converse(t, n, 0, t);
        let k = t % n;
        assert(k == t);
        assert(c + k == (q + 1) * n + i) by (nonlinear_arith)
            requires
                c == n * q + r,
                k == i + n - r,
        ;
        lemma_fundamental_div_mod_converse(c + k, n, q + 1, i);
    } else {
        lemma_fundamental_div_mod_converse(t, n, 1, t - n);
        let k = t % n;
        assert(c + k == q * n + i) by (nonlinear_arith)
            requires
                c == n * q + r,
                k == i - r,
        ;
        lemma_fundamental_div_mod_converse(c + k, n, q, i);
    }
}

proof fn lemma_mod_distinct(c: int, k1: int, k2: int, n: int)
    requires
        c >= 0,
        n > 0,
        0 <= k1 < n,
        0 <= k2 < n,
        k1 != k2,
    ensures
        (c + k1) % n != (c + k2) % n,
{
    let a = c + k1;
    let b = c + k2;
    lemma_fundamental_div_mod(a, n);
    lemma_fundamental_div_mod(b, n);
    if a % n == b % n {
        let qa = a / n;
        let qb = b / n;
        assert(a - b == (qa - qb) * n) by (nonlinear_arith)
            requires
                a == n * qa + a % n,
                b == n * qb + b % n,
                a % n == b % n,
        ;
        assert(false) by (nonlinear_arith)
            requires
                a - b == (qa - qb) * n,
                -n < a - b < n,
                a - b != 0,
                n > 0,
        ;
    }
}

/// A random choice among invokers (an older policy).
#[derive(Debug)]
pub struct Random {
    pub metadata: Metadata,
}

impl Random {
    /// The policy named `random`.
    pub fn new() -> (r: Random)
        ensures
            r.metadata.name@ == seq!['r', 'a', 'n', 'd', 'o', 'm'],
    {
        proof {
            reveal_strlit("random");
            assert("random"@ =~= seq!['r', 'a', 'n', 'd', 'o', 'm']);
        }
        Random { metadata: Metadata::new("random") }
    }

    /// One of the invokers, drawn at random. There must be one.
    pub fn do_select(&mut self, invokers: &Vec<Url>, _url: &Url, _invocation: &RpcInvocation) -> (r: Option<Url>)
        requires
            invokers@.len() > 0,
        ensures
            r matches Some(u) && exists|i: int| 0 <= i < invokers@.len() && u@ == (#[trigger] invokers@[i])@,
            *final(self) == *old(self),
    {
        let draw = random_usize();
        let r = pick(invokers, draw);
        proof {
            let i = draw as int % invokers@.len() as int;
            assert(u_of(r)@ == invokers@[i]@);
        }
        r
    }
}

/// Round robin over one counter (an older policy).
#[derive(Debug)]
pub struct RoundRobin {
    pub metadata: Metadata,
    pub counter: usize,
}

impl RoundRobin {
    /// The policy named `roundrobin`, its counter at zero.
    pub fn new() -> (r: RoundRobin)
        ensures
            r.metadata.name@ == seq!['r', 'o', 'u', 'n', 'd', 'r', 'o', 'b', 'i', 'n'],
            r.counter == 0,
    {
        proof {
            reveal_strlit("roundrobin");
            assert("roundrobin"@ =~= seq!['r', 'o', 'u', 'n', 'd', 'r', 'o', 'b', 'i', 'n']);
        }
        RoundRobin { metadata: Metadata::new("roundrobin"), counter: 0 }
    }

    /// The invoker at the counter modulo their number; the counter moves on
    /// by one, wrapping at the top. There must be an invoker.
    pub fn do_select(&mut self, invokers: &Vec<Url>, _url: &Url, _invocation: &RpcInvocation) -> (r: Option<Url>)
        requires
            invokers@.len() > 0,
        ensures
            r matches Some(u) && u@ == invokers@[old(self).counter as int % invokers@.len() as int]@,
            final(self).counter == (if old(self).counter == usize::MAX { 0 } else { old(self).counter + 1 }),
    {
        let value = self.counter;
        self.counter = self.counter.wrapping_add(1);
        pick(invokers, value)
    }
}

} // verus!
