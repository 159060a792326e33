//! The cluster invoker: it picks the invoker of a call among those the
//! directory lists, with the load balancing policy registered under a name.
use crate::invocation::RpcInvocation;
use crate::matcher::pattern_eq;
use crate::loadbalance::{rr_picked, RandomLoadBalance, RoundRobinLoadBalance};
use crate::url::{concat2, Url, UrlView};
use vstd::prelude::*;
use vstd::string::*;

verus! {

/// The policy used when none is named, or the named one is not registered.
pub const DEFAULT_LOADBALANCE: &'static str = "random";

/// A load balancing policy.
#[derive(Debug)]
pub enum BoxLoadBalance {
    Random(RandomLoadBalance),
    RoundRobin(RoundRobinLoadBalance),
}

/// `r` is one of `invokers`, or `None` exactly when there is none.
pub open spec fn picked_from(r: Option<Url>, invokers: Seq<Url>) -> bool {
    match r {
        Some(u) => exists|i: int| 0 <= i < invokers.len() && u@ == (#[trigger] invokers[i])@,
        None => invokers.len() == 0,
    }
}

/// The pick `r` among `invokers` is one that the policy `before` makes,
/// leaving it as `after`: the random policy is left unchanged, the round
/// robin policy counts the call as `rr_picked` says.
pub open spec fn picked_by(
    before: BoxLoadBalance,
    after: BoxLoadBalance,
    invokers: Seq<Url>,
    invocation: RpcInvocation,
    r: Option<Url>,
) -> bool {
    match before {
        BoxLoadBalance::Random(_) => after == before && picked_from(r, invokers),
        BoxLoadBalance::RoundRobin(b) => after matches BoxLoadBalance::RoundRobin(a) && rr_picked(
            b,
            a,
            invokers,
            invocation,
            r,
        ),
    }
}

impl BoxLoadBalance {
    /// Whether this is the random policy.
    pub open spec fn is_random(&self) -> bool {
        self is Random
    }

    /// One of the invokers chosen by the policy; `None` when there is none.
    pub fn select(&mut self, invokers: &Vec<Url>, url: Option<Url>, invocation: &RpcInvocation) -> (r: Option<Url>)
        ensures
            picked_from(r, invokers@),
            picked_by(*old(self), *final(self), invokers@, *invocation, r),
            final(self).is_random() == old(self).is_random(),
    {
        match self {
            BoxLoadBalance::Random(lb) => lb.select(invokers, url, invocation),
            BoxLoadBalance::RoundRobin(lb) => {
                let r = lb.select(invokers, url, invocation);
                proof {
                    if r is Some {
                        let n = invokers@.len() as int;
                        let u = r->0;
                        let i = choose|i: int| 0 <= i < n && u@ == (#[trigger] invokers@[i])@;
                    }
                }
                r
            },
        }
    }
}

/// The names the policies are registered under, in order.
pub open spec fn lb_names(entries: Seq<(String, BoxLoadBalance)>) -> Seq<Seq<char>> {
    entries.map_values(|e: (String, BoxLoadBalance)| e.0@)
}

/// The registered policies: `random` and `roundrobin`.
pub fn init_loadbalance_extensions() -> (m: Vec<(String, BoxLoadBalance)>)
    ensures
        lb_names(m@) == seq!["random"@, "roundrobin"@],
        m@[0].1.is_random(),
        !m@[1].1.is_random(),
{
    let mut m: Vec<(String, BoxLoadBalance)> = Vec::new();
    m.push((String::from_str("random"), BoxLoadBalance::Random(RandomLoadBalance::default())));
    m.push(
        (
            String::from_str("roundrobin"),
            BoxLoadBalance::RoundRobin(RoundRobinLoadBalance::default()),
        ),
    );
    assert(lb_names(m@) =~= seq!["random"@, "roundrobin"@]);
    m
}

/// The position of the first policy registered under `key`, if any.
fn lb_position(entries: &Vec<(String, BoxLoadBalance)>, key: &str) -> (r: Option<usize>)
    ensures
        match r {
            Some(i) => i < entries@.len() && lb_names(entries@)[i as int] == key@ && forall|
                j: int,
            | 0 <= j < i ==> lb_names(entries@)[j] != key@,
            None => !lb_names(entries@).contains(key@),
        },
{
    let mut i: usize = 0;
    while i < entries.len()
        invariant
            i <= entries@.len(),
            forall|j: int| 0 <= j < i ==> lb_names(entries@)[j] != key@,
        decreases entries@.len() - i,
    {
        assert(lb_names(entries@)[i as int] == entries@[i as int].0@);
        if pattern_eq(entries[i].0.as_str(), key) {
            return Some(i);
        }
        i = i + 1;
    }
    proof {
        if lb_names(entries@).contains(key@) {
            let k = choose|k: int| 0 <= k < lb_names(entries@).len() && lb_names(entries@)[k] == key@;
            assert(lb_names(entries@)[k] != key@);
        }
    }
    None
}

/// The name of the policy used for `key`: `key` itself when a policy is
/// registered under it, else the default.
pub open spec fn chosen_lb(names: Seq<Seq<char>>, key: Seq<char>) -> Seq<char> {
    if names.contains(key) {
        key
    } else {
        DEFAULT_LOADBALANCE@
    }
}

/// The policy name a call asks for: the given one, else the default.
pub open spec fn lb_key(loadbalance_key: Option<&str>) -> Seq<char> {
    match loadbalance_key {
        Some(k) => k@,
        None => DEFAULT_LOADBALANCE@,
    }
}

/// `i` is the first position at which `name` is registered.
pub open spec fn is_first_named(names: Seq<Seq<char>>, i: int, name: Seq<char>) -> bool {
    &&& 0 <= i < names.len()
    &&& names[i] == name
    &&& forall|j: int| 0 <= j < i ==> names[j] != name
}

/// The policy registered first under the name `chosen_lb` gives for `key`
/// made the pick `r`, and it alone changed: `before` and `after` are the
/// registered policies around the call.
pub open spec fn chosen_policy_picked(
    before: Seq<(String, BoxLoadBalance)>,
    after: Seq<(String, BoxLoadBalance)>,
    key: Seq<char>,
    invokers: Seq<Url>,
    invocation: RpcInvocation,
    r: Option<Url>,
) -> bool {
    &&& after.len() == before.len()
    &&& exists|i: int|
        #![trigger is_first_named(lb_names(before), i, chosen_lb(lb_names(before), key))]
        is_first_named(lb_names(before), i, chosen_lb(lb_names(before), key)) && after[i].0
            == before[i].0 && picked_by(before[i].1, after[i].1, invokers, invocation, r)
            && forall|j: int| 0 <= j < before.len() && j != i ==> after[j] == before[j]
}

/// Picks invokers for calls over a directory of them.
#[derive(Debug)]
pub struct ClusterInvoker<D> {
    pub directory: D,
    pub destroyed: bool,
    pub loadbalances: Vec<(String, BoxLoadBalance)>,
}

impl<D> ClusterInvoker<D> {
    /// An invoker over `directory`, with the registered policies.
    pub fn with_directory(directory: D) -> (c: ClusterInvoker<D>)
        ensures
            c.directory == directory,
            !c.destroyed,
            lb_names(c.loadbalances@) == seq!["random"@, "roundrobin"@],
    {
        ClusterInvoker { directory, destroyed: false, loadbalances: init_loadbalance_extensions() }
    }

    /// The directory.
    pub fn directory(&self) -> (d: &D)
        ensures
            d == &self.directory,
    {
        &self.directory
    }

    /// Whether the invoker was destroyed.
    pub fn destroyed(&self) -> (b: bool)
        ensures
            b == self.destroyed,
    {
        self.destroyed
    }

    /// Whether a call can be made: the invoker is not destroyed and the
    /// directory listed some invoker (`listed`).
    pub fn is_available(&self, listed: &Vec<Url>) -> (b: bool)
        ensures
            b == (!self.destroyed && listed@.len() > 0),
    {
        !self.destroyed() && listed.len() > 0
    }

    /// The name of the policy used for `loadbalance_key` (see `chosen_lb`).
    pub fn init_loadbalance(&self, loadbalance_key: &str) -> (r: String)
        ensures
            r@ == chosen_lb(lb_names(self.loadbalances@), loadbalance_key@),
    {
        match lb_position(&self.loadbalances, loadbalance_key) {
            Some(_) => String::from_str(loadbalance_key),
            None => String::from_str(DEFAULT_LOADBALANCE),
        }
    }

    /// One of the invokers, chosen by the policy registered under
    /// `loadbalance_key` (the default when none is named or registered).
    pub fn do_select(
        &mut self,
        loadbalance_key: Option<&str>,
        invocation: &RpcInvocation,
        invokers: &Vec<Url>,
    ) -> (r: Option<Url>)
        requires
            lb_names(old(self).loadbalances@).contains(DEFAULT_LOADBALANCE@),
        ensures
            picked_from(r, invokers@),
            chosen_policy_picked(
                old(self).loadbalances@,
                final(self).loadbalances@,
                lb_key(loadbalance_key),
                invokers@,
                *invocation,
                r,
            ),
            lb_names(final(self).loadbalances@) == lb_names(old(self).loadbalances@),
            final(self).destroyed == old(self).destroyed,
    {
        let key = match loadbalance_key {
            Some(k) => k,
            None => DEFAULT_LOADBALANCE,
        };
        let name = self.init_loadbalance(key);
        let pos = lb_position(&self.loadbalances, name.as_str());
        match pos {
            Some(i) => {
                let ghost names = lb_names(self.loadbalances@);
                let ghost before = self.loadbalances@;
                let (n, mut lb) = self.loadbalances.remove(i);
                let r = lb.select(invokers, None, invocation);
                self.loadbalances.insert(i, (n, lb));
                proof {
                    let after = self.loadbalances@;
                    assert(after.len() == before.len());
                    assert forall|j: int| 0 <= j < before.len() && j != i implies after[j]
                        == before[j] by {
                        if j < i {
                        } else {
                        }
                    }
                    assert(after[i as int].0 == before[i as int].0);
                    assert(lb_names(self.loadbalances@) =~= names);
                    assert(is_first_named(names, i as int, chosen_lb(names, lb_key(loadbalance_key))));
                }
                r
            },
            None => {
                assert(false);
                None
            },
        }
    }

    /// The invoker for a call: none when there is none, the only one when
    /// there is one, else one chosen by the default policy.
    pub fn select(&mut self, invocation: &RpcInvocation, invokers: &Vec<Url>, _excluded: &Vec<Url>) -> (r: Option<Url>)
        requires
            lb_names(old(self).loadbalances@).contains(DEFAULT_LOADBALANCE@),
        ensures
            picked_from(r, invokers@),
            invokers@.len() == 1 ==> (r matches Some(u) && u@ == invokers@[0]@),
            invokers@.len() < 2 ==> final(self).loadbalances@ == old(self).loadbalances@,
            invokers@.len() >= 2 ==> chosen_policy_picked(
                old(self).loadbalances@,
                final(self).loadbalances@,
                DEFAULT_LOADBALANCE@,
                invokers@,
                *invocation,
                r,
            ),
            lb_names(final(self).loadbalances@) == lb_names(old(self).loadbalances@),
            final(self).destroyed == old(self).destroyed,
    {
        if invokers.len() == 0 {
            return None;
        }
        if invokers.len() == 1 {
            let u = invokers[0].copy();
            assert(invokers@[0]@ == u@);
            return Some(u);
        }
        self.do_select(Some(DEFAULT_LOADBALANCE), invocation, invokers)
    }

    /// The address a call is sent to: `http://ip:port/` of the chosen
    /// invoker, or `None` when there is no invoker.
    pub fn target_uri(&mut self, invocation: &RpcInvocation, invokers: &Vec<Url>) -> (r: Option<String>)
        requires
            lb_names(old(self).loadbalances@).contains(DEFAULT_LOADBALANCE@),
        ensures
            match r {
                Some(s) => exists|i: int|
                    0 <= i < invokers@.len() && s@ == invoker_address((#[trigger] invokers@[i])@),
                None => invokers@.len() == 0,
            },
            invokers@.len() < 2 ==> final(self).loadbalances@ == old(self).loadbalances@,
            invokers@.len() >= 2 ==> exists|u: Url|
                chosen_policy_picked(
                    old(self).loadbalances@,
                    final(self).loadbalances@,
                    DEFAULT_LOADBALANCE@,
                    invokers@,
                    *invocation,
                    Some(u),
                ) && (r matches Some(s) && s@ == invoker_address(u@)),
            lb_names(final(self).loadbalances@) == lb_names(old(self).loadbalances@),
            final(self).destroyed == old(self).destroyed,
    {
        let excluded: Vec<Url> = Vec::new();
        match self.select(invocation, invokers, &excluded) {
            Some(u) => {
                let s = address_of(&u);
                proof {
                    let i = choose|i: int| 0 <= i < invokers@.len() && u@ == (#[trigger] invokers@[i])@;
                    assert(s@ == invoker_address(invokers@[i]@));
                }
                Some(s)
            },
            None => None,
        }
    }
}

/// `http://ip:port/` of an invoker.
pub open spec fn invoker_address(u: UrlView) -> Seq<char> {
    "http://"@ + u.ip + ":"@ + u.port + "/"@
}

/// `http://ip:port/` of `u`.
pub fn address_of(u: &Url) -> (s: String)
    ensures
        s@ == invoker_address(u@),
{
    let a = concat2("http://", u.ip.as_str());
    let b = concat2(a.as_str(), ":");
    let c = concat2(b.as_str(), u.port.as_str());
    concat2(c.as_str(), "/")
}

} // verus!
