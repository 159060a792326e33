//! The routers that apply to one service, chained, and the manager that
//! assembles a chain for a call.
use crate::condition_router::{
    check_config, condition_router_for, config_readable, opt_routers_view, route_all, updated_by, ConditionRouter,
    ConditionRouterConfig, ConditionRouterManager,
};
use crate::invocation::RpcInvocation;
use crate::keyed::{first_pos, lemma_first_pos, lemma_first_pos_at, lemma_first_pos_none, named, put_named};
use crate::single_router::{route_single, then_filter, urls_view, RouterView, RuleError};
use crate::sample::original_map;
use crate::tag_router::{route_by_tag, tag_of, tag_tables, with_tag, TagRouter, TagRouterConfig, TagRouterManager, TagRouterView};
use crate::url::{concat2, url_of_text, Url, UrlView};
use vstd::prelude::*;
use vstd::string::*;

verus! {

/// A router that leaves the invokers as they are.
#[derive(Debug, Default, Clone, Copy)]
pub struct MockRouter {}

impl MockRouter {
    /// The invokers, unchanged.
    pub fn route(&self, invokers: Vec<Url>, _url: &Url, _invocation: &RpcInvocation) -> (r: Vec<Url>)
        ensures
            r == invokers,
    {
        invokers
    }
}

/// A router of the chain.
#[derive(Debug)]
pub enum Router {
    Condition(ConditionRouter),
    Tag(TagRouter),
    Mock(MockRouter),
}

/// The abstract value of a [`Router`].
pub ghost enum RouterKindView {
    Condition { service: Seq<RouterView>, application: Seq<RouterView> },
    Tag { tag: TagRouterView },
    Mock,
}

pub open spec fn router_kind_view(r: Router) -> RouterKindView {
    match r {
        Router::Condition(c) => RouterKindView::Condition {
            service: opt_routers_view(c.service_routers),
            application: opt_routers_view(c.application_routers),
        },
        Router::Tag(t) => RouterKindView::Tag { tag: t.inner@ },
        Router::Mock(_) => RouterKindView::Mock,
    }
}

/// The invokers one router leaves.
pub open spec fn route_kind(r: RouterKindView, invokers: Seq<UrlView>, url: UrlView, method: Seq<char>) -> Seq<UrlView> {
    match r {
        RouterKindView::Condition { service, application } => route_all(service, route_all(application, invokers, url, method), url, method),
        RouterKindView::Tag { tag } => route_by_tag(tag, invokers, url),
        RouterKindView::Mock => invokers,
    }
}

impl Router {
    /// The invokers this router leaves for a call from `url`.
    pub fn route(&self, invokers: Vec<Url>, url: &Url, invocation: &RpcInvocation) -> (r: Vec<Url>)
        ensures
            urls_view(r@) == route_kind(router_kind_view(*self), urls_view(invokers@), url@, invocation.method_view()),
    {
        match self {
            Router::Condition(c) => c.route(invokers, url, invocation),
            Router::Tag(t) => t.route(invokers, url, invocation),
            Router::Mock(m) => m.route(invokers, url, invocation),
        }
    }
}

pub open spec fn chain_view(v: Seq<(String, Router)>) -> Seq<(Seq<char>, RouterKindView)> {
    v.map_values(|e: (String, Router)| (e.0@, router_kind_view(e.1)))
}

/// The invokers left after each router in turn.
pub open spec fn route_chain(rs: Seq<(Seq<char>, RouterKindView)>, invokers: Seq<UrlView>, url: UrlView, method: Seq<char>) -> Seq<UrlView>
    decreases rs.len(),
{
    if rs.len() == 0 {
        invokers
    } else {
        route_kind(rs.last().1, route_chain(rs.drop_last(), invokers, url, method), url, method)
    }
}

/// Routers by name, applied in the order they were added, on behalf of the
/// consumer `self_url`.
#[derive(Debug, Default)]
pub struct RouterChain {
    pub routers: Vec<(String, Router)>,
    pub self_url: Url,
}

impl RouterChain {
    /// A chain with no router.
    pub fn new() -> (c: RouterChain)
        ensures
            c.routers@.len() == 0,
    {
        RouterChain { routers: Vec::new(), self_url: Url::new() }
    }

    /// Sets the router named `key`, keeping its place in the chain, or
    /// appends it.
    pub fn add_router(&mut self, key: String, router: Router)
        ensures
            chain_view(final(self).routers@) == put_named(chain_view(old(self).routers@), key@, router_kind_view(router)),
            final(self).self_url == old(self).self_url,
    {
        let ghost before = chain_view(self.routers@);
        let ghost rv = router_kind_view(router);
        let mut pos: usize = 0;
        while pos < self.routers.len() && self.routers[pos].0 != key
            invariant
                before == chain_view(self.routers@),
                pos <= self.routers@.len(),
                forall|j: int| 0 <= j < pos ==> (#[trigger] before[j]).0 != key@,
            decreases self.routers@.len() - pos,
        {
            assert(before[pos as int].0 == self.routers@[pos as int].0@);
            pos = pos + 1;
        }
        if pos < self.routers.len() {
            proof {
                assert(before[pos as int].0 == self.routers@[pos as int].0@);
                lemma_first_pos_at(before, key@, pos as int);
            }
            let ghost k = key@;
            self.routers.set(pos, (key, router));
            assert(chain_view(self.routers@) =~= before.update(pos as int, (k, rv)));
        } else {
            proof {
                lemma_first_pos_none(before, key@);
            }
            let ghost k = key@;
            self.routers.push((key, router));
            assert(chain_view(self.routers@) =~= before.push((k, rv)));
        }
    }

    /// The invokers left after each router of the chain in turn, for a call
    /// from `self_url`.
    pub fn route(&self, invokers: Vec<Url>, invocation: &RpcInvocation) -> (r: Vec<Url>)
        ensures
            urls_view(r@) == route_chain(chain_view(self.routers@), urls_view(invokers@), self.self_url@, invocation.method_view()),
    {
        let ghost rs = chain_view(self.routers@);
        let ghost start = urls_view(invokers@);
        let mut invokers = invokers;
        let mut i: usize = 0;
        assert(rs.take(0) =~= Seq::<(Seq<char>, RouterKindView)>::empty());
        while i < self.routers.len()
            invariant
                rs == chain_view(self.routers@),
                i <= self.routers@.len(),
                urls_view(invokers@) == route_chain(rs.take(i as int), start, self.self_url@, invocation.method_view()),
            decreases self.routers@.len() - i,
        {
            invokers = self.routers[i].1.route(invokers, &self.self_url, invocation);
            proof {
                let t = rs.take(i + 1);
                assert(t.drop_last() =~= rs.take(i as int));
                assert(t.last() == rs[i as int]);
            }
            i = i + 1;
        }
        assert(rs.take(self.routers@.len() as int) =~= rs);
        invokers
    }
}

pub open spec fn consumers_view(v: Seq<(String, Url)>) -> Seq<(Seq<char>, UrlView)> {
    v.map_values(|e: (String, Url)| (e.0@, e.1@))
}

/// A change of routing configuration, as pushed by a configuration center.
#[derive(Debug, Default, Clone)]
pub struct RouterConfigChangeEvent {
    pub service_name: String,
    pub router_kind: String,
    pub content: String,
}

/// The kind of router a configuration change is for.
#[derive(Debug, Clone, Copy, PartialEq, Eq)]
pub enum RouterKind {
    Condition,
    Tag,
    Other,
}

impl RouterConfigChangeEvent {
    /// `condition`, `tag`, or any other kind.
    pub fn kind(&self) -> (k: RouterKind)
        ensures
            k == (if self.router_kind@ == seq!['c', 'o', 'n', 'd', 'i', 't', 'i', 'o', 'n'] {
                RouterKind::Condition
            } else if self.router_kind@ == seq!['t', 'a', 'g'] {
                RouterKind::Tag
            } else {
                RouterKind::Other
            }),
    {
        proof {
            reveal_strlit("condition");
            reveal_strlit("tag");
            assert("condition"@ =~= seq!['c', 'o', 'n', 'd', 'i', 't', 'i', 'o', 'n']);
            assert("tag"@ =~= seq!['t', 'a', 'g']);
        }
        if self.router_kind == String::from_str("condition") {
            RouterKind::Condition
        } else if self.router_kind == String::from_str("tag") {
            RouterKind::Tag
        } else {
            RouterKind::Other
        }
    }
}

/// The routing rules of the process and the consumers they apply to.
#[derive(Debug, Default)]
pub struct RouterManager {
    pub condition_router_manager: ConditionRouterManager,
    pub tag_router_manager: TagRouterManager,
    pub consumer: Vec<(String, Url)>,
}

impl RouterManager {
    /// A manager with no rules and no consumer.
    pub fn new() -> (m: RouterManager)
        ensures
            m.consumer@.len() == 0,
            m.condition_router_manager.routers_service@.len() == 0,
            m.condition_router_manager.routers_application.routers@.len() == 0,
            m.tag_router_manager.tag_router@.tag_rules.len() == 0,
            !m.tag_router_manager.tag_router@.enabled,
            !m.tag_router_manager.tag_router@.force,
    {
        let tr = crate::tag_router::TagRouterInner { tag_rules: Vec::new(), force: false, enabled: false };
        assert(tr@.tag_rules =~= Seq::<(Seq<char>, crate::params::Entries)>::empty());
        RouterManager {
            condition_router_manager: ConditionRouterManager {
                routers_service: Vec::new(),
                routers_application: crate::condition_router::ConditionSingleRouters::new(Vec::new()),
            },
            tag_router_manager: TagRouterManager { tag_router: tr },
            consumer: Vec::new(),
        }
    }

    /// Registers the consumer URL of `service`, replacing an earlier one.
    pub fn add_consumer(&mut self, service: String, url: Url)
        ensures
            consumers_view(final(self).consumer@) == put_named(consumers_view(old(self).consumer@), service@, url@),
            final(self).condition_router_manager == old(self).condition_router_manager,
            final(self).tag_router_manager == old(self).tag_router_manager,
    {
        let ghost before = consumers_view(self.consumer@);
        let ghost uv = url@;
        let mut pos: usize = 0;
        while pos < self.consumer.len() && self.consumer[pos].0 != service
            invariant
                before == consumers_view(self.consumer@),
                pos <= self.consumer@.len(),
                forall|j: int| 0 <= j < pos ==> (#[trigger] before[j]).0 != service@,
            decreases self.consumer@.len() - pos,
        {
            assert(before[pos as int].0 == self.consumer@[pos as int].0@);
            pos = pos + 1;
        }
        let ghost k = service@;
        if pos < self.consumer.len() {
            proof {
                assert(before[pos as int].0 == self.consumer@[pos as int].0@);
                lemma_first_pos_at(before, service@, pos as int);
            }
            self.consumer.set(pos, (service, url));
            assert(consumers_view(self.consumer@) =~= before.update(pos as int, (k, uv)));
        } else {
            proof {
                lemma_first_pos_none(before, service@);
            }
            self.consumer.push((service, url));
            assert(consumers_view(self.consumer@) =~= before.push((k, uv)));
        }
    }

    /// The chain for a call: for a registered consumer of the called
    /// service, its condition router (when there is one) then its tag
    /// router, on behalf of the consumer's URL; otherwise no router.
    pub fn get_router_chain(&self, invocation: &RpcInvocation) -> (c: RouterChain)
        ensures
            match named(consumers_view(self.consumer@), invocation.service_view()) {
                None => c.routers@.len() == 0,
                Some(u) => c.self_url@ == u && c.routers@.len() >= 1 && {
                    let cv = chain_view(c.routers@);
                    &&& cv.last().0 == seq!['t', 'a', 'g']
                    &&& cv.last().1 == (RouterKindView::Tag { tag: self.tag_router_manager.tag_router@ })
                    &&& c.routers@.len() == 2 ==> cv[0].0 == seq!['c', 'o', 'n', 'd', 'i', 't', 'i', 'o', 'n']
                    &&& c.routers@.len() <= 2
                    &&& match condition_router_for(self.condition_router_manager, invocation.service_view()) {
                        Some(v) => c.routers@.len() == 2 && cv[0].1 == (RouterKindView::Condition {
                            service: v.0,
                            application: v.1,
                        }),
                        None => c.routers@.len() == 1,
                    }
                },
            },
    {
        proof {
            reveal_strlit("condition");
            reveal_strlit("tag");
            assert("condition"@ =~= seq!['c', 'o', 'n', 'd', 'i', 't', 'i', 'o', 'n']);
            assert("tag"@ =~= seq!['t', 'a', 'g']);
        }
        let service = crate::invocation::Invocation::get_target_service_unique_name(invocation);
        let condition_router = self.condition_router_manager.get_router(&service);
        let tag_router = self.tag_router_manager.get_router(&service);
        let mut chain = RouterChain::new();
        let ghost cs = consumers_view(self.consumer@);
        let mut pos: usize = 0;
        while pos < self.consumer.len() && self.consumer[pos].0 != service
            invariant
                cs == consumers_view(self.consumer@),
                pos <= self.consumer@.len(),
                forall|j: int| 0 <= j < pos ==> (#[trigger] cs[j]).0 != service@,
            decreases self.consumer@.len() - pos,
        {
            assert(cs[pos as int].0 == self.consumer@[pos as int].0@);
            pos = pos + 1;
        }
        if pos < self.consumer.len() {
            proof {
                assert(cs[pos as int].0 == self.consumer@[pos as int].0@);
                lemma_first_pos_at(cs, service@, pos as int);
            }
            match condition_router {
                Some(cr) => {
                    chain.add_router(String::from_str("condition"), Router::Condition(cr));
                    proof {
                        lemma_first_pos_none(Seq::<(Seq<char>, RouterKindView)>::empty(), seq!['c', 'o', 'n', 'd', 'i', 't', 'i', 'o', 'n']);
                    }
                },
                None => {},
            }
            let ghost before = chain_view(chain.routers@);
            match tag_router {
                Some(tr) => {
                    chain.add_router(String::from_str("tag"), Router::Tag(tr));
                    proof {
                        assert forall|j: int| 0 <= j < before.len() implies (#[trigger] before[j]).0 != seq!['t', 'a', 'g'] by {
                            assert(before[j].0 == seq!['c', 'o', 'n', 'd', 'i', 't', 'i', 'o', 'n']);
                        }
                        lemma_first_pos_none(before, seq!['t', 'a', 'g']);
                    }
                },
                None => {},
            }
            chain.self_url = self.consumer[pos].1.copy();
        } else {
            proof {
                lemma_first_pos_none(cs, service@);
            }
        }
        chain
    }
}


/// A consumer of a service, and the address it calls from.
#[derive(Debug, Clone, Default)]
pub struct ConsumerConfig {
    pub service: String,
    pub url: String,
}

/// The account a configuration center is reached with.
#[derive(Debug, Clone, Default)]
pub struct NacosAuthConfig {
    pub auth_username: String,
    pub auth_password: String,
}

/// Where the configuration center is.
#[derive(Debug, Clone, Default)]
pub struct NacosConfig {
    pub addr: String,
    pub namespace: String,
    pub app: String,
    pub enable_auth: Option<NacosAuthConfig>,
}

/// The routing section of the configuration.
#[derive(Debug, Default)]
pub struct RouterConfig {
    pub consumer: Option<Vec<ConsumerConfig>>,
    pub nacos: Option<NacosConfig>,
    pub conditions: Option<Vec<ConditionRouterConfig>>,
    pub tags: Option<TagRouterConfig>,
}

/// A routing configuration read from a change event.
#[derive(Debug)]
pub enum RouterConfigUpdate {
    Condition(ConditionRouterConfig),
    Tag(TagRouterConfig),
}

/// What starting the routing needs next.
#[derive(Debug)]
pub enum RouterInitStep {
    /// The rules of the configuration file are in place.
    Done,
    /// The rules are to be read from the configuration center: the tag and
    /// condition rules of the application, then the condition rules of each
    /// consumed service, handed to `apply_nacos_configs`.
    FetchFromNacos(NacosConfig),
}

/// Why the routing could not start.
#[derive(Debug)]
pub enum RouterInitError {
    /// The consumer at this position has no URL with scheme, host and port.
    ConsumerUrl(usize),
    /// A condition rule cannot be read.
    Rule(RuleError),
}

/// The URL text of a consumer: `<url>/<service>`.
pub open spec fn consumer_url_text(c: ConsumerConfig) -> Seq<char> {
    c.url@ + "/"@ + c.service@
}

/// Every consumer has a URL with scheme, host and port.
pub open spec fn consumers_readable(cs: Seq<ConsumerConfig>) -> bool {
    forall|i: int| 0 <= i < cs.len() ==> url_of_text(consumer_url_text(#[trigger] cs[i])) is Some
}

/// The consumers after registering `cs` in order.
pub open spec fn consumers_added(start: Seq<(Seq<char>, UrlView)>, cs: Seq<ConsumerConfig>) -> Seq<(Seq<char>, UrlView)>
    decreases cs.len(),
{
    if cs.len() == 0 {
        start
    } else {
        put_named(consumers_added(start, cs.drop_last()), cs.last().service@, url_of_text(consumer_url_text(cs.last()))->0)
    }
}

/// `ms` are the rules before and after each update with `configs`, in
/// order.
pub open spec fn update_chain(ms: Seq<ConditionRouterManager>, configs: Seq<ConditionRouterConfig>) -> bool {
    &&& ms.len() == configs.len() + 1
    &&& forall|i: int| 0 <= i < configs.len() ==> updated_by(ms[i], #[trigger] configs[i], ms[i + 1])
}

/// `n` is what updating `m` with each of `configs`, in order, makes.
pub open spec fn updated_all(m: ConditionRouterManager, configs: Seq<ConditionRouterConfig>, n: ConditionRouterManager) -> bool {
    exists|ms: Seq<ConditionRouterManager>| #[trigger] update_chain(ms, configs) && ms[0] == m && ms.last() == n
}

/// Every rule of every configuration can be read.
pub open spec fn all_readable(configs: Seq<ConditionRouterConfig>) -> bool {
    forall|i: int| 0 <= i < configs.len() ==> config_readable(#[trigger] configs[i])
}

/// The configurations that are there, in order.
pub open spec fn somes(v: Seq<Option<ConditionRouterConfig>>) -> Seq<ConditionRouterConfig>
    decreases v.len(),
{
    if v.len() == 0 {
        Seq::<ConditionRouterConfig>::empty()
    } else {
        match v.last() {
            Some(c) => somes(v.drop_last()).push(c),
            None => somes(v.drop_last()),
        }
    }
}

/// The tag rules read from `config`.
pub open spec fn tag_view_of(config: TagRouterConfig) -> TagRouterView {
    TagRouterView { tag_rules: tag_tables(config.tags@), force: config.force, enabled: config.enabled }
}

/// The first consumer whose URL cannot be read, if any.
fn check_consumers(cs: &Vec<ConsumerConfig>) -> (r: Option<usize>)
    ensures
        match r {
            Some(i) => i < cs@.len() && url_of_text(consumer_url_text(cs@[i as int])) is None,
            None => consumers_readable(cs@),
        },
{
    let mut i: usize = 0;
    while i < cs.len()
        invariant
            i <= cs@.len(),
            forall|j: int| 0 <= j < i ==> url_of_text(consumer_url_text(#[trigger] cs@[j])) is Some,
        decreases cs@.len() - i,
    {
        let a = concat2(cs[i].url.as_str(), "/");
        let text = concat2(a.as_str(), cs[i].service.as_str());
        proof {
            reveal_strlit("/");
            assert(text@ =~= consumer_url_text(cs@[i as int]));
        }
        let parsed = Url::try_from_url(text.as_str());
        if parsed.is_none() {
            return Some(i);
        }
        i = i + 1;
    }
    None
}

/// The error of the first unreadable rule of the configurations, if any.
fn check_conditions(cs: &Vec<ConditionRouterConfig>) -> (r: Result<(), RuleError>)
    ensures
        r is Ok <==> all_readable(cs@),
{
    let mut i: usize = 0;
    while i < cs.len()
        invariant
            i <= cs@.len(),
            forall|j: int| 0 <= j < i ==> config_readable(#[trigger] cs@[j]),
        decreases cs@.len() - i,
    {
        match check_config(&cs[i]) {
            Ok(()) => {},
            Err(e) => {
                assert(!config_readable(cs@[i as int]));
                return Err(e);
            },
        }
        i = i + 1;
    }
    Ok(())
}

impl RouterManager {
    /// Registers the consumers in order, each at the URL `<url>/<service>`.
    /// Each such text must be a URL with scheme, host and port.
    pub fn init_consumer_configs(&mut self, consumers: Vec<ConsumerConfig>)
        requires
            consumers_readable(consumers@),
        ensures
            consumers_view(final(self).consumer@) == consumers_added(consumers_view(old(self).consumer@), consumers@),
            final(self).condition_router_manager == old(self).condition_router_manager,
            final(self).tag_router_manager == old(self).tag_router_manager,
    {
        let ghost all = consumers@;
        let ghost start = consumers_view(self.consumer@);
        let mut rest = consumers;
        let total = rest.len();
        let mut i: usize = 0;
        assert(all.take(0) =~= Seq::<ConsumerConfig>::empty());
        while rest.len() > 0
            invariant
                i <= all.len(),
                all.len() == total,
                rest@.len() == all.len() - i,
                rest@ == all.skip(i as int),
                consumers_readable(all),
                consumers_view(self.consumer@) == consumers_added(start, all.take(i as int)),
                self.condition_router_manager == old(self).condition_router_manager,
                self.tag_router_manager == old(self).tag_router_manager,
            decreases rest@.len(),
        {
            let c = rest.remove(0);
            proof {
                assert(c == all[i as int]);
                assert(url_of_text(consumer_url_text(all[i as int])) is Some);
            }
            let a = concat2(c.url.as_str(), "/");
            let text = concat2(a.as_str(), c.service.as_str());
            proof {
                reveal_strlit("/");
                assert(text@ =~= consumer_url_text(c));
            }
            let url = Url::from_url(text.as_str()).unwrap();
            self.add_consumer(c.service, url);
            proof {
                let t = all.take(i + 1);
                assert(t.drop_last() =~= all.take(i as int));
                assert(t.last() == c);
            }
            i = i + 1;
            assert(rest@ =~= all.skip(i as int));
        }
        assert(all.take(i as int) =~= all);
    }

    /// Updates the condition rules with each configuration, in order. Every
    /// rule must be readable.
    pub fn update_conditions(&mut self, configs: Vec<ConditionRouterConfig>)
        requires
            all_readable(configs@),
        ensures
            updated_all(old(self).condition_router_manager, configs@, final(self).condition_router_manager),
            final(self).consumer == old(self).consumer,
            final(self).tag_router_manager == old(self).tag_router_manager,
    {
        let ghost all = configs@;
        let mut rest = configs;
        let total = rest.len();
        let mut i: usize = 0;
        let ghost mut chain: Seq<ConditionRouterManager> = seq![self.condition_router_manager];
        assert(all.take(0) =~= Seq::<ConditionRouterConfig>::empty());
        while rest.len() > 0
            invariant
                i <= all.len(),
                all.len() == total,
                rest@.len() == all.len() - i,
                rest@ == all.skip(i as int),
                all_readable(all),
                update_chain(chain, all.take(i as int)),
                chain[0] == old(self).condition_router_manager,
                chain.last() == self.condition_router_manager,
                self.consumer == old(self).consumer,
                self.tag_router_manager == old(self).tag_router_manager,
            decreases rest@.len(),
        {
            let c = rest.remove(0);
            proof {
                assert(c == all[i as int]);
                assert(config_readable(all[i as int]));
            }
            let ghost cg = c;
            self.condition_router_manager.update(c);
            proof {
                let prev = chain;
                chain = chain.push(self.condition_router_manager);
                let t = all.take(i + 1);
                assert forall|j: int| 0 <= j < t.len() implies updated_by(chain[j], #[trigger] t[j], chain[j + 1]) by {
                    if j < i {
                        assert(t[j] == all.take(i as int)[j]);
                        assert(chain[j] == prev[j]);
                        assert(chain[j + 1] == prev[j + 1]);
                    } else {
                        assert(t[j] == cg);
                    }
                }
            }
            i = i + 1;
            assert(rest@ =~= all.skip(i as int));
        }
        assert(all.take(i as int) =~= all);
        assert(update_chain(chain, all));
    }

    /// Starts the routing from the configuration: registers the consumers,
    /// then, without a configuration center, puts in place the condition
    /// rules and the tag rules of the configuration; with one, asks for the
    /// rules to be read from it. The consumer URLs must be readable, and so
    /// must the condition rules when they come from the configuration.
    pub fn init(&mut self, config: RouterConfig) -> (step: RouterInitStep)
        requires
            consumers_readable(
                match config.consumer {
                    Some(cs) => cs@,
                    None => Seq::<ConsumerConfig>::empty(),
                },
            ),
            config.nacos is None ==> all_readable(
                match config.conditions {
                    Some(cs) => cs@,
                    None => Seq::<ConditionRouterConfig>::empty(),
                },
            ),
        ensures
            consumers_view(final(self).consumer@) == consumers_added(
                consumers_view(old(self).consumer@),
                match config.consumer {
                    Some(cs) => cs@,
                    None => Seq::<ConsumerConfig>::empty(),
                },
            ),
            match config.nacos {
                Some(n) => step matches RouterInitStep::FetchFromNacos(m) && m == n
                    && final(self).condition_router_manager == old(self).condition_router_manager
                    && final(self).tag_router_manager == old(self).tag_router_manager,
                None => step is Done && updated_all(
                    old(self).condition_router_manager,
                    match config.conditions {
                        Some(cs) => cs@,
                        None => Seq::<ConditionRouterConfig>::empty(),
                    },
                    final(self).condition_router_manager,
                ) && match config.tags {
                    Some(t) => final(self).tag_router_manager.tag_router@ == tag_view_of(t),
                    None => final(self).tag_router_manager == old(self).tag_router_manager,
                },
            },
    {
        let RouterConfig { consumer, nacos, conditions, tags } = config;
        let consumers = match consumer {
            Some(cs) => cs,
            None => Vec::new(),
        };
        proof {
            assert(consumers@ =~= match consumer {
                Some(cs) => cs@,
                None => Seq::<ConsumerConfig>::empty(),
            });
        }
        self.init_consumer_configs(consumers);
        match nacos {
            Some(n) => RouterInitStep::FetchFromNacos(n),
            None => {
                let cs = match conditions {
                    Some(cs) => cs,
                    None => Vec::new(),
                };
                proof {
                    assert(cs@ =~= match conditions {
                        Some(cs) => cs@,
                        None => Seq::<ConditionRouterConfig>::empty(),
                    });
                }
                self.update_conditions(cs);
                match tags {
                    Some(t) => {
                        self.tag_router_manager.update(t);
                    },
                    None => {},
                }
                RouterInitStep::Done
            },
        }
    }

    /// Starts the routing as `init` does, or gives the first consumer whose
    /// URL cannot be read, or the error of the first unreadable condition
    /// rule of the configuration, changing nothing.
    pub fn try_init(&mut self, config: RouterConfig) -> (r: Result<RouterInitStep, RouterInitError>)
        ensures
            r is Err ==> *final(self) == *old(self),
            r matches Err(RouterInitError::ConsumerUrl(i)) ==> config.consumer matches Some(cs) && i
                < cs@.len() && url_of_text(consumer_url_text(cs@[i as int])) is None,
            r is Ok ==> consumers_view(final(self).consumer@) == consumers_added(
                consumers_view(old(self).consumer@),
                match config.consumer {
                    Some(cs) => cs@,
                    None => Seq::<ConsumerConfig>::empty(),
                },
            ),
            (r is Ok) == (consumers_readable(
                match config.consumer {
                    Some(cs) => cs@,
                    None => Seq::<ConsumerConfig>::empty(),
                },
            ) && (config.nacos is None ==> all_readable(
                match config.conditions {
                    Some(cs) => cs@,
                    None => Seq::<ConditionRouterConfig>::empty(),
                },
            ))),
    {
        match &config.consumer {
            Some(cs) => match check_consumers(cs) {
                Some(i) => {
                    return Err(RouterInitError::ConsumerUrl(i));
                },
                None => {},
            },
            None => {},
        }
        if config.nacos.is_none() {
            match &config.conditions {
                Some(cs) => match check_conditions(cs) {
                    Ok(()) => {},
                    Err(e) => {
                        return Err(RouterInitError::Rule(e));
                    },
                },
                None => {},
            }
        }
        Ok(self.init(config))
    }

    /// The services whose condition rules are read from the configuration
    /// center, in the order the consumers were registered.
    pub fn consumer_services(&self) -> (r: Vec<String>)
        ensures
            r@.len() == self.consumer@.len(),
            forall|i: int| 0 <= i < r@.len() ==> (#[trigger] r@[i])@ == self.consumer@[i].0@,
    {
        let mut r: Vec<String> = Vec::new();
        let mut i: usize = 0;
        while i < self.consumer.len()
            invariant
                i <= self.consumer@.len(),
                r@.len() == i,
                forall|j: int| 0 <= j < i ==> (#[trigger] r@[j])@ == self.consumer@[j].0@,
            decreases self.consumer@.len() - i,
        {
            r.push(self.consumer[i].0.clone());
            i = i + 1;
        }
        r
    }

    /// Puts in place the rules read from the configuration center: the tag
    /// rules, when there are any, then the application's condition rules,
    /// then each service's, in order. Every condition rule must be readable.
    pub fn apply_nacos_configs(
        &mut self,
        tag: Option<TagRouterConfig>,
        application_condition: Option<ConditionRouterConfig>,
        service_conditions: Vec<Option<ConditionRouterConfig>>,
    )
        requires
            all_readable(somes(seq![application_condition] + service_conditions@)),
        ensures
            updated_all(
                old(self).condition_router_manager,
                somes(seq![application_condition] + service_conditions@),
                final(self).condition_router_manager,
            ),
            match tag {
                Some(t) => final(self).tag_router_manager.tag_router@ == tag_view_of(t),
                None => final(self).tag_router_manager == old(self).tag_router_manager,
            },
            final(self).consumer == old(self).consumer,
    {
        match tag {
            Some(t) => {
                self.tag_router_manager.update(t);
            },
            None => {},
        }
        let ghost all = seq![application_condition] + service_conditions@;
        let mut configs: Vec<ConditionRouterConfig> = Vec::new();
        let mut rest: Vec<Option<ConditionRouterConfig>> = Vec::new();
        rest.push(application_condition);
        let mut more = service_conditions;
        rest.append(&mut more);
        assert(rest@ =~= all);
        let total = rest.len();
        let mut i: usize = 0;
        assert(all.take(0) =~= Seq::<Option<ConditionRouterConfig>>::empty());
        while rest.len() > 0
            invariant
                i <= all.len(),
                all.len() == total,
                rest@.len() == all.len() - i,
                rest@ == all.skip(i as int),
                configs@ == somes(all.take(i as int)),
            decreases rest@.len(),
        {
            let c = rest.remove(0);
            proof {
                let t = all.take(i + 1);
                assert(t.drop_last() =~= all.take(i as int));
                assert(t.last() == c);
            }
            match c {
                Some(cfg) => {
                    configs.push(cfg);
                },
                None => {},
            }
            i = i + 1;
            assert(rest@ =~= all.skip(i as int));
        }
        assert(all.take(i as int) =~= all);
        self.update_conditions(configs);
    }

    /// Puts in place the rules of a change event. A condition rule must be
    /// readable.
    pub fn notify(&mut self, update: RouterConfigUpdate)
        requires
            update matches RouterConfigUpdate::Condition(c) ==> config_readable(c),
        ensures
            match update {
                RouterConfigUpdate::Condition(c) => updated_by(
                    old(self).condition_router_manager,
                    c,
                    final(self).condition_router_manager,
                ) && final(self).tag_router_manager == old(self).tag_router_manager,
                RouterConfigUpdate::Tag(t) => final(self).tag_router_manager.tag_router@ == tag_view_of(t)
                    && final(self).condition_router_manager == old(self).condition_router_manager,
            },
            final(self).consumer == old(self).consumer,
    {
        match update {
            RouterConfigUpdate::Condition(c) => {
                self.condition_router_manager.update(c);
            },
            RouterConfigUpdate::Tag(t) => {
                self.tag_router_manager.update(t);
            },
        }
    }
}


/// Every invoker of `out` is one of `invokers`.
pub open spec fn within(out: Seq<UrlView>, invokers: Seq<UrlView>) -> bool {
    forall|i: int| 0 <= i < out.len() ==> invokers.contains(#[trigger] out[i])
}

proof fn lemma_within_trans(a: Seq<UrlView>, b: Seq<UrlView>, c: Seq<UrlView>)
    requires
        within(a, b),
        within(b, c),
    ensures
        within(a, c),
{
    assert forall|i: int| 0 <= i < a.len() implies c.contains(#[trigger] a[i]) by {
        let j = choose|j: int| 0 <= j < b.len() && b[j] == a[i];
        assert(b.contains(b[j]));
    }
}

proof fn lemma_within_self(a: Seq<UrlView>)
    ensures
        within(a, a),
{
    assert forall|i: int| 0 <= i < a.len() implies a.contains(#[trigger] a[i]) by {
        assert(a[i] == a[i]);
    }
}

proof fn lemma_then_filter_within(r: RouterView, invokers: Seq<UrlView>, method: Seq<char>)
    ensures
        within(then_filter(r, invokers, method), invokers),
    decreases invokers.len(),
{
    if invokers.len() > 0 {
        let prev = invokers.drop_last();
        lemma_then_filter_within(r, prev, method);
        let out = then_filter(r, invokers, method);
        let rest = then_filter(r, prev, method);
        assert forall|i: int| 0 <= i < out.len() implies invokers.contains(#[trigger] out[i]) by {
            if i < rest.len() {
                assert(out[i] == rest[i]);
                let j = choose|j: int| 0 <= j < prev.len() && prev[j] == rest[i];
                assert(invokers[j] == prev[j]);
            } else {
                assert(out[i] == invokers.last());
                assert(invokers[invokers.len() - 1] == invokers.last());
            }
        }
    }
}

proof fn lemma_route_all_within(rs: Seq<RouterView>, invokers: Seq<UrlView>, url: UrlView, method: Seq<char>)
    ensures
        within(route_all(rs, invokers, url, method), invokers),
    decreases rs.len(),
{
    if rs.len() == 0 {
        lemma_within_self(invokers);
    } else {
        let mid = route_all(rs.drop_last(), invokers, url, method);
        lemma_route_all_within(rs.drop_last(), invokers, url, method);
        lemma_then_filter_within(rs.last(), mid, method);
        lemma_within_self(mid);
        lemma_within_trans(route_single(rs.last(), mid, url, method), mid, invokers);
    }
}

proof fn lemma_with_tag_within(
    tables: Seq<(Seq<char>, crate::params::Entries)>,
    invokers: Seq<UrlView>,
    tag: Option<Seq<char>>,
)
    ensures
        within(with_tag(tables, invokers, tag), invokers),
    decreases invokers.len(),
{
    if invokers.len() > 0 {
        let prev = invokers.drop_last();
        lemma_with_tag_within(tables, prev, tag);
        let out = with_tag(tables, invokers, tag);
        let rest = with_tag(tables, prev, tag);
        assert forall|i: int| 0 <= i < out.len() implies invokers.contains(#[trigger] out[i]) by {
            if i < rest.len() {
                assert(out[i] == rest[i]);
                let j = choose|j: int| 0 <= j < prev.len() && prev[j] == rest[i];
                assert(invokers[j] == prev[j]);
            } else {
                assert(out[i] == invokers.last());
                assert(invokers[invokers.len() - 1] == invokers.last());
            }
        }
    }
}

proof fn lemma_route_kind_within(r: RouterKindView, invokers: Seq<UrlView>, url: UrlView, method: Seq<char>)
    ensures
        within(route_kind(r, invokers, url, method), invokers),
{
    match r {
        RouterKindView::Condition { service, application } => {
            let mid = route_all(application, invokers, url, method);
            lemma_route_all_within(application, invokers, url, method);
            lemma_route_all_within(service, mid, url, method);
            lemma_within_trans(route_all(service, mid, url, method), mid, invokers);
        },
        RouterKindView::Tag { tag } => {
            lemma_within_self(invokers);
            lemma_with_tag_within(tag.tag_rules, invokers, tag_of(tag.tag_rules, original_map(url)));
            lemma_with_tag_within(tag.tag_rules, invokers, None);
        },
        RouterKindView::Mock => {
            lemma_within_self(invokers);
        },
    }
}

/// Routing never makes up an invoker: every invoker a chain of routers
/// leaves is one of those it was given.
pub proof fn law_routing_keeps_given_invokers(
    rs: Seq<(Seq<char>, RouterKindView)>,
    invokers: Seq<UrlView>,
    url: UrlView,
    method: Seq<char>,
)
    ensures
        within(route_chain(rs, invokers, url, method), invokers),
    decreases rs.len(),
{
    if rs.len() == 0 {
        lemma_within_self(invokers);
    } else {
        let mid = route_chain(rs.drop_last(), invokers, url, method);
        law_routing_keeps_given_invokers(rs.drop_last(), invokers, url, method);
        lemma_route_kind_within(rs.last().1, mid, url, method);
        lemma_within_trans(route_kind(rs.last().1, mid, url, method), mid, invokers);
    }
}

} // verus!
