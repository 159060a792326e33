//! Condition routing: the rules of an application and of each service, and
//! the manager that keeps them up to date from configuration.
use crate::invocation::RpcInvocation;
use crate::keyed::{first_pos, lemma_first_pos, lemma_first_pos_at, lemma_first_pos_none, named, put_named};
use crate::single_router::{route_single, rule_conditions, urls_view, ConditionSingleRouter, RuleError, RouterView};
use crate::url::{Url, UrlView};
use vstd::prelude::*;
use vstd::string::*;

verus! {

pub open spec fn routers_view(v: Seq<ConditionSingleRouter>) -> Seq<RouterView> {
    v.map_values(|r: ConditionSingleRouter| r@)
}

/// The invokers left after applying each rule in turn.
pub open spec fn route_all(rs: Seq<RouterView>, invokers: Seq<UrlView>, url: UrlView, method: Seq<char>) -> Seq<UrlView>
    decreases rs.len(),
{
    if rs.len() == 0 {
        invokers
    } else {
        route_single(rs.last(), route_all(rs.drop_last(), invokers, url, method), url, method)
    }
}

/// A list of condition rules.
#[derive(Debug, Default)]
pub struct ConditionSingleRouters {
    pub routers: Vec<ConditionSingleRouter>,
}

impl ConditionSingleRouters {
    /// The list of `routers`.
    pub fn new(routers: Vec<ConditionSingleRouter>) -> (r: ConditionSingleRouters)
        ensures
            r.routers == routers,
    {
        ConditionSingleRouters { routers }
    }

    /// Whether there is no rule.
    pub fn is_null(&self) -> (b: bool)
        ensures
            b == (self.routers@.len() == 0),
    {
        self.routers.len() == 0
    }

    /// A copy of the list.
    pub fn copy(&self) -> (r: ConditionSingleRouters)
        ensures
            routers_view(r.routers@) == routers_view(self.routers@),
    {
        let mut v: Vec<ConditionSingleRouter> = Vec::new();
        let mut i: usize = 0;
        while i < self.routers.len()
            invariant
                i <= self.routers@.len(),
                routers_view(v@) == routers_view(self.routers@).take(i as int),
            decreases self.routers@.len() - i,
        {
            let c = self.routers[i].copy();
            let ghost prev = v@;
            v.push(c);
            assert(routers_view(v@) =~= routers_view(prev).push(self.routers@[i as int]@));
            assert(routers_view(self.routers@).take(i + 1) =~= routers_view(self.routers@).take(i as int).push(self.routers@[i as int]@));
            i = i + 1;
        }
        assert(routers_view(self.routers@).take(self.routers@.len() as int) =~= routers_view(self.routers@));
        ConditionSingleRouters { routers: v }
    }

    /// The invokers left after each rule in turn.
    pub fn route(&self, invokers: Vec<Url>, url: &Url, invocation: &RpcInvocation) -> (r: Vec<Url>)
        ensures
            urls_view(r@) == route_all(routers_view(self.routers@), urls_view(invokers@), url@, invocation.method_view()),
    {
        let ghost rs = routers_view(self.routers@);
        let mut invokers = invokers;
        let ghost start = urls_view(invokers@);
        let mut i: usize = 0;
        assert(rs.take(0) =~= Seq::<RouterView>::empty());
        while i < self.routers.len()
            invariant
                rs == routers_view(self.routers@),
                i <= self.routers@.len(),
                urls_view(invokers@) == route_all(rs.take(i as int), start, url@, invocation.method_view()),
            decreases self.routers@.len() - i,
        {
            invokers = self.routers[i].route(invokers, url, invocation);
            proof {
                let t = rs.take(i + 1);
                assert(t.drop_last() =~= rs.take(i as int));
                assert(t.last() == self.routers@[i as int]@);
            }
            i = i + 1;
        }
        assert(rs.take(self.routers@.len() as int) =~= rs);
        invokers
    }
}

/// The condition rules that apply to one service: the application's and
/// the service's own.
#[derive(Debug, Default)]
pub struct ConditionRouter {
    pub service_routers: Option<ConditionSingleRouters>,
    pub application_routers: Option<ConditionSingleRouters>,
}

pub open spec fn opt_routers_view(o: Option<ConditionSingleRouters>) -> Seq<RouterView> {
    match o {
        Some(rs) => routers_view(rs.routers@),
        None => Seq::<RouterView>::empty(),
    }
}

impl ConditionRouter {
    /// The rules of a service and of its application.
    pub fn new(
        service_routers: Option<ConditionSingleRouters>,
        application_routers: Option<ConditionSingleRouters>,
    ) -> (r: ConditionRouter)
        ensures
            r.service_routers == service_routers,
            r.application_routers == application_routers,
    {
        ConditionRouter { service_routers, application_routers }
    }

    /// The invokers left by the application rules and then the service
    /// rules, each in turn.
    pub fn route(&self, invokers: Vec<Url>, url: &Url, invocation: &RpcInvocation) -> (r: Vec<Url>)
        ensures
            urls_view(r@) == route_all(
                opt_routers_view(self.service_routers),
                route_all(opt_routers_view(self.application_routers), urls_view(invokers@), url@, invocation.method_view()),
                url@,
                invocation.method_view(),
            ),
    {
        let mut invokers = invokers;
        match &self.application_routers {
            Some(rs) => {
                invokers = rs.route(invokers, url, invocation);
            },
            None => {},
        }
        match &self.service_routers {
            Some(rs) => {
                invokers = rs.route(invokers, url, invocation);
            },
            None => {},
        }
        invokers
    }

    /// A copy of the router.
    pub fn copy(&self) -> (r: ConditionRouter)
        ensures
            opt_routers_view(r.service_routers) == opt_routers_view(self.service_routers),
            opt_routers_view(r.application_routers) == opt_routers_view(self.application_routers),
            r.service_routers is Some == self.service_routers is Some,
            r.application_routers is Some == self.application_routers is Some,
    {
        ConditionRouter {
            service_routers: match &self.service_routers {
                Some(rs) => Some(rs.copy()),
                None => None,
            },
            application_routers: match &self.application_routers {
                Some(rs) => Some(rs.copy()),
                None => None,
            },
        }
    }
}

/// A condition routing configuration: the rules and where they apply.
#[derive(Debug, Default)]
pub struct ConditionRouterConfig {
    pub config_version: String,
    pub scope: String,
    pub force: bool,
    pub enabled: bool,
    pub key: String,
    pub conditions: Vec<String>,
}

/// Every rule of the configuration can be read (or the rules are
/// disabled).
pub open spec fn config_readable(config: ConditionRouterConfig) -> bool {
    config.enabled ==> forall|i: int| 0 <= i < config.conditions@.len() ==> rule_conditions(#[trigger] config.conditions@[i]@) is Ok
}

pub open spec fn keyed_routers_view(v: Seq<(String, ConditionSingleRouters)>) -> Seq<(Seq<char>, Seq<RouterView>)> {
    v.map_values(|e: (String, ConditionSingleRouters)| (e.0@, routers_view(e.1.routers@)))
}

pub open spec fn scope_application() -> Seq<char> {
    seq!['a', 'p', 'p', 'l', 'i', 'c', 'a', 't', 'i', 'o', 'n']
}

pub open spec fn scope_service() -> Seq<char> {
    seq!['s', 'e', 'r', 'v', 'i', 'c', 'e']
}

/// The rules read from the conditions of a configuration, in order.
pub open spec fn config_rules(config: ConditionRouterConfig, rules: Seq<RouterView>) -> bool {
    &&& rules.len() == config.conditions@.len()
    &&& forall|i: int| 0 <= i < rules.len() ==> (#[trigger] rules[i]).name == seq!['c', 'o', 'n', 'd', 'i', 't', 'i', 'o', 'n'] && rules[i].enabled == config.enabled && rules[i].force == config.force && (config.enabled ==> rule_conditions(config.conditions@[i]@) == Ok::<_, RuleError>((rules[i].when, rules[i].then_conds))) && (!config.enabled ==> rules[i].when.len() == 0 && rules[i].then_conds.len() == 0)
}

/// What `update` with `config` makes of the rules `m` (into `n`): the
/// application's rules, for scope `application`, or the service `key`'s,
/// for scope `service`, become the rules read from the configuration, the
/// others staying as they were; any other scope changes nothing.
pub open spec fn updated_by(m: ConditionRouterManager, config: ConditionRouterConfig, n: ConditionRouterManager) -> bool {
    &&& ({
        let rules = if config.scope@ == scope_application() {
            routers_view(n.routers_application.routers@)
        } else if config.scope@ == scope_service() {
            named(keyed_routers_view(n.routers_service@), config.key@)->0
        } else {
            Seq::<RouterView>::empty()
        };
        (config.scope@ == scope_application() || config.scope@ == scope_service()) ==> config_rules(config, rules)
    })
    &&& config.scope@ == scope_application() ==> n.routers_service == m.routers_service
    &&& config.scope@ == scope_service() ==> {
        &&& routers_view(n.routers_application.routers@) == routers_view(m.routers_application.routers@)
        &&& exists|rules: Seq<RouterView>| config_rules(config, rules) && keyed_routers_view(n.routers_service@) == put_named(keyed_routers_view(m.routers_service@), config.key@, rules)
    }
    &&& !(config.scope@ == scope_application() || config.scope@ == scope_service()) ==> n == m
}

/// Whether every rule of the configuration can be read, or the error of the
/// first one that cannot.
pub fn check_config(config: &ConditionRouterConfig) -> (r: Result<(), RuleError>)
    ensures
        r is Ok <==> config_readable(*config),
{
    if config.enabled {
        let mut i: usize = 0;
        while i < config.conditions.len()
            invariant
                config.enabled,
                i <= config.conditions@.len(),
                forall|j: int| 0 <= j < i ==> rule_conditions(#[trigger] config.conditions@[j]@) is Ok,
            decreases config.conditions@.len() - i,
        {
            let probe = ConditionSingleRouter::try_new(config.conditions[i].clone(), config.force, true);
            match probe {
                Ok(_) => {},
                Err(e) => {
                    return Err(e);
                },
            }
            i = i + 1;
        }
    }
    Ok(())
}

/// The rules (the service's own, then the application's) of the condition
/// router that `m` gives for `service`: the service's rules when it has an
/// entry, with the application's when there are any; only the
/// application's when the service has no entry; none when neither applies.
pub open spec fn condition_router_for(m: ConditionRouterManager, service: Seq<char>) -> Option<(Seq<RouterView>, Seq<RouterView>)> {
    let app = routers_view(m.routers_application.routers@);
    match named(keyed_routers_view(m.routers_service@), service) {
        Some(svc) => Some((svc, app)),
        None => if app.len() == 0 {
            None
        } else {
            Some((Seq::<RouterView>::empty(), app))
        },
    }
}

/// The condition rules of the application and of each service.
#[derive(Debug, Default)]
pub struct ConditionRouterManager {
    pub routers_service: Vec<(String, ConditionSingleRouters)>,
    pub routers_application: ConditionSingleRouters,
}

impl ConditionRouterManager {
    /// The rules of the service named `service_name`, by position.
    fn service_pos(&self, service_name: &String) -> (r: Option<usize>)
        ensures
            match r {
                Some(i) => i < self.routers_service@.len() && first_pos(keyed_routers_view(self.routers_service@), service_name@) == i,
                None => first_pos(keyed_routers_view(self.routers_service@), service_name@) == -1,
            },
    {
        let ghost ks = keyed_routers_view(self.routers_service@);
        let mut i: usize = 0;
        while i < self.routers_service.len()
            invariant
                ks == keyed_routers_view(self.routers_service@),
                i <= self.routers_service@.len(),
                forall|j: int| 0 <= j < i ==> (#[trigger] ks[j]).0 != service_name@,
            decreases self.routers_service@.len() - i,
        {
            assert(ks[i as int].0 == self.routers_service@[i as int].0@);
            if self.routers_service[i].0 == *service_name {
                proof {
                    lemma_first_pos_at(ks, service_name@, i as int);
                }
                return Some(i);
            }
            i = i + 1;
        }
        proof {
            lemma_first_pos_none(ks, service_name@);
        }
        None
    }

    /// The condition router for a service: its own rules, with the
    /// application's rules when there are any; only the application's when
    /// the service has none; `None` when neither has rules.
    pub fn get_router(&self, service_name: &String) -> (r: Option<ConditionRouter>)
        ensures
            match condition_router_for(*self, service_name@) {
                Some(v) => r matches Some(cr) && opt_routers_view(cr.service_routers) == v.0
                    && opt_routers_view(cr.application_routers) == v.1,
                None => r is None,
            },
            match named(keyed_routers_view(self.routers_service@), service_name@) {
                Some(svc) => r matches Some(cr) && cr.service_routers is Some && opt_routers_view(cr.service_routers) == svc
                    && (if self.routers_application.routers@.len() == 0 {
                        cr.application_routers is None
                    } else {
                        cr.application_routers is Some && opt_routers_view(cr.application_routers) == routers_view(self.routers_application.routers@)
                    }),
                None => if self.routers_application.routers@.len() == 0 {
                    r is None
                } else {
                    r matches Some(cr) && cr.service_routers is None && cr.application_routers is Some
                        && opt_routers_view(cr.application_routers) == routers_view(self.routers_application.routers@)
                },
            },
    {
        let app_is_null = self.routers_application.is_null();
        match self.service_pos(service_name) {
            Some(i) => {
                let svc = self.routers_service[i].1.copy();
                let app = if app_is_null {
                    None
                } else {
                    Some(self.routers_application.copy())
                };
                assert(keyed_routers_view(self.routers_service@)[i as int].1 == routers_view(self.routers_service@[i as int].1.routers@));
                Some(ConditionRouter::new(Some(svc), app))
            },
            None => {
                if app_is_null {
                    None
                } else {
                    Some(ConditionRouter::new(None, Some(self.routers_application.copy())))
                }
            },
        }
    }

    /// Replaces the rules of the configuration's scope: the application's
    /// for scope `application`, the service `key`'s for scope `service`;
    /// any other scope changes nothing. Every rule must be readable.
    pub fn update(&mut self, config: ConditionRouterConfig)
        requires
            config_readable(config),
        ensures
            updated_by(*old(self), config, *final(self)),
    {
        proof {
            reveal_strlit("application");
            reveal_strlit("service");
            assert("application"@ =~= scope_application());
            assert("service"@ =~= scope_service());
        }
        let routers = build_rules(&config);
        let ghost rules = routers_view(routers@);
        if is_text(&config.scope, "application") {
            self.routers_application = ConditionSingleRouters::new(routers);
        } else if is_text(&config.scope, "service") {
            proof {
                assert(config.scope@ != scope_application());
            }
            let ghost before = keyed_routers_view(self.routers_service@);
            match self.service_pos(&config.key) {
                Some(i) => {
                    let key = config.key.clone();
                    self.routers_service.set(i, (key, ConditionSingleRouters::new(routers)));
                    assert(keyed_routers_view(self.routers_service@) =~= before.update(i as int, (config.key@, rules)));
                },
                None => {
                    let key = config.key.clone();
                    self.routers_service.push((key, ConditionSingleRouters::new(routers)));
                    assert(keyed_routers_view(self.routers_service@) =~= before.push((config.key@, rules)));
                },
            }
            proof {
                let after = keyed_routers_view(self.routers_service@);
                lemma_first_pos(after, config.key@);
                lemma_first_pos(before, config.key@);
                let p = first_pos(before, config.key@);
                if p < 0 {
                    assert forall|j: int| 0 <= j < before.len() implies (#[trigger] after[j]).0 != config.key@ by {
                        assert(after[j] == before[j]);
                    }
                    lemma_first_pos_at(after, config.key@, before.len() as int);
                } else {
                    assert forall|j: int| 0 <= j < p implies (#[trigger] after[j]).0 != config.key@ by {
                        assert(after[j] == before[j]);
                    }
                    lemma_first_pos_at(after, config.key@, p);
                }
                assert(named(after, config.key@) == Some(rules));
                assert(after == put_named(before, config.key@, rules));
            }
        }
    }

    /// Replaces the rules of the configuration's scope as `update` does, or
    /// gives the error of the first rule that cannot be read, changing
    /// nothing.
    pub fn try_update(&mut self, config: ConditionRouterConfig) -> (r: Result<(), RuleError>)
        ensures
            r is Ok <==> config_readable(config),
            r is Ok ==> updated_by(*old(self), config, *final(self)),
            r is Err ==> *final(self) == *old(self),
    {
        match check_config(&config) {
            Ok(()) => {
                self.update(config);
                Ok(())
            },
            Err(e) => Err(e),
        }
    }
}

/// Whether `s` is `word`.
fn is_text(s: &String, word: &str) -> (b: bool)
    ensures
        b == (s@ == word@),
{
    *s == String::from_str(word)
}

/// The rules read from each condition of a readable configuration.
fn build_rules(config: &ConditionRouterConfig) -> (r: Vec<ConditionSingleRouter>)
    requires
        config_readable(*config),
    ensures
        config_rules(*config, routers_view(r@)),
{
    let mut v: Vec<ConditionSingleRouter> = Vec::new();
    let mut i: usize = 0;
    while i < config.conditions.len()
        invariant
            config_readable(*config),
            i <= config.conditions@.len(),
            routers_view(v@).len() == i,
            forall|j: int| 0 <= j < i ==> (#[trigger] routers_view(v@)[j]).name == seq!['c', 'o', 'n', 'd', 'i', 't', 'i', 'o', 'n'] && routers_view(v@)[j].enabled == config.enabled && routers_view(v@)[j].force == config.force && (config.enabled ==> rule_conditions(config.conditions@[j]@) == Ok::<_, RuleError>((routers_view(v@)[j].when, routers_view(v@)[j].then_conds))) && (!config.enabled ==> routers_view(v@)[j].when.len() == 0 && routers_view(v@)[j].then_conds.len() == 0),
        decreases config.conditions@.len() - i,
    {
        let r = ConditionSingleRouter::new(config.conditions[i].clone(), config.force, config.enabled);
        let ghost prev = v@;
        v.push(r);
        assert(routers_view(v@) =~= routers_view(prev).push(v@[i as int]@));
        i = i + 1;
    }
    v
}

} // verus!
