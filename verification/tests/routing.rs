use dubbo::condition_router::{ConditionRouter, ConditionRouterConfig, ConditionRouterManager, ConditionSingleRouters};
use dubbo::invocation::RpcInvocation;
use dubbo::matcher::{digits_u128, range_matcher, star_matcher, ConditionMatcher};
use dubbo::router_chain::{
    ConsumerConfig, NacosConfig, RouterConfig, RouterConfigChangeEvent, RouterConfigUpdate, RouterInitError,
    RouterInitStep, RouterKind, RouterManager,
};
use dubbo::single_router::{ConditionSingleRouter, RuleError};
use dubbo::tag_router::{TagConfig, TagMatch, TagRouterConfig, TagRouterManager};
use dubbo::url::Url;

fn url(s: &str) -> Url {
    Url::from_url(s).unwrap()
}

fn invokers() -> Vec<Url> {
    vec![
        url("tri://127.0.0.1:8888/org.apache.dubbo.sample.tri.Greeter"),
        url("tri://127.0.0.1:8889/org.apache.dubbo.sample.tri.Greeter"),
        url("tri://127.0.0.1:8800/org.apache.dubbo.sample.tri.Greeter"),
        url("tri://127.0.2.1:8880/org.apache.dubbo.sample.tri.Greeter"),
    ]
}

fn ports(v: &[Url]) -> Vec<&str> {
    v.iter().map(|u| u.port.as_str()).collect()
}

fn greet() -> RpcInvocation {
    RpcInvocation::new()
        .with_method_name("greet".to_string())
        .with_service_unique_name("org.apache.dubbo.sample.tri.Greeter".to_string())
}

#[test]
fn matcher_patterns() {
    let mut m = ConditionMatcher::new("port".to_string());
    m.add_match("88*".to_string());
    assert_eq!(m.is_match(Some("8888".to_string())), Ok(true));
    assert_eq!(m.is_match(Some("9000".to_string())), Ok(false));
    assert_eq!(m.is_match(None), Ok(false));
    let mut r = ConditionMatcher::new("port".to_string());
    r.add_match("8000~8850".to_string());
    assert_eq!(r.is_match(Some("8800".to_string())), Ok(true));
    assert_eq!(r.is_match(Some("8888".to_string())), Ok(false));
    assert_eq!(r.is_match(Some("x".to_string())), Ok(false));
    let mut n = ConditionMatcher::new("ip".to_string());
    n.add_mismatch("127.0.0.1".to_string());
    assert_eq!(n.is_match(Some("127.0.2.1".to_string())), Ok(true));
    assert_eq!(n.is_match(Some("127.0.0.1".to_string())), Ok(false));
    let mut bad = ConditionMatcher::new("ip".to_string());
    bad.add_match("(*".to_string());
    assert!(bad.is_match(Some("x".to_string())).is_err());
    assert!(range_matcher(5, 1, 5));
    assert!(!range_matcher(6, 1, 5));
    assert_eq!(star_matcher("a*c", "xxabbbcyy"), Some(true));
    assert_eq!(star_matcher("a*c", "xyz"), Some(false));
}

#[test]
fn rule_reading_errors() {
    assert_eq!(ConditionSingleRouter::try_new("   ".to_string(), false, true).err(), Some(RuleError::Blank));
    assert_eq!(ConditionSingleRouter::try_new("ip=1".to_string(), false, true).err(), Some(RuleError::NoArrow));
    assert_eq!(ConditionSingleRouter::try_new("=> ,x".to_string(), false, true).err(), Some(RuleError::Syntax));
    assert_eq!(ConditionSingleRouter::try_new("ip , x => ".to_string(), false, true).err(), Some(RuleError::Syntax));
    assert!(ConditionSingleRouter::try_new("".to_string(), false, false).is_ok());
}

#[test]
fn rule_sides_are_read() {
    let r = ConditionSingleRouter::new("consumer.method = greet & ip != 10.0.0.1 => provider.port = 8888,8889".to_string(), false, true);
    assert_eq!(r.name, "condition");
    assert_eq!(r.when_condition.len(), 2);
    assert_eq!(r.when_condition[0].key(), "method");
    assert_eq!(r.when_condition[0].get_matches(), &vec!["greet".to_string()]);
    assert_eq!(r.when_condition[1].key(), "ip");
    assert_eq!(r.when_condition[1].get_mismatches(), &vec!["10.0.0.1".to_string()]);
    assert_eq!(r.then_condition.len(), 1);
    assert_eq!(r.then_condition[0].get_matches(), &vec!["8888".to_string(), "8889".to_string()]);
    let t = ConditionSingleRouter::new("true => false".to_string(), false, true);
    assert!(t.when_condition.is_empty() && t.then_condition.is_empty());
}

#[test]
fn condition_rule_routes() {
    let consumer = url("consumer://10.0.0.5:0/org.apache.dubbo.sample.tri.Greeter");
    let r = ConditionSingleRouter::new("method = greet => port = 8888,8800".to_string(), false, true);
    assert_eq!(ports(&r.route(invokers(), &consumer, &greet())), vec!["8888", "8800"]);
    let other = RpcInvocation::new().with_method_name("other".to_string());
    assert_eq!(ports(&r.route(invokers(), &consumer, &other)).len(), 4);
    let none = ConditionSingleRouter::new("=> port = 1".to_string(), false, true);
    assert_eq!(none.route(invokers(), &consumer, &greet()).len(), 4);
    let forced = ConditionSingleRouter::new("=> port = 1".to_string(), true, true);
    assert!(forced.route(invokers(), &consumer, &greet()).is_empty());
    let disabled = ConditionSingleRouter::new("=> port = 1".to_string(), true, false);
    assert_eq!(disabled.route(invokers(), &consumer, &greet()).len(), 4);
    let wild = ConditionSingleRouter::new("=> ip = 127.0.0.*".to_string(), false, true);
    assert_eq!(ports(&wild.route(invokers(), &consumer, &greet())), vec!["8888", "8889", "8800"]);
}

#[test]
fn condition_router_applies_application_then_service_rules() {
    let consumer = url("consumer://10.0.0.5:0/org.apache.dubbo.sample.tri.Greeter");
    let app = ConditionSingleRouters::new(vec![ConditionSingleRouter::new("=> port = 8888,8889,8880".to_string(), false, true)]);
    let svc = ConditionSingleRouters::new(vec![ConditionSingleRouter::new("=> ip = 127.0.2.1".to_string(), false, true)]);
    let cr = ConditionRouter::new(Some(svc), Some(app));
    assert_eq!(ports(&cr.route(invokers(), &consumer, &greet())), vec!["8880"]);
    assert!(ConditionSingleRouters::new(vec![]).is_null());
}

#[test]
fn condition_manager_updates_by_scope() {
    let mut m = ConditionRouterManager::default();
    assert!(m.get_router(&"svc".to_string()).is_none());
    m.update(ConditionRouterConfig {
        scope: "service".to_string(),
        key: "svc".to_string(),
        force: false,
        enabled: true,
        conditions: vec!["=> port = 8888".to_string()],
        ..Default::default()
    });
    let r = m.get_router(&"svc".to_string()).unwrap();
    assert!(r.service_routers.is_some() && r.application_routers.is_none());
    assert!(m.get_router(&"other".to_string()).is_none());
    m.update(ConditionRouterConfig {
        scope: "application".to_string(),
        enabled: true,
        conditions: vec!["=> port = 8889".to_string()],
        ..Default::default()
    });
    let r2 = m.get_router(&"other".to_string()).unwrap();
    assert!(r2.service_routers.is_none() && r2.application_routers.is_some());
    let bad = m.try_update(ConditionRouterConfig {
        scope: "service".to_string(),
        key: "svc".to_string(),
        enabled: true,
        conditions: vec!["no arrow".to_string()],
        ..Default::default()
    });
    assert_eq!(bad, Err(RuleError::NoArrow));
    assert_eq!(m.routers_service[0].1.routers.len(), 1);
}

fn tag_config(force: bool) -> TagRouterConfig {
    TagRouterConfig {
        force,
        enabled: true,
        tags: vec![
            TagConfig { name: "gray".to_string(), matches: vec![TagMatch { key: "port".to_string(), value: "8888".to_string() }] },
            TagConfig { name: "blue".to_string(), matches: vec![TagMatch { key: "ip".to_string(), value: "127.0.2.1".to_string() }] },
        ],
        ..Default::default()
    }
}

#[test]
fn tag_router_routes_by_tag() {
    let mut tm = TagRouterManager::default();
    tm.update(tag_config(false));
    let tr = tm.get_router(&"svc".to_string()).unwrap();
    let gray_consumer = url("consumer://10.0.0.5:8888/svc");
    assert_eq!(ports(&tr.route(invokers(), &gray_consumer, &greet())), vec!["8888"]);
    let plain_consumer = url("consumer://10.0.0.5:1/svc");
    assert_eq!(ports(&tr.route(invokers(), &plain_consumer, &greet())), vec!["8889", "8800"]);
    let blue_consumer = url("consumer://127.0.2.1:1/svc");
    let only_gray = vec![url("tri://127.0.0.1:8888/svc")];
    assert!(tr.route(only_gray, &blue_consumer, &greet()).is_empty());
    tm.update(tag_config(true));
    let forced = tm.get_router(&"svc".to_string()).unwrap();
    assert!(forced.route(vec![url("tri://127.0.0.1:8888/svc")], &blue_consumer, &greet()).is_empty());
}

#[test]
fn router_manager_builds_chain_for_registered_consumers() {
    let mut rm = RouterManager::new();
    let inv = greet();
    assert!(rm.get_router_chain(&inv).routers.is_empty());
    rm.add_consumer(
        "org.apache.dubbo.sample.tri.Greeter".to_string(),
        url("consumer://10.0.0.5:0/org.apache.dubbo.sample.tri.Greeter"),
    );
    let tag_only = rm.get_router_chain(&inv);
    assert_eq!(tag_only.routers.len(), 1);
    assert_eq!(tag_only.routers[0].0, "tag");
    rm.condition_router_manager.update(ConditionRouterConfig {
        scope: "application".to_string(),
        enabled: true,
        conditions: vec!["=> ip = 127.0.0.1".to_string()],
        ..Default::default()
    });
    let chain = rm.get_router_chain(&inv);
    assert_eq!(chain.routers.len(), 2);
    assert_eq!(chain.routers[0].0, "condition");
    assert_eq!(chain.routers[1].0, "tag");
    let left = chain.route(invokers(), &inv);
    assert_eq!(ports(&left), vec!["8888", "8889", "8800"]);
    let ev = RouterConfigChangeEvent { router_kind: "tag".to_string(), ..Default::default() };
    assert_eq!(ev.kind(), RouterKind::Tag);
}

#[test]
fn test() {
    let u1 = Url::from_url("tri://127.0.0.1:8888/org.apache.dubbo.sample.tri.Greeter").unwrap();
    let u2 = Url::from_url("tri://127.0.0.1:8889/org.apache.dubbo.sample.tri.Greeter").unwrap();
    let u3 = Url::from_url("tri://127.0.0.1:8800/org.apache.dubbo.sample.tri.Greeter").unwrap();
    let u4 = Url::from_url("tri://127.0.2.1:8880/org.apache.dubbo.sample.tri.Greeter").unwrap();
    let u5 = Url::from_url("tri://127.0.1.1:8882/org.apache.dubbo.sample.tri.Greeter").unwrap();
    let u6 = Url::from_url("tri://213.0.1.1:8888/org.apache.dubbo.sample.tri.Greeter").unwrap();
    let u7 = Url::from_url("tri://169.0.1.1:8887/org.apache.dubbo.sample.tri.Greeter").unwrap();
    let invs = vec![u1, u2, u3, u4, u5, u6, u7];
    let len = invs.len();
    let inv = RpcInvocation::new()
        .with_method_name("greet".to_string())
        .with_service_unique_name("org.apache.dubbo.sample.tri.Greeter".to_string());
    let x = RouterManager::new().get_router_chain(&inv);
    let result = x.route(invs, &inv);
    println!("total:{},result:{}", len, result.len());
    assert_eq!(result.len(), len);
}

fn greeter_consumer() -> ConsumerConfig {
    ConsumerConfig {
        service: "org.apache.dubbo.sample.tri.Greeter".to_string(),
        url: "consumer://10.0.0.5:0".to_string(),
    }
}

#[test]
fn router_manager_init_from_configuration_file() {
    let mut rm = RouterManager::new();
    let config = RouterConfig {
        consumer: Some(vec![greeter_consumer()]),
        nacos: None,
        conditions: Some(vec![ConditionRouterConfig {
            scope: "service".to_string(),
            key: "org.apache.dubbo.sample.tri.Greeter".to_string(),
            enabled: true,
            conditions: vec!["=> port = 8889".to_string()],
            ..Default::default()
        }]),
        tags: Some(tag_config(false)),
    };
    assert!(matches!(rm.init(config), RouterInitStep::Done));
    assert_eq!(rm.consumer.len(), 1);
    assert_eq!(rm.consumer[0].1.ip, "10.0.0.5");
    assert_eq!(rm.consumer_services(), vec!["org.apache.dubbo.sample.tri.Greeter".to_string()]);
    assert_eq!(rm.condition_router_manager.routers_service.len(), 1);
    assert!(rm.tag_router_manager.tag_router.enabled);
    let inv = greet();
    let left = rm.get_router_chain(&inv).route(invokers(), &inv);
    assert_eq!(ports(&left), vec!["8889"]);
}

#[test]
fn router_manager_init_defers_to_the_config_center() {
    let mut rm = RouterManager::new();
    let config = RouterConfig {
        consumer: Some(vec![greeter_consumer()]),
        nacos: Some(NacosConfig { addr: "127.0.0.1:8848".to_string(), ..Default::default() }),
        conditions: Some(vec![ConditionRouterConfig {
            scope: "service".to_string(),
            key: "x".to_string(),
            enabled: true,
            conditions: vec!["no arrow".to_string()],
            ..Default::default()
        }]),
        tags: None,
    };
    match rm.try_init(config) {
        Ok(RouterInitStep::FetchFromNacos(n)) => assert_eq!(n.addr, "127.0.0.1:8848"),
        other => panic!("unexpected {:?}", other),
    }
    assert!(rm.condition_router_manager.routers_service.is_empty());
    rm.apply_nacos_configs(
        Some(tag_config(true)),
        None,
        vec![Some(ConditionRouterConfig {
            scope: "service".to_string(),
            key: "org.apache.dubbo.sample.tri.Greeter".to_string(),
            enabled: true,
            conditions: vec!["=> port = 8800".to_string()],
            ..Default::default()
        })],
    );
    assert_eq!(rm.condition_router_manager.routers_service.len(), 1);
    assert!(rm.tag_router_manager.tag_router.force);
}

#[test]
fn router_manager_try_init_reports_bad_input() {
    let mut rm = RouterManager::new();
    let bad_consumer = RouterConfig {
        consumer: Some(vec![ConsumerConfig { service: "svc".to_string(), url: "no url".to_string() }]),
        ..Default::default()
    };
    assert!(matches!(rm.try_init(bad_consumer), Err(RouterInitError::ConsumerUrl(0))));
    let bad_rule = RouterConfig {
        conditions: Some(vec![ConditionRouterConfig {
            scope: "application".to_string(),
            enabled: true,
            conditions: vec!["   ".to_string()],
            ..Default::default()
        }]),
        ..Default::default()
    };
    assert!(matches!(rm.try_init(bad_rule), Err(RouterInitError::Rule(RuleError::Blank))));
    assert!(rm.consumer.is_empty());
}

#[test]
fn router_manager_notify_updates_rules() {
    let mut rm = RouterManager::new();
    rm.notify(RouterConfigUpdate::Tag(tag_config(false)));
    assert!(rm.tag_router_manager.tag_router.enabled);
    rm.notify(RouterConfigUpdate::Condition(ConditionRouterConfig {
        scope: "application".to_string(),
        enabled: true,
        conditions: vec!["=> port = 8800".to_string()],
        ..Default::default()
    }));
    assert_eq!(rm.condition_router_manager.routers_application.routers.len(), 1);
}

#[test]
fn blank_rule_error_message() {
    let e = ConditionSingleRouter::try_new("  \t ".to_string(), false, true).err().unwrap();
    assert_eq!(e.to_string(), "Illegal route rule!");
    assert_eq!(RuleError::Syntax.to_string(), "Error: ...");
    assert_eq!(RuleError::NoArrow.to_string(), "Illegal route rule: no `=>`");
}

#[test]
fn decimal_digits_are_read_up_to_the_u128_limit() {
    let chars = |s: &str| s.chars().collect::<Vec<char>>();
    assert_eq!(digits_u128(&chars("340282366920938463463374607431768211455"), 0), Some(u128::MAX));
    assert_eq!(digits_u128(&chars("340282366920938463463374607431768211456"), 0), None);
    assert_eq!(digits_u128(&chars("+42"), 1), Some(42));
    assert_eq!(digits_u128(&chars("+42"), 0), None);
    assert_eq!(digits_u128(&chars("12a"), 0), None);
    assert_eq!(digits_u128(&chars("-"), 1), None);
    assert_eq!(digits_u128(&chars("007"), 0), Some(7));
}

#[test]
fn range_patterns_read_signed_bounds() {
    let mut m = ConditionMatcher::new("port".to_string());
    m.add_match("-5~+5".to_string());
    assert_eq!(m.is_match(Some("-5".to_string())), Ok(true));
    assert_eq!(m.is_match(Some("+5".to_string())), Ok(true));
    assert_eq!(m.is_match(Some("6".to_string())), Ok(false));
}
