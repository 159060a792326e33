use dubbo::cluster_invoker::{address_of, init_loadbalance_extensions, BoxLoadBalance, ClusterInvoker};
use dubbo::invocation::RpcInvocation;
use dubbo::url::Url;

fn urls(ports: &[u16]) -> Vec<Url> {
    ports
        .iter()
        .map(|p| Url::from_url(&format!("tri://127.0.0.1:{}/org.apache.dubbo.sample.tri.Greeter", p)).unwrap())
        .collect()
}

fn inv() -> RpcInvocation {
    RpcInvocation::new()
        .with_service_unique_name("org.apache.dubbo.sample.tri.Greeter".to_string())
        .with_method_name("greet".to_string())
}

#[test]
fn registered_policies_are_random_and_roundrobin() {
    let m = init_loadbalance_extensions();
    let names: Vec<&str> = m.iter().map(|(n, _)| n.as_str()).collect();
    assert_eq!(names, vec!["random", "roundrobin"]);
    assert!(matches!(m[0].1, BoxLoadBalance::Random(_)));
    assert!(matches!(m[1].1, BoxLoadBalance::RoundRobin(_)));
}

#[test]
fn unknown_policy_falls_back_to_random() {
    let c = ClusterInvoker::with_directory(());
    assert_eq!(c.init_loadbalance("roundrobin"), "roundrobin");
    assert_eq!(c.init_loadbalance("p2c"), "random");
    assert!(!c.destroyed());
}

#[test]
fn select_with_none_or_one_invoker() {
    let mut c = ClusterInvoker::with_directory(());
    assert!(c.select(&inv(), &Vec::new(), &Vec::new()).is_none());
    let one = urls(&[8888]);
    assert_eq!(c.select(&inv(), &one, &Vec::new()).unwrap().port, "8888");
    assert!(c.is_available(&one));
    assert!(!c.is_available(&Vec::new()));
}

#[test]
fn select_among_several_picks_a_member() {
    let mut c = ClusterInvoker::with_directory(());
    let several = urls(&[8888, 8889, 8890]);
    for _ in 0..20 {
        let u = c.select(&inv(), &several, &Vec::new()).unwrap();
        assert!(several.contains(&u));
    }
}

#[test]
fn roundrobin_policy_by_name_takes_turns() {
    let mut c = ClusterInvoker::with_directory(());
    let several = urls(&[8888, 8889, 8890]);
    let picked: Vec<String> = (0..4)
        .map(|_| c.do_select(Some("roundrobin"), &inv(), &several).unwrap().port)
        .collect();
    assert_eq!(picked, vec!["8888", "8889", "8890", "8888"]);
}

#[test]
fn target_uri_is_http_address_of_the_invoker() {
    let mut c = ClusterInvoker::with_directory(());
    let one = urls(&[8888]);
    assert_eq!(c.target_uri(&inv(), &one).unwrap(), "http://127.0.0.1:8888/");
    assert!(c.target_uri(&inv(), &Vec::new()).is_none());
    assert_eq!(address_of(&one[0]), "http://127.0.0.1:8888/");
}

#[test]
fn default_or_unknown_policy_leaves_the_roundrobin_counters_alone() {
    let mut c = ClusterInvoker::with_directory(());
    let several = urls(&[8888, 8889, 8890]);
    for _ in 0..5 {
        assert!(several.contains(&c.do_select(None, &inv(), &several).unwrap()));
        assert!(several.contains(&c.do_select(Some("p2c"), &inv(), &several).unwrap()));
    }
    match &c.loadbalances[1].1 {
        BoxLoadBalance::RoundRobin(rr) => assert!(rr.counter_map.is_empty()),
        _ => panic!("second policy is roundrobin"),
    }
    assert_eq!(c.do_select(Some("roundrobin"), &inv(), &several).unwrap().port, "8888");
    match &c.loadbalances[1].1 {
        BoxLoadBalance::RoundRobin(rr) => assert_eq!(rr.counter_map.len(), 1),
        _ => panic!("second policy is roundrobin"),
    }
    assert_eq!(c.loadbalances[0].0, "random");
    assert_eq!(c.loadbalances[1].0, "roundrobin");
}
