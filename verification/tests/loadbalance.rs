use dubbo::invocation::RpcInvocation;
use dubbo::loadbalance::{RandomLoadBalancer, weighted_index, weighted_random_index, RandomLoadBalance, Random, RoundRobin, RoundRobinLoadBalance};
use dubbo::url::Url;
use rand::{rngs::StdRng, SeedableRng};

fn get_test_invokers(n: usize) -> Vec<Url> {
    (0..n)
        .map(|i| Url::from_url(&format!("tri://127.0.0.1:{}/test.Service", 8000 + i)).unwrap())
        .collect()
}

fn get_test_url() -> Url {
    Url::from_url("tri://127.0.0.1:9999/test.Service").unwrap()
}

#[test]
fn test_random_load_balance() {
    let mut random = Random::new();
    let invokers = get_test_invokers(4);
    for i in 0..11 {
        let invocation = RpcInvocation::new();
        let selected = random.do_select(&invokers, &get_test_url(), &invocation);
        println!("{:},{:?}", i, selected.unwrap().uri);
    }
}

#[test]
fn test_round_robin_load_balance() {
    let mut round_robin = RoundRobin::new();
    let invokers = get_test_invokers(9);
    for i in 0..100 {
        let option = round_robin.do_select(&invokers, &get_test_url(), &RpcInvocation::new());
        println!("{:},{:?}", i, option.unwrap().uri);
    }
}

#[test]
fn weighted_index_ignores_zero_weight_when_positive_weight_exists() {
    let mut rng = StdRng::seed_from_u64(7);

    for _ in 0..100 {
        assert_eq!(weighted_index(&[0, 100], &mut rng), Some(1));
    }
}

#[test]
fn weighted_index_returns_none_when_all_weights_are_zero() {
    let mut rng = StdRng::seed_from_u64(7);

    assert_eq!(weighted_index(&[0, 0], &mut rng), None);
}

#[test]
fn weighted_random_index_falls_back_to_uniform() {
    let mut rng = StdRng::seed_from_u64(3);
    for _ in 0..20 {
        assert!(weighted_random_index(&[0, 0, 0], &mut rng) < 3);
        assert_eq!(weighted_random_index(&[0, 0, 5], &mut rng), 2);
    }
}

#[test]
fn round_robin_cycles_per_fingerprint() {
    let mut lb = RoundRobinLoadBalance::default();
    let invokers = get_test_invokers(3);
    let a = RpcInvocation::new().with_service_unique_name("svc".to_string()).with_method_name("a".to_string());
    let b = RpcInvocation::new().with_service_unique_name("svc".to_string()).with_method_name("b".to_string());
    let picks: Vec<String> = (0..6).map(|_| lb.select(&invokers, None, &a).unwrap().port).collect();
    assert_eq!(picks, vec!["8000", "8001", "8002", "8000", "8001", "8002"]);
    assert_eq!(lb.select(&invokers, None, &b).unwrap().port, "8000");
    assert_eq!(lb.counter_map.len(), 2);
    assert_eq!(lb.counter_map[0], ("svc#a".to_string(), 6));
    assert!(lb.select(&Vec::new(), None, &a).is_none());
}

#[test]
fn random_load_balance_picks_a_member() {
    let lb = RandomLoadBalance::default();
    assert_eq!(lb.metadata.name, "random");
    let invokers = get_test_invokers(5);
    for _ in 0..20 {
        let u = lb.select(&invokers, None, &RpcInvocation::new()).unwrap();
        assert!(invokers.contains(&u));
    }
    assert!(lb.select(&Vec::new(), None, &RpcInvocation::new()).is_none());
}

#[test]
fn old_round_robin_wraps_modulo() {
    let mut rr = RoundRobin::new();
    rr.counter = 7;
    let invokers = get_test_invokers(3);
    let u = rr.do_select(&invokers, &get_test_url(), &RpcInvocation::new()).unwrap();
    assert_eq!(u.port, "8001");
    assert_eq!(rr.counter, 8);
}

#[test]
fn random_load_balancer_skips_zero_weights() {
    let mut rng = rand::rngs::StdRng::seed_from_u64(11);
    let lb = RandomLoadBalancer::default();
    for _ in 0..50 {
        let i = lb.select_invokers(&[0, 5, 0, 7], &mut rng);
        assert!(i == 1 || i == 3);
    }
    for _ in 0..50 {
        assert!(lb.select_invokers(&[0, 0, 0], &mut rng) < 3);
    }
}

#[test]
fn random_policy_picks_a_member_and_stays_as_it_was() {
    let mut random = Random::new();
    let invokers = get_test_invokers(3);
    for _ in 0..10 {
        let u = random.do_select(&invokers, &get_test_url(), &RpcInvocation::new()).unwrap();
        assert!(invokers.contains(&u));
        assert_eq!(random.metadata.name, "random");
    }
}
