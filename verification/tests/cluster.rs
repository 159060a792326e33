use dubbo::body::BufferedBody;
use dubbo::cluster::{attempt_request, ClusterAction, ClusterCall, ClusterStrategy, FailoverPolicy, RequestHead};

fn run(strategy: ClusterStrategy, failures: usize) -> (usize, ClusterAction) {
    let (mut call, mut action) = ClusterCall::start(strategy);
    let mut calls = 0;
    while action == ClusterAction::Call {
        let ok = calls >= failures;
        calls += 1;
        action = call.on_outcome(ok);
    }
    (calls, action)
}

#[test]
fn failover_honors_configured_attempts() {
    assert_eq!(
        run(ClusterStrategy::Failover { attempts: 2 }, 1),
        (2, ClusterAction::ReturnResponse)
    );
}

#[test]
fn failover_returns_last_error_after_attempts_are_exhausted() {
    assert_eq!(
        run(ClusterStrategy::Failover { attempts: 1 }, 2),
        (1, ClusterAction::ReturnLastError)
    );
}

#[test]
fn failfast_makes_one_attempt() {
    assert_eq!(run(ClusterStrategy::Failfast, 1), (1, ClusterAction::ReturnLastError));
    assert_eq!(run(ClusterStrategy::Failfast, 0), (1, ClusterAction::ReturnResponse));
}

#[test]
fn strategies_parse_and_default() {
    assert_eq!(ClusterStrategy::parse("failfast"), Some(ClusterStrategy::Failfast));
    assert_eq!(ClusterStrategy::parse("failover"), Some(ClusterStrategy::Failover { attempts: 2 }));
    assert_eq!(ClusterStrategy::parse("other"), None);
    assert_eq!(ClusterStrategy::default(), ClusterStrategy::Failover { attempts: 2 });
    assert_eq!(
        ClusterStrategy::default().with_failover_attempts(0),
        ClusterStrategy::Failover { attempts: 1 }
    );
    assert_eq!(
        ClusterStrategy::default().with_failover_attempts(5),
        ClusterStrategy::Failover { attempts: 5 }
    );
    assert_eq!(ClusterStrategy::Failfast.with_failover_attempts(5), ClusterStrategy::Failfast);
}

#[test]
fn failover_policy_retries_only_errors() {
    assert!(FailoverPolicy.retry(false));
    assert!(!FailoverPolicy.retry(true));
}

#[test]
fn every_attempt_resends_the_head_and_only_the_first_carries_body_and_extensions() {
    let head = RequestHead {
        method: "POST".to_string(),
        uri: "http://127.0.0.1:8888/org.apache.dubbo.sample.tri.Greeter/greet".to_string(),
        version: "HTTP/2.0".to_string(),
        headers: vec![("content-type".to_string(), "application/grpc".to_string()), ("te".to_string(), "trailers".to_string())],
    };
    let original = BufferedBody::new(false, 1024);
    let replay = original.replica();
    let mut first_body = Some(original);
    let mut first_extensions = Some(7u32);

    let first = attempt_request(&head, &mut first_body, &replay, &mut first_extensions);
    assert_eq!(first.head.method, "POST");
    assert_eq!(first.head.uri, head.uri);
    assert_eq!(first.head.version, "HTTP/2.0");
    assert_eq!(first.head.headers, head.headers);
    assert!(first.body.owned.is_some());
    assert!(!first.body.replay_body);
    assert_eq!(first.extensions, Some(7));
    assert!(first_body.is_none());
    assert!(first_extensions.is_none());

    for _ in 0..2 {
        let later = attempt_request(&head, &mut first_body, &replay, &mut first_extensions);
        assert_eq!(later.head.headers, head.headers);
        assert_eq!(later.head.uri, head.uri);
        assert!(later.body.owned.is_none());
        assert!(later.body.replay_body && later.body.replay_trailers);
        assert_eq!(later.extensions, None);
    }
}
