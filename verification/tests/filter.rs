use dubbo::context::RpcContext;
use dubbo::filter::{
    cluster_filter, decimal, ClusterFilter, Code, ContextFilter, Filter, FilterService, Forward, Status, TimeoutFilter,
    TIMEOUT_COUNTDOWN, TRI_TIMEOUT_DEADLINE_IN_NANOS,
};
use dubbo::invocation::Metadata;
use dubbo::invocation::Request;
use dubbo::loadbalance::{get_loadbalancer, BalancerKind};

#[test]
fn decimal_text_of_numbers() {
    assert_eq!(decimal(0), "0");
    assert_eq!(decimal(7), "7");
    assert_eq!(decimal(10), "10");
    assert_eq!(decimal(1_700_000_000_123_456_789), "1700000000123456789");
    assert_eq!(decimal(u128::MAX), u128::MAX.to_string());
}

#[test]
fn context_filter_records_the_countdown_deadline() {
    let mut ctx = RpcContext::new();
    let mut req = Request::new(());
    req.metadata.insert(TIMEOUT_COUNTDOWN.to_string(), "3000".to_string());
    let out = ContextFilter {}.call(req, &mut ctx, 5);
    assert!(out.is_ok());
    assert_eq!(ctx.attachments.get(TRI_TIMEOUT_DEADLINE_IN_NANOS), Some("3000000005".to_string()));
}

#[test]
fn context_filter_uses_the_default_without_countdown() {
    let mut ctx = RpcContext::new();
    ContextFilter {}.call(Request::new(()), &mut ctx, 1).unwrap();
    assert_eq!(ctx.attachments.get(TRI_TIMEOUT_DEADLINE_IN_NANOS), Some("1000000001".to_string()));
    let mut zero = Request::new(());
    zero.metadata.insert(TIMEOUT_COUNTDOWN.to_string(), "0".to_string());
    ContextFilter {}.call(zero, &mut ctx, 1).unwrap();
    assert_eq!(ctx.attachments.get(TRI_TIMEOUT_DEADLINE_IN_NANOS), Some("0".to_string()));
}

#[test]
fn timeout_filter_refuses_once_the_deadline_has_come() {
    let mut ctx = RpcContext::new();
    ContextFilter {}.call(Request::new(()), &mut ctx, 100).unwrap();
    let deadline: u128 = 100 + 1_000_000_000;
    assert!(TimeoutFilter {}.call(Request::new(()), &ctx, deadline - 1).is_ok());
    let refused = TimeoutFilter {}.call(Request::new(()), &ctx, deadline).unwrap_err();
    assert_eq!(refused.code, Code::DeadlineExceeded);
    assert_eq!(refused.message, "Timeout");
    assert!(TimeoutFilter {}.call(Request::new(()), &ctx, deadline + 1).is_err());
}

#[test]
fn balancer_by_name() {
    assert_eq!(get_loadbalancer("random"), BalancerKind::Random);
    assert_eq!(get_loadbalancer("p2c"), BalancerKind::P2c);
    assert_eq!(get_loadbalancer("other"), BalancerKind::P2c);
}

const USER_AGENT: &str = "user-agent";

struct AddAgent;

impl ClusterFilter for AddAgent {
    fn call(&mut self, mut req: Request<()>) -> Result<Request<()>, Status> {
        req.metadata.insert(USER_AGENT.to_string(), "dubbo-test".to_string());
        Ok(req)
    }
}

struct Deny;

impl Filter for Deny {
    fn call(&mut self, _req: Request<()>) -> Result<Request<()>, Status> {
        Err(Status { code: Code::PermissionDenied, message: "PermissionDenied from ClusterFilter.".to_string() })
    }
}

#[test]
fn cluster_filter_adds_metadata_and_keeps_the_message() {
    let mut svc = cluster_filter(AddAgent).layer("inner");
    assert_eq!(svc.inner, "inner");
    match svc.forward(Metadata::new(), 42u32) {
        Forward::Call(req) => {
            assert_eq!(req.message, 42);
            assert_eq!(req.metadata.params().get(USER_AGENT), Some("dubbo-test".to_string()));
        }
        Forward::Answer(s) => panic!("refused: {:?}", s),
    }
}

#[test]
fn refused_request_is_answered_with_the_status() {
    let mut svc = FilterService::new((), Deny);
    match svc.forward(Metadata::new(), "body") {
        Forward::Answer(s) => {
            assert_eq!(s.code, Code::PermissionDenied);
            assert_eq!(s.message, "PermissionDenied from ClusterFilter.");
        }
        Forward::Call(_) => panic!("expected a refusal"),
    }
}

#[test]
fn forward_from_the_filter_answer() {
    let mut m = Metadata::new();
    m.insert("k".to_string(), "v".to_string());
    match Forward::from_filtered(Ok(Request::from_parts(m, ())), 7u8) {
        Forward::Call(req) => {
            assert_eq!(req.message, 7);
            assert_eq!(req.metadata.params().get("k"), Some("v".to_string()));
        }
        Forward::Answer(s) => panic!("refused: {:?}", s),
    }
    let denied = Status { code: Code::Internal, message: "no".to_string() };
    match Forward::from_filtered(Err(denied.clone()), 7u8) {
        Forward::Answer(s) => assert_eq!(s, denied),
        Forward::Call(_) => panic!("expected a refusal"),
    }
}
