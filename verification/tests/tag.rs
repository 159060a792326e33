use dubbo::context::RpcContext;
use dubbo::tag::{TagRouter, FORCE_USE_TAG, TAG_KEY};
use dubbo::url::Url;

const RED_INVOKER_URL: &str = "dubbo://10.20.3.1:20880/com.foo.BarService";
const DEFAULT_INVOKER_URL: &str = "dubbo://10.20.3.4:20880/com.foo.BarService";

fn tagged(text: &str, tag: &str) -> Url {
    let mut u = Url::from_url(text).unwrap();
    u.decode(format!("dubbo.tag={}", tag));
    u
}

fn invokers() -> Vec<Url> {
    vec![
        tagged(RED_INVOKER_URL, "red"),
        tagged(RED_INVOKER_URL, "yellow"),
        tagged(RED_INVOKER_URL, "blue"),
        Url::from_url(DEFAULT_INVOKER_URL).unwrap(),
    ]
}

fn ctx(tag: Option<&str>, force: Option<&str>) -> RpcContext {
    let mut c = RpcContext::new();
    if let Some(t) = tag {
        c.attachments.insert(TAG_KEY.to_string(), t.to_string());
    }
    if let Some(f) = force {
        c.attachments.insert(FORCE_USE_TAG.to_string(), f.to_string());
    }
    c
}

fn tags_of(us: &[Url]) -> Vec<Option<String>> {
    us.iter().map(|u| u.get_param(TAG_KEY.to_string())).collect()
}

#[test]
fn route_match_tag() {
    let r = TagRouter::new();
    let out = r.route(&invokers(), &ctx(Some("red"), None));
    assert_eq!(tags_of(&out), vec![Some("red".to_string())]);
}

#[test]
fn route_match_default() {
    let r = TagRouter::new();
    let out = r.route(&invokers(), &ctx(Some(""), None));
    assert_eq!(out.len(), 1);
    assert_eq!(out[0].ip, "10.20.3.4");
}

#[test]
fn route_request_with_tag_should_downgrade() {
    let r = TagRouter::new();
    let out = r.route(&invokers(), &ctx(Some("black"), None));
    assert_eq!(tags_of(&out), vec![None]);
    let out = r.route(&invokers(), &ctx(Some("black"), Some("false")));
    assert_eq!(tags_of(&out), vec![None]);
}

#[test]
fn forced_tag_does_not_downgrade() {
    let r = TagRouter::new();
    let out = r.route(&invokers(), &ctx(Some("black"), Some("true")));
    assert!(out.is_empty());
    let out = r.route(&invokers(), &ctx(Some("blue"), Some("true")));
    assert_eq!(tags_of(&out), vec![Some("blue".to_string())]);
}

#[test]
fn route_request_without_tag_should_not_downgrade() {
    let r = TagRouter::new();
    let only_tagged = vec![tagged(RED_INVOKER_URL, "red"), tagged(RED_INVOKER_URL, "yellow")];
    let out = r.route(&only_tagged, &ctx(Some(""), None));
    assert!(out.is_empty());
    let out = r.route(&only_tagged, &ctx(None, None));
    assert!(out.is_empty());
}

#[test]
fn tag_router_url_and_priority() {
    let r = TagRouter::new();
    assert_eq!(r.get_priority(), 100);
    assert_eq!(r.get_url().protocol, "tag");
    assert_eq!(r.get_url().ip, "0.0.0.0");
    assert!(TagRouter::try_new().is_some());
}
