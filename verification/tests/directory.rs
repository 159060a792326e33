use dubbo::directory::{list_ready, ReadyCheck, StaticDirectory};
use dubbo::invocation::RpcInvocation;

fn inv() -> RpcInvocation {
    RpcInvocation::new().with_service_unique_name("helloworld.Greeter".to_string())
}

#[test]
fn static_directory_lists_the_triple_endpoint() {
    let d = StaticDirectory::new("http://127.0.0.1:8888");
    let urls = d.list(&inv());
    assert_eq!(urls.len(), 1);
    assert_eq!(urls[0].protocol, "tri");
    assert_eq!(urls[0].ip, "127.0.0.1");
    assert_eq!(urls[0].port, "8888");
    assert_eq!(urls[0].service_key, vec!["helloworld.Greeter".to_string()]);
}

#[test]
fn static_directory_without_port_lists_nothing() {
    let d = StaticDirectory::try_new("http://127.0.0.1").unwrap();
    assert!(d.try_list(&inv()).is_none());
    assert!(StaticDirectory::try_new("http://[::1").is_none());
}

use dubbo::directory::{CachedDirectory, DiscoverEvent, Directory, DirectoryStep};

#[test]
fn directory_follows_discovery_changes() {
    let mut d = Directory::new();
    assert_eq!(d.on_discover(DiscoverEvent::Pending), DirectoryStep::Pending);
    assert_eq!(d.on_discover(DiscoverEvent::Insert("tri://a:1".to_string())), DirectoryStep::Continue);
    assert_eq!(d.on_discover(DiscoverEvent::Insert("tri://b:2".to_string())), DirectoryStep::Continue);
    assert_eq!(d.on_discover(DiscoverEvent::Insert("tri://a:1".to_string())), DirectoryStep::Continue);
    assert_eq!(d.call(), vec!["tri://a:1".to_string(), "tri://b:2".to_string()]);
    assert_eq!(d.on_discover(DiscoverEvent::Pending), DirectoryStep::Ready);
    assert_eq!(d.on_discover(DiscoverEvent::Remove("tri://a:1".to_string())), DirectoryStep::Continue);
    assert_eq!(d.call(), vec!["tri://b:2".to_string()]);
    assert_eq!(d.on_discover(DiscoverEvent::Failed), DirectoryStep::Failed);
    assert_eq!(d.on_discover(DiscoverEvent::Closed), DirectoryStep::Ready);
}

#[test]
fn cached_directory_is_made_once_per_service() {
    let mut c: CachedDirectory<u32> = CachedDirectory::new();
    let a = c.new_service(&inv(), || 1);
    let b = c.new_service(&inv(), || 2);
    let other = RpcInvocation::new().with_service_unique_name("other.Service".to_string());
    let o = c.new_service(&other, || 3);
    assert_eq!((a, b, o), (0, 0, 1));
    assert_eq!(c.cache.instances[0].1, 1);
}

#[test]
fn listing_keeps_the_invokers_still_ready_in_order() {
    let entries = vec![
        ("triple://127.0.0.1:8888/failover_cluster_service/directory/1".to_string(), ReadyCheck::Ready),
        ("triple://127.0.0.1:8888/failover_cluster_service/directory/2".to_string(), ReadyCheck::NotReady),
        ("triple://127.0.0.1:8888/failover_cluster_service/directory/3".to_string(), ReadyCheck::Failed),
        ("triple://127.0.0.1:8888/failover_cluster_service/directory/4".to_string(), ReadyCheck::Ready),
    ];
    assert_eq!(
        list_ready(&entries),
        Some(vec![
            "triple://127.0.0.1:8888/failover_cluster_service/directory/1".to_string(),
            "triple://127.0.0.1:8888/failover_cluster_service/directory/4".to_string(),
        ])
    );
    assert_eq!(list_ready(&Vec::new()), None);
    assert_eq!(list_ready(&vec![("x".to_string(), ReadyCheck::NotReady)]), Some(vec![]));
}
