use dubbo::extension::{
    Exchange, ExtensionDirectoryCommander, ExtensionPromiseResolver, InvokerOp, InvokerProxy, InvokerProxyFailure,
    ProxyFailure, RegistryOp, RegistryProxy,
    to_extension_url, ExtensionDirectory, ExtensionFactories, ExtensionLoader, ExtensionType,
    InstanceCache, InvokerExtensionLoaderError, InvokerProxyError, LoadFailure, RegistryProxyError,
};
use dubbo::url::Url;

fn ext_url(name: &str) -> Url {
    let reg = Url::from_url(&format!("{}://127.0.0.1:8848/", name)).unwrap();
    to_extension_url(reg)
}

#[test]
fn extension_url_names_the_registry_protocol() {
    let reg = Url::from_url("nacos://127.0.0.1:8848/").unwrap();
    let u = to_extension_url(reg.clone());
    assert_eq!(u.protocol, "extension");
    assert_eq!(u.ip, "0.0.0.0");
    assert_eq!(u.get_param("extension-type".to_string()), Some("registry".to_string()));
    assert_eq!(u.get_param("extension-name".to_string()), Some("nacos".to_string()));
    assert_eq!(u.get_param("registry-url".to_string()), Some(reg.uri));
    assert_eq!(ExtensionType::Registry.as_str(), "registry");
    assert_eq!(ExtensionType::Invoker.as_str(), "invoker");
}

#[test]
fn registered_factory_is_loaded_by_name() {
    let mut l: ExtensionLoader<u32> = ExtensionLoader::new();
    l.register("nacos".to_string(), 1);
    l.register("zookeeper".to_string(), 2);
    assert_eq!(l.load(&ext_url("nacos")), Ok(&1));
    assert_eq!(l.load(&ext_url("zookeeper")), Ok(&2));
    l.register("nacos".to_string(), 3);
    assert_eq!(l.load(&ext_url("nacos")), Ok(&3));
    assert_eq!(l.factories.len(), 2);
}

#[test]
fn loading_fails_without_name_or_factory() {
    let mut l: ExtensionLoader<u32> = ExtensionLoader::new();
    l.register("nacos".to_string(), 1);
    assert_eq!(l.load(&ext_url("etcd")), Err(LoadFailure::NotFound));
    let plain = Url::from_url("nacos://127.0.0.1:8848/").unwrap();
    assert_eq!(l.load(&plain), Err(LoadFailure::NoName));
}

#[test]
fn removed_factory_is_not_found() {
    let mut l: ExtensionLoader<u32> = ExtensionLoader::new();
    l.register("nacos".to_string(), 1);
    l.register("zookeeper".to_string(), 2);
    l.remove("nacos".to_string());
    assert_eq!(l.load(&ext_url("nacos")), Err(LoadFailure::NotFound));
    assert_eq!(l.load(&ext_url("zookeeper")), Ok(&2));
    l.remove("absent".to_string());
    assert_eq!(l.factories.len(), 1);
}

#[test]
fn directory_registers_by_kind() {
    let mut d: ExtensionDirectory<u32, u32> = ExtensionDirectory::new();
    d.register(
        "nacos".to_string(),
        ExtensionFactories::RegistryExtensionFactory(7),
        ExtensionType::Registry,
    );
    d.register(
        "invoker".to_string(),
        ExtensionFactories::InvokerExtensionFactory(8),
        ExtensionType::Registry,
    );
    assert_eq!(d.registry_extension_loader.factories.len(), 1);
    assert_eq!(d.invoker_extension_loader.factories.len(), 0);
    assert_eq!(d.registry_extension_loader.load(&ext_url("nacos")), Ok(&7));
    d.remove("nacos".to_string(), ExtensionType::Registry);
    assert_eq!(d.registry_extension_loader.factories.len(), 0);
}

#[test]
fn cache_makes_one_instance_per_url() {
    let mut c: InstanceCache<u32> = InstanceCache::new();
    let a = c.get_or_insert_with("nacos://a".to_string(), || 10);
    let b = c.get_or_insert_with("nacos://b".to_string(), || 20);
    let a2 = c.get_or_insert_with("nacos://a".to_string(), || 30);
    assert_eq!((a, b, a2), (0, 1, 0));
    assert_eq!(c.instances[0].1, 10);
    assert_eq!(c.instances.len(), 2);
}

#[test]
fn error_messages() {
    assert_eq!(InvokerExtensionLoaderError::new("boom").to_string(), "boom");
    assert_eq!(InvokerProxyError::new("boom").to_string(), "invoker proxy error: boom");
    assert_eq!(RegistryProxyError::new("x").to_string().ends_with("x"), true);
}

#[test]
fn commander_outcomes() {
    let c = ExtensionDirectoryCommander::default();
    assert!(c.register_outcome::<()>("nacos", Exchange::Replied(Err(()))).is_ok());
    assert_eq!(
        c.register_outcome::<()>("nacos", Exchange::NotSent).unwrap_err().to_string(),
        "register extension nacos failed"
    );
    assert_eq!(
        c.remove_outcome::<()>("nacos", Exchange::NoReply).unwrap_err().to_string(),
        "remove extension nacos failed"
    );
    assert_eq!(c.load_outcome::<u32, ()>("u", ExtensionType::Invoker, Exchange::Replied(Ok(5))).unwrap(), 5);
    assert_eq!(
        c.load_outcome::<u32, ()>("nacos://h:1", ExtensionType::Registry, Exchange::Replied(Err(())))
            .unwrap_err()
            .to_string(),
        "load registry extension failed: nacos://h:1"
    );
    assert_eq!(
        c.load_outcome::<u32, ()>("x", ExtensionType::Invoker, Exchange::NotSent).unwrap_err().to_string(),
        "load invoker extension failed: x"
    );
}

#[test]
fn promise_keeps_what_was_made() {
    let mut p: ExtensionPromiseResolver<u32> =
        ExtensionPromiseResolver::new(Url::from_url("tri://127.0.0.1:1/a").unwrap());
    assert!(p.needs_creation());
    let e = p.on_created::<()>(Err(())).unwrap_err();
    assert_eq!(e.to_string(), "load extension failed, create extension occur an error");
    assert!(p.needs_creation());
    assert!(p.on_created::<()>(Ok(9)).is_ok());
    assert!(!p.needs_creation());
    assert_eq!(*p.resolved_data(), Some(9));
}

#[test]
fn proxy_outcomes() {
    let r = RegistryProxy { url: Url::from_url("nacos://127.0.0.1:8848/").unwrap() };
    assert_eq!(r.url().port, "8848");
    assert_eq!(r.outcome::<u32, ()>(RegistryOp::Register, Exchange::Replied(Ok(1))).unwrap(), 1);
    assert!(matches!(r.outcome::<u32, &str>(RegistryOp::Subscribe, Exchange::Replied(Err("x"))), Err(ProxyFailure::Remote("x"))));
    match r.outcome::<u32, ()>(RegistryOp::Unsubscribe, Exchange::NotSent) {
        Err(ProxyFailure::Proxy(p)) => assert_eq!(p.to_string(), "registry proxy error: send unsubscribe opt failed"),
        _ => panic!("expected a proxy error"),
    }
    match r.outcome::<u32, ()>(RegistryOp::Unregister, Exchange::NoReply) {
        Err(ProxyFailure::Proxy(p)) => assert_eq!(p.0, "receive unregister response failed"),
        _ => panic!("expected a proxy error"),
    }
    let i = InvokerProxy::default();
    assert!(matches!(i.outcome::<u32, ()>(InvokerOp::Url, Exchange::NoReply), Err(InvokerProxyFailure::ReplyLost)));
    match i.outcome::<u32, ()>(InvokerOp::Invoke, Exchange::NotSent) {
        Err(InvokerProxyFailure::Proxy(p)) => {
            assert_eq!(p.to_string(), "invoker proxy error: call invoke method failed by invoker proxy")
        }
        _ => panic!("expected a proxy error"),
    }
}

#[test]
fn directory_remove_keeps_the_other_names() {
    let mut d: ExtensionDirectory<u32, u32> = ExtensionDirectory::new();
    d.register("nacos".to_string(), ExtensionFactories::RegistryExtensionFactory(7), ExtensionType::Registry);
    d.register("zookeeper".to_string(), ExtensionFactories::RegistryExtensionFactory(9), ExtensionType::Registry);
    d.remove("nacos".to_string(), ExtensionType::Registry);
    assert_eq!(d.registry_extension_loader.load(&ext_url("nacos")), Err(LoadFailure::NotFound));
    assert_eq!(d.registry_extension_loader.load(&ext_url("zookeeper")), Ok(&9));
    assert_eq!(d.registry_extension_loader.factories.len(), 1);
}
