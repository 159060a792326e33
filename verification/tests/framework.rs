use dubbo::framework::{Dubbo, InitError, ProtocolConfig, ProviderConfig, RootConfig, ServiceConfig};

fn tri() -> ProtocolConfig {
    ProtocolConfig { name: "tri".to_string(), ip: "0.0.0.0".to_string(), port: "8888".to_string() }
}

fn service(interface: &str, protocol: &str, ser: Option<&str>) -> ServiceConfig {
    ServiceConfig {
        interface: interface.to_string(),
        protocol: protocol.to_string(),
        serialization: ser.map(|s| s.to_string()),
    }
}

#[test]
fn protocol_url_text() {
    assert_eq!(tri().to_url(), "tri://0.0.0.0:8888");
}

#[test]
fn init_builds_service_urls_by_protocol() {
    let config = RootConfig {
        provider: ProviderConfig {
            services: vec![
                ("a".to_string(), service("helloworld.Greeter", "tri", Some("json"))),
                ("b".to_string(), service("grpc.examples.echo.Echo", "tri", None)),
            ],
        },
        protocols: vec![("tri".to_string(), tri())],
    };
    let mut d = Dubbo::new().with_config(config);
    assert_eq!(d.init(), Ok(()));
    assert_eq!(d.protocols.len(), 1);
    assert_eq!(d.protocols[0].0, "tri");
    let urls = &d.protocols[0].1;
    assert_eq!(urls.len(), 2);
    assert_eq!(urls[0].ip, "0.0.0.0");
    assert_eq!(urls[0].port, "8888");
    assert_eq!(urls[0].get_param("interface".to_string()), Some("helloworld.Greeter".to_string()));
    assert_eq!(urls[0].get_param("prefer.serialization".to_string()), Some("json".to_string()));
    assert_eq!(urls[1].get_param("prefer.serialization".to_string()), None);
    assert_eq!(urls[1].get_param("category".to_string()), Some("providers".to_string()));
}

#[test]
fn init_refuses_an_unconfigured_protocol() {
    let config = RootConfig {
        provider: ProviderConfig {
            services: vec![("a".to_string(), service("helloworld.Greeter", "grpc", None))],
        },
        protocols: vec![("tri".to_string(), tri())],
    };
    let mut d = Dubbo::new().with_config(config);
    let e = d.init().unwrap_err();
    assert_eq!(e, InitError::ProtocolNotFound("grpc".to_string()));
    assert_eq!(e.to_string(), "base \"grpc\" not exists");
}

#[test]
fn registries_are_added_as_extension_urls() {
    let d = Dubbo::new().add_registry("nacos://127.0.0.1:8848/");
    assert_eq!(d.registries.len(), 1);
    assert_eq!(d.registries[0].get_param("extension-name".to_string()), Some("nacos".to_string()));
    assert!(Dubbo::new().try_add_registry("not a url").is_none());
}

#[test]
fn init_error_quotes_the_protocol_as_debug_text() {
    assert_eq!(InitError::ProtocolNotFound("a\"b".to_string()).to_string(), "base \"a\\\"b\" not exists");
    assert_eq!(InitError::ProtocolNotFound("grpc".to_string()).to_string(), "base \"grpc\" not exists");
}

#[test]
fn init_error_keeps_urls_of_services_before_the_missing_protocol() {
    let config = RootConfig {
        provider: ProviderConfig {
            services: vec![
                ("a".to_string(), service("helloworld.Greeter", "tri", None)),
                ("b".to_string(), service("grpc.examples.echo.Echo", "grpc", None)),
                ("c".to_string(), service("other.Service", "tri", None)),
            ],
        },
        protocols: vec![("tri".to_string(), tri())],
    };
    let mut d = Dubbo::new().with_config(config);
    assert_eq!(d.init(), Err(InitError::ProtocolNotFound("grpc".to_string())));
    assert_eq!(d.protocols.len(), 1);
    assert_eq!(d.protocols[0].1.len(), 1);
    assert_eq!(d.protocols[0].1[0].get_param("interface".to_string()), Some("helloworld.Greeter".to_string()));
    assert!(d.registries.is_empty());
    assert!(d.service_registry.is_empty());
}

#[test]
fn init_with_default_uses_the_given_config_only_when_none_is_set() {
    let global = || RootConfig {
        provider: ProviderConfig { services: vec![("a".to_string(), service("helloworld.Greeter", "tri", None))] },
        protocols: vec![("tri".to_string(), tri())],
    };
    let mut d = Dubbo::new();
    assert_eq!(d.init_with_default(global()), Ok(()));
    assert_eq!(d.config.as_ref().unwrap().provider.services.len(), 1);
    assert_eq!(d.protocols[0].1.len(), 1);

    let own = RootConfig { provider: ProviderConfig { services: vec![] }, protocols: vec![] };
    let mut e = Dubbo::new().with_config(own);
    assert_eq!(e.init_with_default(global()), Ok(()));
    assert!(e.config.as_ref().unwrap().provider.services.is_empty());
    assert!(e.config.as_ref().unwrap().protocols.is_empty());
    assert!(e.protocols.is_empty());
}

#[test]
fn registry_extension_url_carries_type_name_and_address() {
    let d = Dubbo::new().add_registry("nacos://127.0.0.1:8848/");
    let u = &d.registries[0];
    assert_eq!(u.protocol, "extension");
    assert_eq!(u.ip, "0.0.0.0");
    assert_eq!(u.get_param("extension-type".to_string()), Some("registry".to_string()));
    assert_eq!(u.get_param("extension-name".to_string()), Some("nacos".to_string()));
    assert!(u.get_param("registry-url".to_string()).unwrap().starts_with("nacos://127.0.0.1:8848"));
    assert!(d.service_registry.is_empty());
    let d2 = d.add_registry("zookeeper://10.0.0.1:2181");
    assert_eq!(d2.registries.len(), 2);
    assert_eq!(d2.registries[1].get_param("extension-name".to_string()), Some("zookeeper".to_string()));
}
