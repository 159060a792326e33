use dubbo::url::Url;

#[test]
fn test_from_url() {
    let u1 = Url::from_url("triple://127.0.0.1:8888/helloworld.Greeter");
    println!("{:?}", u1.unwrap().get_service_name())
}

#[test]
fn test_encode_params() {
    let mut u = Url::default();
    u.params.insert("method".to_string(), "GET".to_string());
    u.params.insert("args".to_string(), "GET".to_string());

    let en = u.encode_param();
    println!("encode_params: {:?}", en);

    let mut u1 = Url::default();
    u1.decode(en);
    println!("decode_params: {:?}", u1);
    assert_eq!(u1, u);
}

#[test]
fn from_url_reads_scheme_host_port_and_service_keys() {
    let u = Url::from_url("triple://127.0.0.1:8888/helloworld.Greeter,other.Service").unwrap();
    assert_eq!(u.protocol, "triple");
    assert_eq!(u.ip, "127.0.0.1");
    assert_eq!(u.port, "8888");
    assert_eq!(u.location, "127.0.0.1:8888");
    assert_eq!(u.uri, "triple://127.0.0.1:8888/helloworld.Greeter,other.Service");
    assert_eq!(
        u.get_service_name(),
        vec!["helloworld.Greeter".to_string(), "other.Service".to_string()]
    );
    assert!(u.params.is_empty());
    assert_eq!(u.to_url(), "triple://127.0.0.1:8888");
}

#[test]
fn from_url_without_port_is_none() {
    assert!(Url::from_url("triple://127.0.0.1/helloworld.Greeter").is_none());
    assert!(Url::from_url("/only/a/path").is_none());
}

#[test]
fn try_from_url_refuses_text_that_is_no_uri() {
    assert!(Url::try_from_url("tri ple://bad host").is_none());
    assert!(Url::try_from_url("tri://1.2.3.4:5/a").is_some());
}

#[test]
fn decode_skips_pieces_without_exactly_one_equals_and_trims() {
    let mut u = Url::new();
    u.decode(" a = 1 & b=2=3 & c & d=4 ".to_string());
    assert_eq!(u.get_param("a".to_string()), Some("1".to_string()));
    assert_eq!(u.get_param("b".to_string()), None);
    assert_eq!(u.get_param("c".to_string()), None);
    assert_eq!(u.get_param("d".to_string()), Some("4".to_string()));
    assert_eq!(u.params.len(), 2);
}

#[test]
fn decode_replaces_an_existing_value_in_place() {
    let mut u = Url::new();
    u.decode("a=1&b=2&a=3".to_string());
    assert_eq!(u.encode_param(), "a=3&b=2");
}

#[test]
fn encode_of_empty_table_is_empty_and_decodes_to_nothing() {
    let u = Url::new();
    assert_eq!(u.encode_param(), "");
    let mut v = Url::new();
    v.decode(u.encode_param());
    assert_eq!(v, u);
}
