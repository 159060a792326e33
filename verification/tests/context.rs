use dubbo::context::{
    echo_step, EchoAction, EchoEvent,
    echo_method, greeter_method, unimplemented_answer, unimplemented_headers, EchoMethod, GreeterMethod, Level, LevelWrapper, RpcContext,
    UNIMPLEMENTED_HTTP_STATUS,
};

#[test]
fn level_names_are_read_case_and_space_insensitively() {
    assert_eq!(LevelWrapper::from(Some(" DEBUG ".to_string())).inner, Level::Debug);
    assert_eq!(LevelWrapper::from(Some("error".to_string())).inner, Level::Error);
    assert_eq!(LevelWrapper::from(Some("Warn".to_string())).inner, Level::Warn);
    assert_eq!(LevelWrapper::from(Some("trace\n".to_string())).inner, Level::Trace);
    assert_eq!(LevelWrapper::from(Some("info".to_string())).inner, Level::Info);
}

#[test]
fn unknown_level_names_mean_info() {
    assert_eq!(LevelWrapper::from(Some("verbose".to_string())).inner, Level::Info);
    assert_eq!(LevelWrapper::new(Level::Warn).inner, Level::Warn);
}

#[test]
fn context_attachments_clear() {
    let mut c = RpcContext::new();
    c.attachments.insert("key1".to_string(), "data-1".to_string());
    c.attachments.insert("key2".to_string(), "data-2".to_string());
    assert_eq!(c.attachments.get("key1"), Some("data-1".to_string()));
    assert_eq!(c.attachments.len(), 2);
    c.clear();
    assert_eq!(c.attachments.len(), 0);
    assert_eq!(c.attachments.get("key1"), None);
}

#[test]
fn example_services_dispatch_by_path() {
    assert_eq!(echo_method("/hello"), EchoMethod::Hello);
    assert_eq!(echo_method("/bidi_stream"), EchoMethod::BidiStream);
    assert_eq!(echo_method("/other"), EchoMethod::Unimplemented);
    assert_eq!(greeter_method("/helloworld.Greeter/SayHello"), GreeterMethod::SayHello);
    assert_eq!(greeter_method("/helloworld.Greeter/SayBye"), GreeterMethod::Unimplemented);
    assert_eq!(
        unimplemented_headers(),
        vec![
            ("grpc-status".to_string(), "12".to_string()),
            ("content-type".to_string(), "application/grpc".to_string())
        ]
    );
    assert_eq!(UNIMPLEMENTED_HTTP_STATUS, 200);
}

#[test]
fn unknown_method_answer_is_ok_with_unimplemented_status_and_no_body() {
    let (status, headers, body) = unimplemented_answer();
    assert_eq!(status, 200);
    assert_eq!(
        headers,
        vec![
            ("grpc-status".to_string(), "12".to_string()),
            ("content-type".to_string(), "application/grpc".to_string())
        ]
    );
    assert!(body.is_empty());
}

#[test]
fn echo_stream_replies_quote_the_name_and_stop_on_broken_pipe() {
    assert_eq!(
        echo_step(&EchoEvent::Message("msg1".to_string())),
        EchoAction::Reply("server reply: \"msg1\"".to_string())
    );
    assert_eq!(
        echo_step(&EchoEvent::Message("a\"b".to_string())),
        EchoAction::Reply("server reply: \"a\\\"b\"".to_string())
    );
    assert_eq!(echo_step(&EchoEvent::Error), EchoAction::ForwardError);
    assert_eq!(echo_step(&EchoEvent::BrokenPipe), EchoAction::Stop);
    assert_eq!(echo_step(&EchoEvent::ErrorNotForwarded), EchoAction::Stop);
    assert_eq!(echo_step(&EchoEvent::Ended), EchoAction::Stop);
}
