use dubbo::invocation::{Request, Response};

fn tagged_request(message: u32) -> Request<u32> {
    let mut r = Request::new(message);
    r.metadata.insert("tri-service".to_string(), "greeter".to_string());
    r
}

#[test]
fn request_map_with_identity_keeps_the_request() {
    let r = tagged_request(5).map(|x| x);
    assert_eq!(r.message, 5);
    assert_eq!(r.metadata.params().get("tri-service"), Some("greeter".to_string()));
    assert_eq!(r.metadata.params().len(), 1);
}

#[test]
fn request_map_twice_is_map_of_the_composition() {
    let twice = tagged_request(5).map(|x| x + 1).map(|y| y * 10);
    let once = tagged_request(5).map(|x| (x + 1) * 10);
    assert_eq!(twice.message, 60);
    assert_eq!(twice.message, once.message);
    assert_eq!(twice.metadata.params().get("tri-service"), once.metadata.params().get("tri-service"));
    assert_eq!(twice.metadata.params().len(), once.metadata.params().len());
}

#[test]
fn response_map_identity_and_composition() {
    let (m, x) = Response::new(7u32).map(|x| x).into_parts();
    assert_eq!(x, 7);
    assert_eq!(m.params().len(), 0);
    let (_, twice) = Response::new(7u32).map(|x| x * 2).map(|y| y + 3).into_parts();
    let (_, once) = Response::new(7u32).map(|x| x * 2 + 3).into_parts();
    assert_eq!(twice, 17);
    assert_eq!(twice, once);
}
