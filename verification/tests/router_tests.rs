use qsar_lib::http_method::HttpMethod;
use qsar_lib::router::route;
use qsar_lib::router::route_action;
use qsar_lib::router::route_table;
use qsar_lib::router::Handler;

#[test]
fn route_table_declares_the_three_prefixes() {
    let t = route_table();
    let pairs: Vec<(Vec<u8>, Handler)> = t.into_iter().map(|r| (r.prefix, r.handler)).collect();
    assert_eq!(
        pairs,
        vec![
            (b"api".to_vec(), Handler::Api),
            (b"index".to_vec(), Handler::IndexPage),
            (b"posts".to_vec(), Handler::PostsPage),
        ]
    );
}

#[test]
fn api_accepts_the_five_verbs_with_empty_200() {
    for m in [
        HttpMethod::GET,
        HttpMethod::POST,
        HttpMethod::PUT,
        HttpMethod::PATCH,
        HttpMethod::DELETE,
    ] {
        let r = route_action(m).unwrap_or_else(|_| panic!("verb should be accepted"));
        assert_eq!(r.code, 200);
        assert!(r.headers.is_empty());
        assert!(r.body.is_empty());
    }
}

#[test]
fn api_refuses_other_verbs_with_404() {
    for m in [
        HttpMethod::HEAD,
        HttpMethod::OPTIONS,
        HttpMethod::TRACE,
        HttpMethod::CONNECT,
        HttpMethod::UNKNOWN,
    ] {
        let e = match route_action(m) {
            Err(e) => e,
            Ok(_) => panic!("verb should be refused"),
        };
        assert_eq!(e.code, 404);
        assert!(e.body.is_empty());
    }
}

#[test]
fn index_route_serves_the_index_page() {
    let segs = vec![b"index".to_vec()];
    let r = route(HttpMethod::GET, &segs);
    assert_eq!(r.code, 200);
    assert_eq!(r.headers, vec![(b"Content-Type".to_vec(), b"text/html".to_vec())]);
    assert_eq!(r.body, b"<h1>Welcome to the Index page</h1>".to_vec());
}

#[test]
fn posts_route_serves_the_posts_page() {
    let segs = vec![b"posts".to_vec()];
    let r = route(HttpMethod::GET, &segs);
    assert_eq!(r.code, 200);
    assert_eq!(r.body, b"<h1>Welcome to the Posts page</h1>".to_vec());
}

#[test]
fn unknown_route_gets_404_page() {
    let segs = vec![b"unknownpage".to_vec()];
    let r = route(HttpMethod::GET, &segs);
    assert_eq!(r.code, 404);
    assert_eq!(r.body, b"<h1>Page does not exist</h1>".to_vec());
}

#[test]
fn empty_path_gets_400() {
    let segs: Vec<Vec<u8>> = Vec::new();
    let r = route(HttpMethod::GET, &segs);
    assert_eq!(r.code, 400);
    assert_eq!(r.body, b"<h1>Bad Request</h1>".to_vec());
}

#[test]
fn unknown_method_outside_api_gets_400() {
    let segs = vec![b"index".to_vec()];
    let r = route(HttpMethod::UNKNOWN, &segs);
    assert_eq!(r.code, 400);
    assert_ne!(r.code, 200);
}

#[test]
fn api_route_dispatches_on_method_only() {
    let segs = vec![b"api".to_vec(), b"users".to_vec()];
    let r = route(HttpMethod::POST, &segs);
    assert_eq!(r.code, 200);
    assert!(r.headers.is_empty());
    assert!(r.body.is_empty());
    let r2 = route(HttpMethod::UNKNOWN, &segs);
    assert_eq!(r2.code, 404);
}

#[test]
fn same_get_twice_is_structurally_identical() {
    let segs = vec![b"index".to_vec()];
    let r1 = route(HttpMethod::GET, &segs);
    let r2 = route(HttpMethod::GET, &segs);
    assert_eq!(r1.code, r2.code);
    assert_eq!(r1.headers, r2.headers);
    assert_eq!(r1.body, r2.body);
    assert_eq!(r1.code, 200);
}
