use qsar_lib::http_method::HttpMethod;
use qsar_lib::http_type::HttpType;
use qsar_lib::router::filter_endpoint;
use qsar_lib::router::filter_query;
use qsar_lib::server::first_line;
use qsar_lib::server::parse_request_line;
use qsar_lib::server::ParseError;

#[test]
fn endpoint_segments_of_full_target() {
    let segs = filter_endpoint(b"/a/b/c?x=1");
    assert_eq!(segs, vec![b"a".to_vec(), b"b".to_vec(), b"c".to_vec()]);
}

#[test]
fn endpoint_collapses_extra_slashes() {
    let segs = filter_endpoint(b"//a//");
    assert_eq!(segs, vec![b"a".to_vec()]);
}

#[test]
fn endpoint_of_empty_target_is_empty() {
    let segs = filter_endpoint(b"");
    assert!(segs.is_empty());
}

#[test]
fn endpoint_of_bare_slash_is_empty() {
    let segs = filter_endpoint(b"/");
    assert!(segs.is_empty());
}

#[test]
fn query_pairs_of_two_keys() {
    let q = filter_query(b"/a?x=1&y=2");
    assert_eq!(
        q,
        vec![
            vec![b"x".to_vec(), b"1".to_vec()],
            vec![b"y".to_vec(), b"2".to_vec()],
        ]
    );
}

#[test]
fn query_keeps_absent_value() {
    let q = filter_query(b"/a?x");
    assert_eq!(q, vec![vec![b"x".to_vec()]]);
}

#[test]
fn query_of_target_without_question_mark_is_empty() {
    let q = filter_query(b"/a");
    assert!(q.is_empty());
}

#[test]
fn query_of_empty_query_part_is_empty() {
    let q = filter_query(b"/a?");
    assert!(q.is_empty());
}

#[test]
fn query_keeps_empty_chunk_between_ampersands() {
    let q = filter_query(b"/a?x=1&&y=2");
    assert_eq!(
        q,
        vec![
            vec![b"x".to_vec(), b"1".to_vec()],
            vec![b"".to_vec()],
            vec![b"y".to_vec(), b"2".to_vec()],
        ]
    );
}

#[test]
fn query_splits_on_first_equals_only() {
    let q = filter_query(b"/a?x=1=2");
    assert_eq!(q, vec![vec![b"x".to_vec(), b"1=2".to_vec()]]);
}

#[test]
fn one_token_line_is_malformed() {
    let r = parse_request_line(b"GET");
    assert_eq!(r.err(), Some(ParseError::MalformedRequestLine));
}

#[test]
fn empty_line_is_malformed() {
    let r = parse_request_line(b"");
    assert_eq!(r.err(), Some(ParseError::MalformedRequestLine));
}

#[test]
fn full_request_line_parses() {
    let req = parse_request_line(b"GET /a/b?x=1&y HTTP/1.1").unwrap();
    assert_eq!(req.method, HttpMethod::GET);
    assert_eq!(req.path, vec![b"a".to_vec(), b"b".to_vec()]);
    assert_eq!(
        req.query,
        vec![
            vec![b"x".to_vec(), b"1".to_vec()],
            vec![b"y".to_vec()],
        ]
    );
    assert_eq!(req.http_version, b"HTTP/1.1".to_vec());
}

#[test]
fn two_token_line_parses_with_empty_version() {
    let req = parse_request_line(b"GET /index").unwrap();
    assert_eq!(req.method, HttpMethod::GET);
    assert_eq!(req.path, vec![b"index".to_vec()]);
    assert!(req.http_version.is_empty());
}

#[test]
fn unknown_method_token_parses_as_unknown() {
    let req = parse_request_line(b"FOO /index HTTP/1.1").unwrap();
    assert_eq!(req.method, HttpMethod::UNKNOWN);
}

#[test]
fn first_line_stops_at_crlf() {
    assert_eq!(first_line(b"GET / HTTP/1.1\r\nHost: x\r\n"), b"GET / HTTP/1.1".to_vec());
}

#[test]
fn first_line_without_newline_is_whole_input() {
    assert_eq!(first_line(b"abc"), b"abc".to_vec());
}

#[test]
fn first_line_strips_only_trailing_cr() {
    assert_eq!(first_line(b"abc\ndef"), b"abc".to_vec());
}

#[test]
fn method_tokens_parse_case_sensitively() {
    assert_eq!(HttpMethod::from(b"GET"), HttpMethod::GET);
    assert_eq!(HttpMethod::from(b"POST"), HttpMethod::POST);
    assert_eq!(HttpMethod::from(b"PUT"), HttpMethod::PUT);
    assert_eq!(HttpMethod::from(b"DELETE"), HttpMethod::DELETE);
    assert_eq!(HttpMethod::from(b"HEAD"), HttpMethod::HEAD);
    assert_eq!(HttpMethod::from(b"OPTIONS"), HttpMethod::OPTIONS);
    assert_eq!(HttpMethod::from(b"TRACE"), HttpMethod::TRACE);
    assert_eq!(HttpMethod::from(b"CONNECT"), HttpMethod::CONNECT);
    assert_eq!(HttpMethod::from(b"PATCH"), HttpMethod::PATCH);
    assert_eq!(HttpMethod::from(b"get"), HttpMethod::UNKNOWN);
    assert_eq!(HttpMethod::from(b"FOO"), HttpMethod::UNKNOWN);
}

#[test]
fn scheme_tokens_parse_with_http_fallback() {
    assert_eq!(HttpType::from(b"https"), HttpType::HTTPS);
    assert_eq!(HttpType::from(b"http"), HttpType::HTTP);
    assert_eq!(HttpType::from(b"ftp"), HttpType::HTTP);
}
