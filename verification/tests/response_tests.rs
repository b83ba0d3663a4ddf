use qsar_lib::http_response::build_response;
use qsar_lib::http_response::HttpResponse;

fn sep_index(wire: &[u8]) -> usize {
    wire.windows(4)
        .position(|w| w == b"\r\n\r\n")
        .expect("rendered response has a blank line")
}

#[test]
fn renders_200_ok_with_header_and_body() {
    let resp = HttpResponse {
        code: 200,
        headers: vec![(b"Content-Type".to_vec(), b"text/html".to_vec())],
        body: b"<h1>hello</h1>".to_vec(),
    };
    let wire = build_response(&resp);
    assert_eq!(
        wire,
        b"HTTP/1.1 200 OK\r\nContent-Type: text/html\r\n\r\n<h1>hello</h1>".to_vec()
    );
}

#[test]
fn renders_404_not_found() {
    let resp = HttpResponse { code: 404, headers: Vec::new(), body: Vec::new() };
    assert_eq!(build_response(&resp), b"HTTP/1.1 404 Not Found\r\n\r\n".to_vec());
}

#[test]
fn renders_400_bad_request() {
    let resp = HttpResponse { code: 400, headers: Vec::new(), body: Vec::new() };
    assert_eq!(build_response(&resp), b"HTTP/1.1 400 Bad Request\r\n\r\n".to_vec());
}

#[test]
fn unmapped_code_gets_generic_reason() {
    let resp = HttpResponse { code: 511, headers: Vec::new(), body: Vec::new() };
    assert_eq!(build_response(&resp), b"HTTP/1.1 511 Unknown\r\n\r\n".to_vec());
}

#[test]
fn one_digit_code_renders() {
    let resp = HttpResponse { code: 7, headers: Vec::new(), body: Vec::new() };
    assert_eq!(build_response(&resp), b"HTTP/1.1 7 Unknown\r\n\r\n".to_vec());
}

#[test]
fn round_trip_recovers_plain_body() {
    let resp = HttpResponse {
        code: 200,
        headers: vec![(b"X-One".to_vec(), b"a".to_vec()), (b"X-Two".to_vec(), b"b".to_vec())],
        body: b"payload".to_vec(),
    };
    let wire = build_response(&resp);
    let p = sep_index(&wire);
    assert_eq!(&wire[p + 4..], b"payload");
}

#[test]
fn round_trip_recovers_body_holding_blank_lines() {
    let resp = HttpResponse {
        code: 201,
        headers: vec![(b"X-One".to_vec(), b"a".to_vec())],
        body: b"hello\r\n\r\nworld\r\n\r\n".to_vec(),
    };
    let wire = build_response(&resp);
    let p = sep_index(&wire);
    assert_eq!(&wire[p + 4..], b"hello\r\n\r\nworld\r\n\r\n");
}

#[test]
fn round_trip_recovers_empty_body_without_headers() {
    let resp = HttpResponse { code: 200, headers: Vec::new(), body: Vec::new() };
    let wire = build_response(&resp);
    let p = sep_index(&wire);
    assert_eq!(&wire[p + 4..], b"");
}

#[test]
fn round_trip_with_empty_header_name_and_value() {
    let resp = HttpResponse {
        code: 200,
        headers: vec![(b"".to_vec(), b"".to_vec()), (b"K".to_vec(), b"".to_vec())],
        body: b"\r\nx".to_vec(),
    };
    let wire = build_response(&resp);
    let p = sep_index(&wire);
    assert_eq!(&wire[p + 4..], b"\r\nx");
}
