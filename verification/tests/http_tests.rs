use rust_http_server::{
    Headers, HttpMethod, HttpRequest, HttpResponse, MessageBody, ParseError, StatusCode,
    StatusError, StatusLine, StatusRegistry,
};

fn parse(bytes: &[u8]) -> Result<HttpRequest, ParseError> {
    let buf: Vec<u8> = bytes.to_vec();
    HttpRequest::new(&buf, buf.len())
}

#[test]
fn parse_simple_get() {
    let req = parse(b"GET /index.html HTTP/1.1\r\nHost: example.com\r\n\r\n").unwrap();
    assert_eq!(req.request_line.method, HttpMethod::GET);
    assert_eq!(req.request_line.request_uri, b"/index.html".to_vec());
    assert_eq!(req.request_line.http_version, b"HTTP/1.1".to_vec());
    assert_eq!(req.headers.headers.len(), 1);
    assert_eq!(
        req.headers.get(&b"Host".to_vec()),
        Some(&b"example.com".to_vec())
    );
    assert_eq!(req.message.message_body, Vec::<u8>::new());
}

#[test]
fn serialize_response_200() {
    let mut headers = Headers::empty();
    headers.insert(b"Content-Length".to_vec(), b"2".to_vec());
    let body = MessageBody::new(b"Hi".to_vec());
    let resp = HttpResponse::new(200, headers, body).unwrap();
    assert_eq!(
        resp.to_text(),
        b"HTTP/1.1 200 OK\r\nContent-Length: 2\r\n\r\nHi".to_vec()
    );
}

#[test]
fn parse_patch_unsupported() {
    let err = parse(b"PATCH / HTTP/1.1\r\n\r\n").unwrap_err();
    assert_eq!(err, ParseError::UnsupportedMethod(b"PATCH".to_vec()));
}

#[test]
fn header_line_without_colon() {
    let err = parse(b"GET / HTTP/1.1\r\nNoColonHere\r\n\r\n").unwrap_err();
    assert_eq!(err, ParseError::MalformedHeader(b"NoColonHere".to_vec()));
}

#[test]
fn duplicate_header_last_wins() {
    let req = parse(b"GET / HTTP/1.1\r\nA:1\r\nA:2\r\n\r\n").unwrap();
    assert_eq!(req.headers.headers.len(), 1);
    assert_eq!(req.headers.get(&b"A".to_vec()), Some(&b"2".to_vec()));
}

#[test]
fn round_trip_preserves_request() {
    let wire = b"POST /submit HTTP/1.1\r\nHost: example.com\r\nContent-Length: 5\r\n\r\nhello";
    let req = parse(wire).unwrap();
    let out = req.to_text();
    assert_eq!(out, wire.to_vec());
    let again = parse(&out).unwrap();
    assert_eq!(again.request_line.method, HttpMethod::POST);
    assert_eq!(again.request_line.request_uri, b"/submit".to_vec());
    assert_eq!(again.request_line.http_version, b"HTTP/1.1".to_vec());
    assert_eq!(again.headers.headers, req.headers.headers);
    assert_eq!(again.message.message_body, b"hello".to_vec());
}

#[test]
fn incomplete_request_without_separator() {
    let err = parse(b"GET / HTTP/1.1\r\nHost: example.com\r\n").unwrap_err();
    assert_eq!(err, ParseError::IncompleteRequest);
}

#[test]
fn malformed_request_line_two_tokens() {
    let err = parse(b"GET /\r\n\r\n").unwrap_err();
    assert_eq!(err, ParseError::MalformedRequestLine);
}

#[test]
fn malformed_request_line_four_tokens() {
    let err = parse(b"GET / HTTP/1.1 extra\r\n\r\n").unwrap_err();
    assert_eq!(err, ParseError::MalformedRequestLine);
}

#[test]
fn header_whitespace_is_trimmed() {
    let req = parse(b"GET / HTTP/1.1\r\nHost:   example.com  \r\n\r\n").unwrap();
    assert_eq!(
        req.headers.get(&b"Host".to_vec()),
        Some(&b"example.com".to_vec())
    );
}

#[test]
fn body_is_everything_after_separator() {
    let req = parse(b"PUT /x HTTP/1.1\r\n\r\nraw\r\n\r\nbytes").unwrap();
    assert_eq!(req.message.message_body, b"raw\r\n\r\nbytes".to_vec());
}

#[test]
fn bytes_beyond_actual_length_are_ignored() {
    let mut buf = b"GET / HTTP/1.1\r\n\r\n".to_vec();
    let used = buf.len();
    buf.extend_from_slice(b"\0\0trailing garbage\r\n\r\n");
    let req = HttpRequest::new(&buf, used).unwrap();
    assert_eq!(req.request_line.method, HttpMethod::GET);
    assert_eq!(req.message.message_body, Vec::<u8>::new());
}

#[test]
fn every_method_token_is_recognized() {
    let cases: Vec<(&[u8], HttpMethod)> = vec![
        (b"GET", HttpMethod::GET),
        (b"HEAD", HttpMethod::HEAD),
        (b"POST", HttpMethod::POST),
        (b"PUT", HttpMethod::PUT),
        (b"DELETE", HttpMethod::DELETE),
        (b"CONNECT", HttpMethod::CONNECT),
        (b"OPTIONS", HttpMethod::OPTIONS),
        (b"TRACE", HttpMethod::TRACE),
    ];
    for (tok, expected) in cases {
        let mut wire = tok.to_vec();
        wire.extend_from_slice(b" / HTTP/1.1\r\n\r\n");
        let req = HttpRequest::new(&wire, wire.len()).unwrap();
        assert_eq!(req.request_line.method, expected);
    }
}

#[test]
fn case_sensitive_header_lookup() {
    let req = parse(b"GET / HTTP/1.1\r\nHost: a\r\n\r\n").unwrap();
    assert_eq!(req.headers.get(&b"host".to_vec()), None);
    assert_eq!(req.headers.get(&b"Host".to_vec()), Some(&b"a".to_vec()));
}

#[test]
fn headers_serialize_in_insertion_order() {
    let mut headers = Headers::empty();
    headers.insert(b"A".to_vec(), b"1".to_vec());
    headers.insert(b"B".to_vec(), b"2".to_vec());
    headers.insert(b"A".to_vec(), b"3".to_vec());
    assert_eq!(headers.to_text(), b"A: 3\r\nB: 2\r\n".to_vec());
}

#[test]
fn status_line_serializes_not_found() {
    let sl = StatusLine::new(b"HTTP/1.1".to_vec(), 404).unwrap();
    assert_eq!(sl.to_text(), b"HTTP/1.1 404 Not Found".to_vec());
}

#[test]
fn unknown_status_code_is_reported() {
    let headers = Headers::empty();
    let body = MessageBody::new(Vec::new());
    let err = HttpResponse::new(500, headers, body).unwrap_err();
    assert_eq!(err, StatusError::UnknownStatusCode(500));
    let err = StatusCode::new(418).unwrap_err();
    assert_eq!(err, StatusError::UnknownStatusCode(418));
}

#[test]
fn registry_can_register_new_codes() {
    let mut reg = StatusRegistry::new();
    assert_eq!(reg.reason_for(200).unwrap(), b"OK".to_vec());
    assert_eq!(reg.reason_for(404).unwrap(), b"Not Found".to_vec());
    assert_eq!(
        reg.reason_for(500).unwrap_err(),
        StatusError::UnknownStatusCode(500)
    );
    reg.register(500, b"Internal Server Error".to_vec());
    assert_eq!(reg.reason_for(500).unwrap(), b"Internal Server Error".to_vec());
    reg.register(404, b"Gone Missing".to_vec());
    assert_eq!(reg.reason_for(404).unwrap(), b"Gone Missing".to_vec());
}

#[test]
fn response_with_404_and_body() {
    let mut headers = Headers::empty();
    headers.insert(b"Content-Length".to_vec(), b"9".to_vec());
    let body = MessageBody::new(b"not found".to_vec());
    let resp = HttpResponse::new(404, headers, body).unwrap();
    assert_eq!(
        resp.to_text(),
        b"HTTP/1.1 404 Not Found\r\nContent-Length: 9\r\n\r\nnot found".to_vec()
    );
}

#[test]
fn message_body_round_trips() {
    let body = MessageBody::new(b"abc".to_vec());
    assert_eq!(body.to_text(), b"abc".to_vec());
}

#[test]
fn empty_method_token_is_unsupported() {
    let err = parse(b" / HTTP/1.1\r\n\r\n").unwrap_err();
    assert_eq!(err, ParseError::UnsupportedMethod(Vec::new()));
}
