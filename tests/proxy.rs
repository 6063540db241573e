use docker_socket_proxy::client::client_identity;
use docker_socket_proxy::message::{HeaderField, Malformation, ParseError};
use docker_socket_proxy::pipeline::{
    failure_message, outbound_status, respond_to, Action, Event, FailureKind, Pipeline, Stage,
    FAILURE_STATUS,
};
use docker_socket_proxy::request::{build_request, is_printable, InboundRequest, ProxyConfig};
use docker_socket_proxy::response::{parse_decimal_u16, parse_message, parse_response};

fn field(name: &str, value: &str) -> HeaderField {
    HeaderField::new(name.as_bytes().to_vec(), value.as_bytes().to_vec())
}

fn request(method: &str, target: &str, headers: Vec<HeaderField>, body: &[u8]) -> InboundRequest {
    InboundRequest {
        method: method.as_bytes().to_vec(),
        target: target.as_bytes().to_vec(),
        headers,
        body: body.to_vec(),
    }
}

fn config(token: Option<&str>) -> ProxyConfig {
    ProxyConfig {
        socket_path: "/var/run/docker.sock".to_string(),
        auth_token: token.map(|t| t.as_bytes().to_vec()),
        listen_port: 3277,
    }
}

fn pairs(headers: &[HeaderField]) -> Vec<(String, String)> {
    headers
        .iter()
        .map(|h| {
            (String::from_utf8(h.name.clone()).unwrap(), String::from_utf8(h.value.clone()).unwrap())
        })
        .collect()
}

fn wire(req: &InboundRequest, cfg: &ProxyConfig) -> Vec<u8> {
    let w = build_request(req, cfg);
    let mut all = w.head.clone();
    all.extend_from_slice(&w.body);
    all
}

#[test]
fn builds_exact_head_without_body() {
    let req = request("GET", "/containers/json?all=1", vec![field("accept", "*/*")], b"");
    let w = build_request(&req, &config(None));
    assert_eq!(
        String::from_utf8(w.head).unwrap(),
        "GET /containers/json?all=1 HTTP/1.1\r\naccept: */*\r\nHost: localhost\r\n\r\n"
    );
    assert!(w.body.is_empty());
}

#[test]
fn content_length_is_body_length() {
    let req = request("POST", "/build", vec![], b"hello world");
    let w = build_request(&req, &config(None));
    assert_eq!(
        String::from_utf8(w.head).unwrap(),
        "POST /build HTTP/1.1\r\nHost: localhost\r\nContent-Length: 11\r\n\r\n"
    );
    assert_eq!(w.body, b"hello world".to_vec());
}

#[test]
fn content_length_of_large_body() {
    let body = vec![b'x'; 1234];
    let req = request("PUT", "/", vec![], &body);
    let head = String::from_utf8(build_request(&req, &config(None)).head).unwrap();
    assert!(head.ends_with("Content-Length: 1234\r\n\r\n"));
}

#[test]
fn empty_body_has_no_content_length() {
    let req = request("DELETE", "/x", vec![field("a", "b")], b"");
    let head = String::from_utf8(build_request(&req, &config(Some("k"))).head).unwrap();
    assert!(!head.to_ascii_lowercase().contains("content-length"));
}

#[test]
fn api_key_added_when_configured() {
    let req = request("GET", "/v", vec![field("x-a", "1")], b"");
    let head = String::from_utf8(build_request(&req, &config(Some("s3cret"))).head).unwrap();
    assert_eq!(head, "GET /v HTTP/1.1\r\nx-a: 1\r\nx-api-key: s3cret\r\nHost: localhost\r\n\r\n");
}

#[test]
fn api_key_absent_when_not_configured() {
    let req = request("GET", "/v", vec![field("x-a", "1")], b"");
    let none = String::from_utf8(build_request(&req, &config(None)).head).unwrap();
    let empty = String::from_utf8(build_request(&req, &config(Some(""))).head).unwrap();
    assert!(!none.contains("x-api-key"));
    assert!(!empty.contains("x-api-key"));
}

#[test]
fn client_api_key_is_kept_before_configured_one() {
    let req = request("GET", "/", vec![field("x-api-key", "client")], b"");
    let head = String::from_utf8(build_request(&req, &config(Some("server"))).head).unwrap();
    assert_eq!(
        head,
        "GET / HTTP/1.1\r\nx-api-key: client\r\nx-api-key: server\r\nHost: localhost\r\n\r\n"
    );
}

#[test]
fn unprintable_header_value_is_dropped() {
    let bad = HeaderField::new(b"x-bin".to_vec(), vec![0x66, 0xff, 0x00]);
    let req = request("GET", "/", vec![field("a", "1"), bad, field("b", "2")], b"");
    let head = String::from_utf8(build_request(&req, &config(None)).head).unwrap();
    assert_eq!(head, "GET / HTTP/1.1\r\na: 1\r\nb: 2\r\nHost: localhost\r\n\r\n");
}

#[test]
fn printable_accepts_tab_rejects_controls() {
    assert!(is_printable(b"a\tb ~"));
    assert!(!is_printable(b"a\rb"));
    assert!(!is_printable(&[0x7f]));
    assert!(is_printable(b""));
}

#[test]
fn headers_round_trip_in_order() {
    let hs = vec![field("b-second", "2"), field("a-first", "one two"), field("b-second", "3")];
    let req = request("POST", "/exec", hs, b"{\"x\":1}\r\n\r\ntrailing");
    let parsed = parse_message(&wire(&req, &config(Some("tok")))).unwrap();
    assert_eq!(
        pairs(&parsed.headers),
        vec![
            ("b-second".to_string(), "2".to_string()),
            ("a-first".to_string(), "one two".to_string()),
            ("b-second".to_string(), "3".to_string()),
            ("x-api-key".to_string(), "tok".to_string()),
            ("Host".to_string(), "localhost".to_string()),
            ("Content-Length".to_string(), "19".to_string()),
        ]
    );
    assert_eq!(parsed.body, b"{\"x\":1}\r\n\r\ntrailing".to_vec());
}

#[test]
fn no_content_response_projects_204() {
    let o = respond_to(b"HTTP/1.1 204 No Content\r\n\r\n").unwrap();
    assert_eq!(o.status, 204);
    assert!(o.body.is_empty());
    assert!(o.headers.is_empty());
}

#[test]
fn missing_separator_is_malformed_and_500() {
    let raw = b"HTTP/1.1 200 OK\r\nContent-Type: text/plain\r\n";
    let missing = Malformation::MissingSeparator;
    assert_eq!(parse_response(raw).err(), Some(ParseError::MalformedResponse(missing)));
    assert_eq!(respond_to(raw).err(), Some(FailureKind::MalformedResponse(missing)));
    let mut p = sent_pipeline(&request("GET", "/", vec![], b""));
    match p.step(Event::Read(raw.to_vec())) {
        Action::Fail(k) => {
            assert_eq!(k, FailureKind::MalformedResponse(missing));
            assert_eq!(failure_message(k), "Invalid HTTP response format");
        }
        other => panic!("unexpected {:?}", other),
    }
    assert_eq!(FAILURE_STATUS, 500);
}

#[test]
fn non_numeric_status_defaults_to_500() {
    let p = parse_response(b"HTTP/1.1 abc Weird\r\nX: y\r\n\r\nbody").unwrap();
    assert_eq!(p.status, 500);
    assert!(p.status_defaulted);
    let o = respond_to(b"HTTP/1.1 abc Weird\r\nX: y\r\n\r\nbody").unwrap();
    assert_eq!(o.status, 500);
    assert_eq!(o.body, b"body".to_vec());
}

#[test]
fn missing_status_token_defaults_to_500() {
    let p = parse_response(b"HTTP/1.1\r\n\r\n").unwrap();
    assert_eq!(p.status, 500);
    assert!(p.status_defaulted);
}

#[test]
fn status_outside_100_to_599_becomes_500() {
    assert_eq!(respond_to(b"HTTP/1.1 1000 Big\r\n\r\n").unwrap().status, 500);
    assert_eq!(respond_to(b"HTTP/1.1 600 Odd\r\n\r\n").unwrap().status, 500);
    assert_eq!(respond_to(b"HTTP/1.1 99 Small\r\n\r\n").unwrap().status, 500);
    assert_eq!(respond_to(b"HTTP/1.1 70000 Over\r\n\r\n").unwrap().status, 500);
    assert_eq!(respond_to(b"HTTP/1.1 599 Edge\r\n\r\n").unwrap().status, 599);
    assert_eq!(respond_to(b"HTTP/1.1 100 Continue\r\n\r\n").unwrap().status, 100);
    let p = parse_response(b"HTTP/1.1 600 Odd\r\n\r\n").unwrap();
    assert_eq!(p.status, 500);
    assert!(p.status_defaulted);
    assert_eq!(outbound_status(599), 599);
    assert_eq!(outbound_status(600), 500);
    assert_eq!(outbound_status(999), 500);
    assert_eq!(outbound_status(0), 500);
}

#[test]
fn decimal_status_parse_follows_u16_rules() {
    assert_eq!(parse_decimal_u16(b"200"), Some(200));
    assert_eq!(parse_decimal_u16(b"+201"), Some(201));
    assert_eq!(parse_decimal_u16(b"65535"), Some(65535));
    assert_eq!(parse_decimal_u16(b"0065535"), Some(65535));
    assert_eq!(parse_decimal_u16(b"65536"), None);
    assert_eq!(parse_decimal_u16(b"+"), None);
    assert_eq!(parse_decimal_u16(b""), None);
    assert_eq!(parse_decimal_u16(b"-1"), None);
    assert_eq!(parse_decimal_u16(b"2x0"), None);
}

#[test]
fn invalid_utf8_is_encoding_error() {
    let raw = [b"HTTP/1.1 200 OK\r\n\r\n".as_slice(), &[0xff, 0xfe]].concat();
    assert_eq!(parse_response(&raw).err(), Some(ParseError::EncodingError));
    assert_eq!(respond_to(&raw).err(), Some(FailureKind::EncodingError));
    assert!(parse_message(&raw).is_ok());
}

#[test]
fn multibyte_utf8_body_is_kept() {
    let raw = "HTTP/1.1 200 OK\r\n\r\nh\u{e9}llo \u{1f600}".as_bytes();
    let o = respond_to(raw).unwrap();
    assert_eq!(o.body, "h\u{e9}llo \u{1f600}".as_bytes().to_vec());
}

#[test]
fn empty_head_is_malformed() {
    let empty = FailureKind::MalformedResponse(Malformation::EmptyHead);
    assert_eq!(
        parse_response(b"\r\n\r\nbody").err(),
        Some(ParseError::MalformedResponse(Malformation::EmptyHead))
    );
    assert_eq!(respond_to(b"\r\n\r\nbody").err(), Some(empty));
    assert_eq!(failure_message(empty), "Empty response");
    assert_eq!(
        parse_response(b"").err(),
        Some(ParseError::MalformedResponse(Malformation::MissingSeparator))
    );
}

#[test]
fn response_headers_trimmed_duplicates_kept_colonless_skipped() {
    let raw = b"HTTP/1.1 200 OK\r\n  Set-Cookie :  a=1 \r\nno colon here\r\nSet-Cookie: b=2\r\nX-Url: http://h:1/\r\n\r\n";
    let p = parse_response(raw).unwrap();
    assert_eq!(p.status, 200);
    assert_eq!(
        pairs(&p.headers),
        vec![
            ("Set-Cookie".to_string(), "a=1".to_string()),
            ("Set-Cookie".to_string(), "b=2".to_string()),
            ("X-Url".to_string(), "http://h:1/".to_string()),
        ]
    );
}

#[test]
fn body_split_only_at_first_separator() {
    let p = parse_response(b"HTTP/1.1 200 OK\r\n\r\na\r\n\r\nb").unwrap();
    assert_eq!(p.body, b"a\r\n\r\nb".to_vec());
}

#[test]
fn bare_newline_lines_are_split() {
    let p = parse_response(b"HTTP/1.1 201 Created\nA: 1\r\n\r\n").unwrap();
    assert_eq!(p.status, 201);
    assert_eq!(pairs(&p.headers), vec![("A".to_string(), "1".to_string())]);
}

fn sent_pipeline(req: &InboundRequest) -> Pipeline {
    let (mut p, a) = Pipeline::start(req, &config(None));
    assert!(matches!(a, Action::Connect));
    assert!(matches!(p.step(Event::Connected), Action::WriteHead));
    if req.body.is_empty() {
        assert!(matches!(p.step(Event::Written), Action::ReadToEnd));
    } else {
        assert!(matches!(p.step(Event::Written), Action::WriteBody));
        assert!(matches!(p.step(Event::Written), Action::ReadToEnd));
    }
    assert_eq!(p.stage, Stage::Sent);
    p
}

#[test]
fn pipeline_success_with_body() {
    let mut p = sent_pipeline(&request("POST", "/x", vec![], b"data"));
    match p.step(Event::Read(b"HTTP/1.1 201 Created\r\nLocation: /x/1\r\n\r\nok".to_vec())) {
        Action::Respond(o) => {
            assert_eq!(o.status, 201);
            assert_eq!(pairs(&o.headers), vec![("Location".to_string(), "/x/1".to_string())]);
            assert_eq!(o.body, b"ok".to_vec());
        }
        other => panic!("unexpected {:?}", other),
    }
    assert_eq!(p.stage, Stage::Projected);
    assert!(matches!(p.step(Event::ReadFailed), Action::Ignore));
    assert_eq!(p.stage, Stage::Projected);
}

#[test]
fn pipeline_connect_failure() {
    let (mut p, _) = Pipeline::start(&request("GET", "/", vec![], b""), &config(None));
    assert!(matches!(p.step(Event::ConnectFailed), Action::Fail(FailureKind::ConnectFailure)));
    assert_eq!(failure_message(FailureKind::ConnectFailure), "Failed to connect to Docker socket");
    assert_eq!(p.stage, Stage::Failed(FailureKind::ConnectFailure));
    assert!(matches!(p.step(Event::Connected), Action::Ignore));
    assert_eq!(p.stage, Stage::Failed(FailureKind::ConnectFailure));
}

#[test]
fn pipeline_write_failures_are_distinct() {
    let req = request("POST", "/", vec![], b"b");
    let (mut p, _) = Pipeline::start(&req, &config(None));
    p.step(Event::Connected);
    assert!(matches!(p.step(Event::WriteFailed), Action::Fail(FailureKind::HeadWriteFailure)));
    let (mut q, _) = Pipeline::start(&req, &config(None));
    q.step(Event::Connected);
    q.step(Event::Written);
    assert!(matches!(q.step(Event::WriteFailed), Action::Fail(FailureKind::BodyWriteFailure)));
    assert_ne!(failure_message(FailureKind::HeadWriteFailure), failure_message(FailureKind::BodyWriteFailure));
}

#[test]
fn pipeline_read_failure() {
    let mut p = sent_pipeline(&request("GET", "/", vec![], b""));
    assert!(matches!(p.step(Event::ReadFailed), Action::Fail(FailureKind::ReadFailure)));
    assert_eq!(p.stage, Stage::Failed(FailureKind::ReadFailure));
}

#[test]
fn pipeline_ignores_out_of_order_event() {
    let (mut p, _) = Pipeline::start(&request("GET", "/", vec![], b""), &config(None));
    assert!(matches!(p.step(Event::Written), Action::Ignore));
    assert_eq!(p.stage, Stage::Built);
}

#[test]
fn interleaved_pipelines_stay_separate() {
    let ra = request("POST", "/a", vec![field("x-id", "a")], b"alpha");
    let rb = request("PUT", "/b", vec![field("x-id", "b")], b"");
    let (mut pa, _) = Pipeline::start(&ra, &config(Some("t")));
    let (mut pb, _) = Pipeline::start(&rb, &config(Some("t")));
    pa.step(Event::Connected);
    pb.step(Event::Connected);
    pb.step(Event::Written);
    pa.step(Event::Written);
    pa.step(Event::Written);
    assert_eq!(pa.wire.head, build_request(&ra, &config(Some("t"))).head);
    assert_eq!(pb.wire.head, build_request(&rb, &config(Some("t"))).head);
    assert_eq!(pa.wire.body, b"alpha".to_vec());
    let ob = pb.step(Event::Read(b"HTTP/1.1 200 OK\r\nX-Id: b\r\n\r\nfor-b".to_vec()));
    let oa = pa.step(Event::Read(b"HTTP/1.1 202 Accepted\r\nX-Id: a\r\n\r\nfor-a".to_vec()));
    match (oa, ob) {
        (Action::Respond(a), Action::Respond(b)) => {
            assert_eq!((a.status, a.body), (202, b"for-a".to_vec()));
            assert_eq!((b.status, b.body), (200, b"for-b".to_vec()));
        }
        _ => panic!("both exchanges should respond"),
    }
}

#[test]
fn client_identity_prefers_forwarded_for() {
    let hs = vec![field("X-Forwarded-For", " 10.0.0.1 , 10.0.0.2"), field("x-forwarded-for", "9.9.9.9")];
    assert_eq!(client_identity(&hs, Some(b"127.0.0.1".to_vec())), b"10.0.0.1".to_vec());
}

#[test]
fn client_identity_falls_back_to_peer_then_unknown() {
    assert_eq!(client_identity(&vec![field("a", "b")], Some(b"1.2.3.4".to_vec())), b"1.2.3.4".to_vec());
    assert_eq!(client_identity(&vec![], None), b"unknown".to_vec());
    let bad = vec![HeaderField::new(b"x-forwarded-for".to_vec(), vec![0xc3, 0xa9])];
    assert_eq!(client_identity(&bad, None), b"unknown".to_vec());
}

#[test]
fn unicode_whitespace_separates_status_tokens() {
    let raw = "HTTP/1.1\u{3000}200\u{a0}OK\r\n\r\n".as_bytes();
    let p = parse_response(raw).unwrap();
    assert_eq!(p.status, 200);
    assert!(!p.status_defaulted);
    let raw = "HTTP/1.1\u{2009}404\u{85}\r\n\r\n".as_bytes();
    assert_eq!(parse_response(raw).unwrap().status, 404);
}

#[test]
fn unicode_whitespace_is_trimmed_from_headers() {
    let raw = "HTTP/1.1 200 OK\r\n\u{a0}X-Name\u{3000}:\u{2028} a\u{a0}b \u{205f}\r\n\r\n".as_bytes();
    let p = parse_response(raw).unwrap();
    assert_eq!(p.headers.len(), 1);
    assert_eq!(p.headers[0].name, b"X-Name".to_vec());
    assert_eq!(p.headers[0].value, "a\u{a0}b".as_bytes().to_vec());
}

#[test]
fn non_whitespace_multibyte_is_part_of_token() {
    let raw = "HTTP/1.1 2\u{e9}0 OK\r\n\r\n".as_bytes();
    let p = parse_response(raw).unwrap();
    assert_eq!(p.status, 500);
    assert!(p.status_defaulted);
}

#[test]
fn inbound_headers_come_back_first_with_padded_token() {
    let hs = vec![field("accept", "application/json"), field("x-trace", "t-1")];
    let req = request("GET", "/info", hs, b"");
    let parsed = parse_message(&wire(&req, &config(Some(" padded ")))).unwrap();
    assert_eq!(
        pairs(&parsed.headers),
        vec![
            ("accept".to_string(), "application/json".to_string()),
            ("x-trace".to_string(), "t-1".to_string()),
            ("x-api-key".to_string(), "padded".to_string()),
            ("Host".to_string(), "localhost".to_string()),
        ]
    );
}
