use serde_json::Value;
use wrapperd::error::{IoError, IoErrorKind};
use wrapperd::head::HttpHead;
use wrapperd::json::parse_json_body;
use wrapperd::request::{
    admit_request, content_length, forward_document, handle_http_head, handle_http_request, route,
    HeadAction, Header, ParsedRequest, Request, RequestAction, Route, WorkerOp, MAX_HTTP_HEADERS,
};

fn header(name: &str, value: &[u8]) -> Header {
    Header { name: name.to_string(), value: value.to_vec() }
}

fn declared(value: &[u8]) -> usize {
    content_length(&vec![header("Content-Length", value)])
}

fn request(method: &str, target: &str, body: &[u8]) -> Request {
    Request {
        method: method.to_string(),
        target: target.to_string(),
        body: body.to_vec(),
        missing: 0,
    }
}

/// What is asked of the worker.
fn asked(action: RequestAction) -> (WorkerOp, String) {
    match action {
        RequestAction::Ask { op, payload } => (op, payload.to_string()),
        other => panic!("expected Ask, got {other:?}"),
    }
}

/// The status line and the body of a reply.
fn reply(bytes: Vec<u8>) -> (String, String) {
    let text = String::from_utf8(bytes).unwrap();
    let (head, body) = text.split_once("\r\n\r\n").unwrap();
    (head.lines().next().unwrap().to_string(), body.to_string())
}

fn replied(action: RequestAction) -> (String, String) {
    match action {
        RequestAction::Reply(bytes) => reply(bytes),
        other => panic!("expected Reply, got {other:?}"),
    }
}

fn refused(action: HeadAction) -> (String, String) {
    match action {
        HeadAction::Reply(bytes) => reply(bytes),
        other => panic!("expected Reply, got {other:?}"),
    }
}

fn admitted(head: &[u8]) -> Request {
    match handle_http_head(HttpHead::Read(head.to_vec())) {
        HeadAction::Body(request) => request,
        other => panic!("expected Body, got {other:?}"),
    }
}

fn pair(a: &str, b: &str) -> (String, String) {
    (a.to_string(), b.to_string())
}

#[test]
fn declared_lengths() {
    assert_eq!(content_length(&Vec::new()), 0);
    assert_eq!(declared(b"17"), 17);
    assert_eq!(declared(b" \t17 "), 17);
    assert_eq!(declared(b"+17"), 17);
    assert_eq!(declared(b"-17"), 0);
    assert_eq!(declared(b"17x"), 0);
    assert_eq!(declared(b""), 0);
    assert_eq!(declared(b"\xff17"), 0);
    assert_eq!(declared(b"0000000000000000000000000017"), 17);
    assert_eq!(declared(b"18446744073709551615"), usize::MAX);
    assert_eq!(declared(b"18446744073709551616"), usize::MAX);
    assert_eq!(declared(b"99999999999999999999999"), usize::MAX);
    assert_eq!(declared(b" +99999999999999999999999 "), usize::MAX);
    assert_eq!(declared(b"99999999999999999999999x"), 0);
    assert_eq!(declared(b"-99999999999999999999999"), 0);
    assert_eq!(declared(b"+"), 0);
    assert_eq!(declared("\u{2003}17\u{a0}".as_bytes()), 17);
}

#[test]
fn the_last_length_counts() {
    let both = |a: &[u8], b: &[u8]| {
        content_length(&vec![
            header("content-length", a),
            header("host", b"5"),
            header("CONTENT-LENGTH", b),
        ])
    };
    assert_eq!(both(b"1", b"2"), 2);
    assert_eq!(both(b"1", b"none"), 0);
    assert_eq!(content_length(&vec![header("content-length2", b"3")]), 0);
}

#[test]
fn heads_are_parsed() {
    let r = admitted(b"POST /login?x=1 HTTP/1.1\r\nHost: h\r\nContent-Length: 10\r\n\r\nabc");
    assert_eq!(r.method, "POST");
    assert_eq!(r.target, "/login?x=1");
    assert_eq!(r.body, b"abc".to_vec());
    assert_eq!(r.missing, 7);
}

#[test]
fn a_head_may_use_bare_line_feeds() {
    let r = admitted(b"GET /me HTTP/1.1\nHost: h\n\n");
    assert_eq!(r.method, "GET");
    assert_eq!(r.target, "/me");
    assert_eq!(r.missing, 0);
}

#[test]
fn bytes_past_the_declared_body_are_dropped() {
    let r = admitted(b"POST / HTTP/1.1\r\ncontent-length: 2\r\n\r\nabcdef");
    assert_eq!(r.body, b"ab".to_vec());
    assert_eq!(r.missing, 0);
    let r = admitted(b"POST / HTTP/1.1\r\n\r\nabcdef");
    assert_eq!(r.body, Vec::<u8>::new());
    assert_eq!(r.missing, 0);
}

#[test]
fn the_body_is_the_same_wherever_the_stream_is_cut() {
    let stream = b"POST /login HTTP/1.1\r\ncontent-length: 7\r\n\r\n{\"a\":1}more";
    let head_len = stream.len() - 11;
    for cut in head_len..stream.len() + 1 {
        let r = admitted(&stream[..cut]);
        let missing = r.missing;
        let action = handle_http_request(r, &stream[cut..cut + missing]);
        assert_eq!(asked(action), (WorkerOp::Login, "{\"a\":1}".to_string()));
    }
}

#[test]
fn reading_that_ended_without_a_head() {
    assert!(matches!(handle_http_head(HttpHead::Eof), HeadAction::Close));
    assert_eq!(
        refused(handle_http_head(HttpHead::TooLarge)),
        pair("HTTP/1.1 431 Request Header Fields Too Large", "{\"error\":\"headers_too_large\"}")
    );
}

#[test]
fn an_incomplete_head_is_refused() {
    assert_eq!(
        refused(handle_http_head(HttpHead::Read(b"\n\nGET / HTTP/1.1\r\n".to_vec()))),
        pair("HTTP/1.1 400 Bad Request", "{\"error\":\"bad_request\"}")
    );
}

#[test]
fn a_broken_head_fails() {
    match handle_http_head(HttpHead::Read(b"GET / HTTP/9.9\r\n\r\n".to_vec())) {
        HeadAction::Fail(e) => {
            assert_eq!(e.kind, IoErrorKind::InvalidData);
            assert_eq!(e.message, httparse::Error::Version.to_string());
        }
        other => panic!("expected Fail, got {other:?}"),
    }
}

#[test]
fn bytes_after_a_complete_or_broken_head_change_nothing() {
    for tail in [&b""[..], b"x", b"\r\n\r\n", b"GET /other HTTP/1.1\r\n\r\n", b"\xff\x00\x7f"] {
        let mut head = b"GET /me HTTP/1.1\r\nhost: h\r\n\r\n".to_vec();
        head.extend_from_slice(tail);
        let r = admitted(&head);
        assert_eq!((r.method.as_str(), r.target.as_str()), ("GET", "/me"));
        assert_eq!((r.body.len(), r.missing), (0, 0));
        let mut head = b"GET /me HTTP/1.1\r\nho st: h\r\n\r\n".to_vec();
        head.extend_from_slice(tail);
        match handle_http_head(HttpHead::Read(head)) {
            HeadAction::Fail(e) => {
                assert_eq!(e.message, httparse::Error::HeaderName.to_string());
            }
            other => panic!("expected Fail, got {other:?}"),
        }
    }
}

#[test]
fn header_fields_are_limited() {
    let head = |n: usize| {
        let mut head = b"GET / HTTP/1.1\r\n".to_vec();
        for _ in 0..n {
            head.extend_from_slice(b"a: b\r\n");
        }
        head.extend_from_slice(b"\r\n");
        handle_http_head(HttpHead::Read(head))
    };
    assert_eq!(MAX_HTTP_HEADERS, 64);
    assert!(matches!(head(64), HeadAction::Body(_)));
    match head(65) {
        HeadAction::Fail(e) => {
            assert_eq!(e.message, httparse::Error::TooManyHeaders.to_string());
        }
        other => panic!("expected Fail, got {other:?}"),
    }
}

#[test]
fn large_bodies_are_refused_before_they_are_read() {
    assert_eq!(admitted(b"POST / HTTP/1.1\r\ncontent-length: 65536\r\n\r\n").missing, 65536);
    assert_eq!(
        refused(handle_http_head(HttpHead::Read(
            b"POST / HTTP/1.1\r\ncontent-length: 65537\r\n\r\n".to_vec()
        ))),
        pair("HTTP/1.1 413 Payload Too Large", "{\"error\":\"payload_too_large\"}")
    );
}

#[test]
fn parts_that_a_head_lacks_have_defaults() {
    let parsed = ParsedRequest { head_len: 1, method: None, path: None, headers: Vec::new() };
    match admit_request(b"xyz".to_vec(), parsed) {
        HeadAction::Body(r) => {
            assert_eq!(r.method, "");
            assert_eq!(r.target, "/");
            assert_eq!(r.body, Vec::<u8>::new());
        }
        other => panic!("expected Body, got {other:?}"),
    }
}

#[test]
fn routes() {
    assert_eq!(route("GET", "/health"), Route::Health);
    assert_eq!(route("GET", "/me"), Route::Me);
    assert_eq!(route("POST", "/login"), Route::Login);
    assert_eq!(route("POST", "/login/2fa"), Route::LoginTwoFactor);
    assert_eq!(route("DELETE", "/login"), Route::Logout);
    assert_eq!(route("GET", "/playback"), Route::Playback);
    assert_eq!(route("POST", "/decrypt"), Route::Decrypt);
    assert_eq!(route("POST", "/health"), Route::Unknown);
    assert_eq!(route("get", "/health"), Route::Unknown);
    assert_eq!(route("GET", "/health/"), Route::Unknown);
    assert_eq!(route("GET", "/login"), Route::Unknown);
    assert_eq!(route("", ""), Route::Unknown);
}

#[test]
fn health_is_deep_on_request() {
    let deep = |target: &str| match handle_http_request(request("GET", target, b""), b"") {
        RequestAction::Health { deep } => deep,
        other => panic!("expected Health, got {other:?}"),
    };
    assert!(!deep("/health"));
    assert!(deep("/health?deep=1"));
    assert!(deep("/health?deep=true"));
    assert!(deep("/health?a=b&deep=%79es"));
    assert!(!deep("/health?deep=0"));
    assert!(!deep("/health?deep=TRUE"));
    assert!(!deep("/health?deep"));
    assert!(!deep("/health?deep=1&deep=0"));
}

#[test]
fn requests_without_a_body_ask_with_null() {
    assert_eq!(
        asked(handle_http_request(request("GET", "/me", b"ignored"), b"")),
        (WorkerOp::Me, "null".to_string())
    );
    assert_eq!(
        asked(handle_http_request(request("DELETE", "/login?x", b""), b"")),
        (WorkerOp::Logout, "null".to_string())
    );
}

#[test]
fn documents_go_to_the_worker() {
    assert_eq!(
        asked(handle_http_request(request("POST", "/login", b"{\"b\" : [1, tr"), b"ue]}")),
        (WorkerOp::Login, "{\"b\":[1,true]}".to_string())
    );
    assert_eq!(
        asked(handle_http_request(request("POST", "/login/2fa", b"\"123456\""), b"")),
        (WorkerOp::LoginTwoFactor, "\"123456\"".to_string())
    );
}

#[test]
fn bodies_that_are_no_json_are_refused() {
    let message = serde_json::from_slice::<Value>(b"{").unwrap_err().to_string();
    for target in ["/login", "/login/2fa"] {
        let (status, body) = replied(handle_http_request(request("POST", target, b"{"), b""));
        assert_eq!(status, "HTTP/1.1 400 Bad Request");
        let v: Value = serde_json::from_str(&body).unwrap();
        assert_eq!(v.get("error"), Some(&Value::from("invalid_json")));
        assert_eq!(v.get("detail"), Some(&Value::from(message.as_str())));
    }
}

#[test]
fn read_bodies_are_forwarded_or_refused() {
    let v = parse_json_body(b"[]").unwrap();
    assert_eq!(asked(forward_document(WorkerOp::Me, Ok(v))), (WorkerOp::Me, "[]".to_string()));
    let e = IoError { kind: IoErrorKind::InvalidData, message: "why".to_string() };
    assert_eq!(
        replied(forward_document(WorkerOp::Me, Err(e))),
        pair("HTTP/1.1 400 Bad Request", "{\"detail\":\"why\",\"error\":\"invalid_json\"}")
    );
}

#[test]
fn json_errors_are_invalid_data() {
    let e = parse_json_body(b"").unwrap_err();
    assert_eq!(e.kind, IoErrorKind::InvalidData);
    assert_eq!(e.message, serde_json::from_slice::<Value>(b"").unwrap_err().to_string());
}

#[test]
fn playback_names_a_title() {
    let payload = |target: &str| {
        let (op, payload) = asked(handle_http_request(request("GET", target, b""), b""));
        assert_eq!(op, WorkerOp::Playback);
        payload
    };
    assert_eq!(payload("/playback?adam_id=12"), "{\"adam_id\":\"12\"}");
    assert_eq!(payload("/playback?adamId=12"), "{\"adam_id\":\"12\"}");
    assert_eq!(payload("/playback?adamId=1&adam_id=2"), "{\"adam_id\":\"2\"}");
    assert_eq!(payload("/playback?adam_id=&adamId=1"), "{\"adam_id\":\"\"}");
    assert_eq!(payload("/playback"), "{\"adam_id\":\"\"}");
    assert_eq!(payload("/playback?adam_id=%22"), "{\"adam_id\":\"\\\"\"}");
}

#[test]
fn decryption_is_not_offered_over_http() {
    assert_eq!(
        replied(handle_http_request(request("POST", "/decrypt", b""), b"")),
        pair(
            "HTTP/1.1 404 Not Found",
            "{\"detail\":\"decrypt is available on the raw TCP port, not HTTP\",\"error\":\"not_found\"}"
        )
    );
}

#[test]
fn unknown_requests_are_not_found() {
    assert_eq!(
        replied(handle_http_request(request("PUT", "/login", b""), b"")),
        pair("HTTP/1.1 404 Not Found", "{\"error\":\"not_found\"}")
    );
}
