use wrapperd::connection::{handle_http_connection, HttpAction, HttpEvent, HttpState};
use wrapperd::error::{IoErrorKind, WorkerError};
use wrapperd::head::{PartialHead, MAX_HTTP_HEAD_BYTES};
use wrapperd::json::parse_json_body;
use wrapperd::request::WorkerOp;
use wrapperd::response::WorkerResponse;

fn start() -> HttpState {
    HttpState::Head(PartialHead::new())
}

fn head(bytes: &[u8]) -> HttpEvent {
    HttpEvent::Head(bytes.to_vec())
}

fn body(bytes: &[u8]) -> HttpEvent {
    HttpEvent::Body(bytes.to_vec())
}

fn sent(action: HttpAction) -> String {
    match action {
        HttpAction::Send(bytes) => String::from_utf8(bytes).unwrap(),
        other => panic!("expected Send, got {other:?}"),
    }
}

#[test]
fn a_request_is_served() {
    let (state, action) = handle_http_connection(start(), head(b"POST /login HTTP/1.1\r\ncontent-le"));
    assert!(matches!(action, HttpAction::ReadHead));
    let (state, action) = handle_http_connection(state, head(b"ngth: 7\r\n\r\n{\"a\""));
    assert!(matches!(action, HttpAction::ReadBody(3)));
    let (state, action) = handle_http_connection(state, body(b":1}"));
    match action {
        HttpAction::Ask { op, payload } => {
            assert_eq!(op, WorkerOp::Login);
            assert_eq!(payload.to_string(), "{\"a\":1}");
        }
        other => panic!("expected Ask, got {other:?}"),
    }
    let answer = WorkerResponse {
        http_status: 401,
        content_type: "application/json".to_string(),
        body: b"{}".to_vec(),
    };
    let (state, action) = handle_http_connection(state, HttpEvent::Answer(Ok(answer)));
    assert!(sent(action).starts_with("HTTP/1.1 401 Unauthorized\r\n"));
    assert!(matches!(state, HttpState::Closed));
}

#[test]
fn a_request_without_a_worker_is_answered() {
    let (state, _) = handle_http_connection(start(), head(b"GET /me HTTP/1.1\r\n\r\n"));
    let (state, _) = handle_http_connection(state, body(b""));
    let e = WorkerError { message: "gone".to_string() };
    let (state, action) = handle_http_connection(state, HttpEvent::Answer(Err(e)));
    assert!(sent(action).ends_with("{\"detail\":\"gone\",\"error\":\"worker_unavailable\"}"));
    assert!(matches!(state, HttpState::Closed));
}

#[test]
fn health_is_reported() {
    let (state, action) =
        handle_http_connection(start(), head(b"GET /health?deep=1 HTTP/1.1\r\n\r\n"));
    assert!(matches!(action, HttpAction::ReadBody(0)));
    let (state, action) = handle_http_connection(state, body(b""));
    assert!(matches!(action, HttpAction::Health { deep: true }));
    let snapshot = parse_json_body(b"\"up\"").unwrap();
    let (state, action) =
        handle_http_connection(state, HttpEvent::Health { snapshot, ipc: None });
    assert!(sent(action).ends_with("\"worker\":\"up\",\"worker_ipc\":null}"));
    assert!(matches!(state, HttpState::Closed));
}

#[test]
fn an_early_end_closes_quietly() {
    let (state, _) = handle_http_connection(start(), head(b"GET"));
    let (state, action) = handle_http_connection(state, head(b""));
    assert!(matches!(action, HttpAction::Close));
    assert!(matches!(state, HttpState::Closed));
}

#[test]
fn an_endless_head_is_refused() {
    let (state, action) =
        handle_http_connection(start(), head(&vec![b'x'; MAX_HTTP_HEAD_BYTES + 1]));
    assert!(sent(action).starts_with("HTTP/1.1 431 "));
    assert!(matches!(state, HttpState::Closed));
}

#[test]
fn an_oversized_body_is_refused() {
    let (state, action) = handle_http_connection(
        start(),
        head(b"GET /me HTTP/1.1\r\ncontent-length: 65537\r\n\r\n"),
    );
    assert!(sent(action).starts_with("HTTP/1.1 413 "));
    assert!(matches!(state, HttpState::Closed));
}

#[test]
fn a_login_is_served_the_same_wherever_the_stream_is_cut() {
    let stream = b"POST /login HTTP/1.1\r\nhost: h\r\ncontent-length: 7\r\n\r\n{\"a\":1}GET /";
    for step in 1..stream.len() + 1 {
        let mut state = start();
        let mut taken = 0;
        let missing = loop {
            let end = (taken + step).min(stream.len());
            let (next, action) = handle_http_connection(state, head(&stream[taken..end]));
            state = next;
            taken = end;
            match action {
                HttpAction::ReadHead => {}
                HttpAction::ReadBody(n) => break n,
                other => panic!("unexpected with step {step}: {other:?}"),
            }
        };
        let (_, action) = handle_http_connection(state, body(&stream[taken..taken + missing]));
        match action {
            HttpAction::Ask { op, payload } => {
                assert_eq!(op, WorkerOp::Login);
                assert_eq!(payload.to_string(), "{\"a\":1}");
            }
            other => panic!("expected Ask with step {step}, got {other:?}"),
        }
    }
}

#[test]
fn a_body_length_past_every_machine_number_is_refused() {
    let (state, action) = handle_http_connection(
        start(),
        head(b"POST /login HTTP/1.1\r\ncontent-length: 99999999999999999999999\r\n\r\n{}"),
    );
    let response = sent(action);
    assert!(response.starts_with("HTTP/1.1 413 Payload Too Large\r\n"));
    assert!(response.ends_with("\r\n\r\n{\"error\":\"payload_too_large\"}"));
    assert!(matches!(state, HttpState::Closed));
}

#[test]
fn a_broken_head_is_reported_and_not_answered() {
    let (state, action) = handle_http_connection(start(), head(b"GET /\x01 HTTP/1.1\r\n\r\n"));
    match action {
        HttpAction::Fail(e) => assert_eq!(e.kind, IoErrorKind::InvalidData),
        other => panic!("expected Fail, got {other:?}"),
    }
    assert!(matches!(state, HttpState::Closed));
}

#[test]
fn an_answered_connection_sends_nothing_more() {
    let (state, _) = handle_http_connection(start(), head(b"GET /none HTTP/1.1\r\n\r\n"));
    let (state, action) = handle_http_connection(state, body(b""));
    assert!(sent(action).starts_with("HTTP/1.1 404 "));
    let (state, action) = handle_http_connection(state, head(b"GET /none HTTP/1.1\r\n\r\n"));
    assert!(matches!(action, HttpAction::Close));
    let (state, action) = handle_http_connection(state, body(b""));
    assert!(matches!(action, HttpAction::Close));
    assert!(matches!(state, HttpState::Closed));
}
