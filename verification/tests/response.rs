use serde_json::Value;
use wrapperd::error::WorkerError;
use wrapperd::head::find_head_end;
use wrapperd::json::parse_json_body;
use wrapperd::response::{
    error_body, error_detail_body, proxy_json, write_health, write_json, write_response,
    WorkerResponse, VERSION,
};

fn text(bytes: Vec<u8>) -> String {
    String::from_utf8(bytes).unwrap()
}

fn worker_error(message: &str) -> WorkerError {
    WorkerError { message: message.to_string() }
}

fn worker_response(http_status: u16, content_type: &str, body: &[u8]) -> WorkerResponse {
    WorkerResponse {
        http_status,
        content_type: content_type.to_string(),
        body: body.to_vec(),
    }
}

#[test]
fn a_response_is_written_in_full() {
    let mut out = Vec::new();
    write_response(&mut out, 200, "text/plain", b"hello");
    assert_eq!(
        text(out),
        "HTTP/1.1 200 OK\r\ncontent-type: text/plain\r\ncontent-length: 5\r\nconnection: close\r\n\r\nhello"
    );
}

#[test]
fn a_response_follows_what_was_written_before() {
    let mut out = b"before".to_vec();
    write_response(&mut out, 404, "", b"");
    assert_eq!(
        text(out),
        "beforeHTTP/1.1 404 Not Found\r\ncontent-type: \r\ncontent-length: 0\r\nconnection: close\r\n\r\n"
    );
}

#[test]
fn reason_phrases() {
    let phrases = [
        (200, "OK"),
        (202, "Accepted"),
        (400, "Bad Request"),
        (401, "Unauthorized"),
        (404, "Not Found"),
        (409, "Conflict"),
        (413, "Payload Too Large"),
        (431, "Request Header Fields Too Large"),
        (500, "Internal Server Error"),
        (502, "Bad Gateway"),
        (503, "Service Unavailable"),
        (504, "Gateway Timeout"),
        (0, "OK"),
        (418, "OK"),
        (65535, "OK"),
    ];
    for (status, phrase) in phrases {
        let mut out = Vec::new();
        write_response(&mut out, status, "x", b"");
        assert!(text(out).starts_with(&format!("HTTP/1.1 {status} {phrase}\r\n")));
    }
}

#[test]
fn the_first_blank_line_ends_the_head() {
    for body in [&b""[..], b"\r\n\r\n", b"\n\n\n", b"\n", b"a\n\nb"] {
        for content_type in ["", "application/json", "a\r\r", "\u{20ac}"] {
            let mut out = Vec::new();
            write_response(&mut out, 431, content_type, body);
            let end = find_head_end(&out, 0).unwrap();
            assert_eq!(&out[end..], body);
        }
    }
}

#[test]
fn documents_are_sent_as_json() {
    let mut out = Vec::new();
    write_json(&mut out, 400, &error_detail_body("invalid_json", "say \"why\""));
    assert_eq!(
        text(out),
        "HTTP/1.1 400 Bad Request\r\ncontent-type: application/json\r\ncontent-length: 47\r\nconnection: close\r\n\r\n{\"detail\":\"say \\\"why\\\"\",\"error\":\"invalid_json\"}"
    );
}

#[test]
fn error_documents() {
    assert_eq!(error_body("not_found").to_string(), "{\"error\":\"not_found\"}");
    let v = error_detail_body("a", "b");
    assert_eq!(v.get("error"), Some(&Value::from("a")));
    assert_eq!(v.get("detail"), Some(&Value::from("b")));
    assert_eq!(v.as_object().unwrap().len(), 2);
}

#[test]
fn the_workers_answer_is_passed_on() {
    let mut out = Vec::new();
    proxy_json(&mut out, Ok(worker_response(202, "text/x", b"\x00\xff")));
    let mut expected =
        b"HTTP/1.1 202 Accepted\r\ncontent-type: text/x\r\ncontent-length: 2\r\nconnection: close\r\n\r\n"
            .to_vec();
    expected.extend_from_slice(b"\x00\xff");
    assert_eq!(out, expected);
}

#[test]
fn a_missing_worker_is_reported() {
    let mut out = Vec::new();
    proxy_json(&mut out, Err(worker_error("no socket")));
    assert_eq!(
        text(out),
        "HTTP/1.1 503 Service Unavailable\r\ncontent-type: application/json\r\ncontent-length: 51\r\nconnection: close\r\n\r\n{\"detail\":\"no socket\",\"error\":\"worker_unavailable\"}"
    );
}

fn health(ipc: Option<Result<WorkerResponse, WorkerError>>) -> String {
    let mut out = Vec::new();
    let snapshot = parse_json_body(b"{\"pid\":7}").unwrap();
    write_health(&mut out, snapshot, ipc);
    let out = text(out);
    assert!(out.starts_with("HTTP/1.1 200 OK\r\ncontent-type: application/json\r\n"));
    out.split_once("\r\n\r\n").unwrap().1.to_string()
}

#[test]
fn health_reports() {
    assert_eq!(VERSION, "0.0.2");
    assert_eq!(
        health(None),
        "{\"mode\":\"rust-supervisor\",\"status\":\"ok\",\"version\":\"0.0.2\",\"worker\":{\"pid\":7},\"worker_ipc\":null}"
    );
    assert_eq!(
        health(Some(Ok(worker_response(204, "x", b"y")))),
        "{\"mode\":\"rust-supervisor\",\"status\":\"ok\",\"version\":\"0.0.2\",\"worker\":{\"pid\":7},\"worker_ipc\":{\"reachable\":true,\"status\":204}}"
    );
    assert_eq!(
        health(Some(Err(worker_error("gone")))),
        "{\"mode\":\"rust-supervisor\",\"status\":\"ok\",\"version\":\"0.0.2\",\"worker\":{\"pid\":7},\"worker_ipc\":{\"error\":\"gone\",\"reachable\":false,\"status\":0}}"
    );
}
