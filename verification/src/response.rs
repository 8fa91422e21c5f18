//! HTTP responses and what is in them.
use serde_json::Value;
use vstd::prelude::*;
use vstd::utf8::{encode_utf8, is_ascii_chars_encode_utf8};

use crate::bytes::push_all;
use crate::error::WorkerError;
use crate::head::blank_line;
use crate::json::{
    json_bool, json_null, json_number, json_string, json_text, json_to_string, json_tree,
    JsonObject, JsonTree,
};
use crate::text::{
    decimal, decimal_has_no_leading_zero, decimal_reads_back, decimal_value, lemma_absent_byte,
    lemma_encode_concat, push_decimal,
};

verus! {

/// The version that the service reports.
pub const VERSION: &'static str = "0.0.2";

/// What the worker answered to a request.
#[derive(Debug)]
pub struct WorkerResponse {
    pub http_status: u16,
    pub content_type: String,
    pub body: Vec<u8>,
}

/// The reason phrase of a status code.
pub open spec fn reason_phrase(status: u16) -> Seq<char> {
    if status == 202 {
        "Accepted"@
    } else if status == 400 {
        "Bad Request"@
    } else if status == 401 {
        "Unauthorized"@
    } else if status == 404 {
        "Not Found"@
    } else if status == 409 {
        "Conflict"@
    } else if status == 413 {
        "Payload Too Large"@
    } else if status == 431 {
        "Request Header Fields Too Large"@
    } else if status == 500 {
        "Internal Server Error"@
    } else if status == 502 {
        "Bad Gateway"@
    } else if status == 503 {
        "Service Unavailable"@
    } else if status == 504 {
        "Gateway Timeout"@
    } else {
        "OK"@
    }
}

/// The head of a response, with the blank line that ends it.
pub open spec fn response_head(status: u16, content_type: Seq<char>, body_len: nat) -> Seq<char> {
    "HTTP/1.1 "@ + decimal(status as nat) + " "@ + reason_phrase(status) + "\r\ncontent-type: "@
        + content_type + "\r\ncontent-length: "@ + decimal(body_len)
        + "\r\nconnection: close\r\n\r\n"@
}

/// The bytes of a response.
pub open spec fn response_bytes(status: u16, content_type: Seq<char>, body: Seq<u8>) -> Seq<u8> {
    encode_utf8(response_head(status, content_type, body.len())) + body
}

/// The bytes of a response whose body is a JSON document.
pub open spec fn json_response(status: u16, body: JsonTree) -> Seq<u8> {
    response_bytes(status, "application/json"@, encode_utf8(json_text(body)))
}

/// The document that reports an error.
pub open spec fn error_tree(error: Seq<char>) -> JsonTree {
    JsonTree::Object(Map::empty().insert("error"@, JsonTree::Text(error)))
}

/// The document that reports an error with a detail.
pub open spec fn error_detail_tree(error: Seq<char>, detail: Seq<char>) -> JsonTree {
    JsonTree::Object(
        Map::empty().insert("error"@, JsonTree::Text(error)).insert(
            "detail"@,
            JsonTree::Text(detail),
        ),
    )
}

/// The reason phrase of a status code.
fn reason(status: u16) -> (r: &'static str)
    ensures
        r@ == reason_phrase(status),
{
    match status {
        200 => "OK",
        202 => "Accepted",
        400 => "Bad Request",
        401 => "Unauthorized",
        404 => "Not Found",
        409 => "Conflict",
        413 => "Payload Too Large",
        431 => "Request Header Fields Too Large",
        500 => "Internal Server Error",
        502 => "Bad Gateway",
        503 => "Service Unavailable",
        504 => "Gateway Timeout",
        _ => "OK",
    }
}

/// Writes a response to `out`.
pub fn write_response(out: &mut Vec<u8>, status: u16, content_type: &str, body: &[u8])
    ensures
        final(out)@ == old(out)@ + response_bytes(status, content_type@, body@),
{
    let mut head: String = "HTTP/1.1 ".to_owned();
    push_decimal(&mut head, status as usize);
    head.append(" ");
    head.append(reason(status));
    head.append("\r\ncontent-type: ");
    head.append(content_type);
    head.append("\r\ncontent-length: ");
    push_decimal(&mut head, body.len());
    head.append("\r\nconnection: close\r\n\r\n");
    push_all(out, head.as_str().as_bytes());
    push_all(out, body);
    assert(out@ =~= old(out)@ + response_bytes(status, content_type@, body@));
}

/// Writes a response whose body is a JSON document.
pub fn write_json(out: &mut Vec<u8>, status: u16, body: &Value)
    ensures
        final(out)@ == old(out)@ + json_response(status, json_tree(*body)),
{
    let text: String = json_to_string(body);
    write_response(out, status, "application/json", text.as_str().as_bytes());
}

/// The document that reports an error.
pub fn error_body(error: &str) -> (v: Value)
    ensures
        json_tree(v) == error_tree(error@),
{
    JsonObject::new().with("error", json_string(error)).finish()
}

/// The document that reports an error with a detail.
pub fn error_detail_body(error: &str, detail: &str) -> (v: Value)
    ensures
        json_tree(v) == error_detail_tree(error@, detail@),
{
    proof {
        reveal_strlit("error");
        reveal_strlit("detail");
        assert("error"@.len() != "detail"@.len());
    }
    JsonObject::new().with("error", json_string(error)).with("detail", json_string(detail)).finish()
}

/// The bytes that answer a request which was handed to the worker.
pub open spec fn proxy_response(result: Result<WorkerResponse, WorkerError>) -> Seq<u8> {
    match result {
        Ok(r) => response_bytes(r.http_status, r.content_type@, r.body@),
        Err(e) => json_response(503, error_detail_tree("worker_unavailable"@, e.message@)),
    }
}

/// Passes the worker's answer on, or reports that there was none.
pub fn proxy_json(out: &mut Vec<u8>, result: Result<WorkerResponse, WorkerError>)
    ensures
        final(out)@ == old(out)@ + proxy_response(result),
{
    match result {
        Ok(r) => write_response(out, r.http_status, r.content_type.as_str(), r.body.as_slice()),
        Err(e) => write_json(
            out,
            503,
            &error_detail_body("worker_unavailable", e.message.as_str()),
        ),
    }
}

/// What a health report says of the worker's own answer: nothing if it was not asked.
pub open spec fn worker_ipc_tree(ipc: Option<Result<WorkerResponse, WorkerError>>) -> JsonTree {
    match ipc {
        None => JsonTree::Null,
        Some(Ok(r)) => JsonTree::Object(
            Map::empty().insert("reachable"@, JsonTree::Bool(true)).insert(
                "status"@,
                JsonTree::Number(decimal(r.http_status as nat)),
            ),
        ),
        Some(Err(e)) => JsonTree::Object(
            Map::empty().insert("reachable"@, JsonTree::Bool(false)).insert(
                "status"@,
                JsonTree::Number(decimal(0)),
            ).insert("error"@, JsonTree::Text(e.message@)),
        ),
    }
}

/// The health report.
pub open spec fn health_tree(
    snapshot: JsonTree,
    ipc: Option<Result<WorkerResponse, WorkerError>>,
) -> JsonTree {
    JsonTree::Object(
        Map::empty().insert("status"@, JsonTree::Text("ok"@)).insert(
            "version"@,
            JsonTree::Text(VERSION@),
        ).insert("mode"@, JsonTree::Text("rust-supervisor"@)).insert("worker"@, snapshot).insert(
            "worker_ipc"@,
            worker_ipc_tree(ipc),
        ),
    )
}

/// What a health report says of the worker's own answer.
fn worker_ipc_body(ipc: Option<Result<WorkerResponse, WorkerError>>) -> (v: Value)
    ensures
        json_tree(v) == worker_ipc_tree(ipc),
{
    proof {
        reveal_strlit("reachable");
        reveal_strlit("status");
        reveal_strlit("error");
        assert("reachable"@.len() != "status"@.len());
        assert("reachable"@.len() != "error"@.len());
        assert("status"@.len() != "error"@.len());
    }
    match ipc {
        None => json_null(),
        Some(Ok(r)) => JsonObject::new().with("reachable", json_bool(true)).with(
            "status",
            json_number(r.http_status),
        ).finish(),
        Some(Err(e)) => JsonObject::new().with("reachable", json_bool(false)).with(
            "status",
            json_number(0),
        ).with("error", json_string(e.message.as_str())).finish(),
    }
}

/// Writes the health report: `snapshot` is what the supervisor knows of the worker, `ipc` what
/// the worker itself answered, if it was asked.
pub fn write_health(
    out: &mut Vec<u8>,
    snapshot: Value,
    ipc: Option<Result<WorkerResponse, WorkerError>>,
)
    ensures
        final(out)@ == old(out)@ + json_response(200, health_tree(json_tree(snapshot), ipc)),
{
    proof {
        reveal_strlit("status");
        reveal_strlit("version");
        reveal_strlit("mode");
        reveal_strlit("worker");
        reveal_strlit("worker_ipc");
        assert("status"@[0] == 's' && "version"@[0] == 'v' && "mode"@[0] == 'm' && "worker"@[0]
            == 'w' && "worker_ipc"@[0] == 'w');
        assert("worker"@.len() != "worker_ipc"@.len());
    }
    let report: Value = JsonObject::new().with("status", json_string("ok")).with(
        "version",
        json_string(VERSION),
    ).with("mode", json_string("rust-supervisor")).with("worker", snapshot).with(
        "worker_ipc",
        worker_ipc_body(ipc),
    ).finish();
    write_json(out, 200, &report);
}

/// Whether the characters of `s` from `from` up to `to` are ASCII and no line feeds.
spec fn plain(s: Seq<char>, from: int, to: int) -> bool
    decreases to - from,
{
    from >= to || ('\0' <= s[from] <= '\u{7f}' && s[from] != '\n' && plain(s, from + 1, to))
}

/// What `plain` says of each character.
proof fn lemma_plain(s: Seq<char>, from: int, to: int)
    requires
        plain(s, from, to),
    ensures
        forall|i: int| from <= i < to ==> '\0' <= #[trigger] s[i] <= '\u{7f}' && s[i] != '\n',
    decreases to - from,
{
    if from < to {
        lemma_plain(s, from + 1, to);
    }
}

/// A reason phrase is plain.
proof fn lemma_reason_is_plain(status: u16)
    ensures
        !reason_phrase(status).contains('\n'),
{
    reveal_strlit("OK");
    reveal_strlit("Accepted");
    reveal_strlit("Bad Request");
    reveal_strlit("Unauthorized");
    reveal_strlit("Not Found");
    reveal_strlit("Conflict");
    reveal_strlit("Payload Too Large");
    reveal_strlit("Request Header Fields Too Large");
    reveal_strlit("Internal Server Error");
    reveal_strlit("Bad Gateway");
    reveal_strlit("Service Unavailable");
    reveal_strlit("Gateway Timeout");
    reveal_with_fuel(plain, 32);
    let phrase = reason_phrase(status);
    assert(plain(phrase, 0, phrase.len() as int));
    lemma_plain(phrase, 0, phrase.len() as int);
}

/// The status line is free of line feeds.
proof fn lemma_status_line(status: u16)
    ensures
        !("HTTP/1.1 "@ + decimal(status as nat) + " "@ + reason_phrase(status)).contains('\n'),
{
    reveal_strlit("HTTP/1.1 ");
    reveal_strlit(" ");
    reveal_with_fuel(plain, 10);
    lemma_plain("HTTP/1.1 "@, 0, 9);
    decimal_reads_back(status as nat);
    lemma_reason_is_plain(status);
    let line = "HTTP/1.1 "@ + decimal(status as nat) + " "@ + reason_phrase(status);
    assert forall|i: int| 0 <= i < line.len() implies line[i] != '\n' by {
        let k = 9 + decimal(status as nat).len();
        if i < 9 {
            assert(line[i] == "HTTP/1.1 "@[i]);
        } else if i < k {
            assert(line[i] == decimal(status as nat)[i - 9]);
        } else if i > k {
            assert(line[i] == reason_phrase(status)[i - k - 1]);
            assert(reason_phrase(status).contains(line[i]));
        }
    }
}

/// The bytes of a text that is a line end and then plain characters.
proof fn lemma_header_bytes(text: Seq<char>)
    requires
        text.len() > 2,
        text[0] == '\r',
        text[1] == '\n',
        plain(text, 2, text.len() as int),
    ensures
        encode_utf8(text).len() == text.len(),
        encode_utf8(text)[0] == 13,
        encode_utf8(text)[1] == 10,
        forall|i: int| 2 <= i < text.len() ==> #[trigger] encode_utf8(text)[i] != 10,
{
    lemma_plain(text, 2, text.len() as int);
    is_ascii_chars_encode_utf8(text);
    assert forall|i: int| 2 <= i < text.len() implies #[trigger] encode_utf8(text)[i] != 10 by {
        let c: char = text[i];
        assert(c as u8 == encode_utf8(text)[i]);
        assert(c <= '\u{7f}' && c != '\n');
    }
}

/// The bytes that end a response head.
proof fn lemma_last_header_bytes()
    ensures
        ({
            let end = encode_utf8("\r\nconnection: close\r\n\r\n"@);
            &&& end.len() == 23
            &&& end[0] == 13 && end[1] == 10
            &&& forall|i: int| 2 <= i < 20 ==> #[trigger] end[i] != 10
            &&& end[19] == 13 && end[20] == 10 && end[21] == 13 && end[22] == 10
        }),
{
    reveal_strlit("\r\nconnection: close\r\n\r\n");
    let text = "\r\nconnection: close\r\n\r\n"@;
    reveal_with_fuel(plain, 20);
    assert(plain(text, 2, 20));
    lemma_plain(text, 2, 20);
    is_ascii_chars_encode_utf8(text);
    assert forall|i: int| 2 <= i < 20 implies #[trigger] encode_utf8(text)[i] != 10 by {
        let c: char = text[i];
        assert(c as u8 == encode_utf8(text)[i]);
        assert(c <= '\u{7f}' && c != '\n');
    }
}

/// `response_head_ends_at_the_body`, of the parts of a head as bytes.
proof fn lemma_head_cut(
    line: Seq<u8>,
    kind: Seq<u8>,
    content_type: Seq<u8>,
    length: Seq<u8>,
    digits: Seq<u8>,
    end: Seq<u8>,
    body: Seq<u8>,
)
    requires
        !line.contains(10),
        !content_type.contains(10),
        !digits.contains(10),
        digits.len() > 0,
        kind.len() > 2,
        kind[0] == 13 && kind[1] == 10,
        forall|i: int| 2 <= i < kind.len() ==> #[trigger] kind[i] != 10,
        length.len() > 2,
        length[0] == 13 && length[1] == 10,
        forall|i: int| 2 <= i < length.len() ==> #[trigger] length[i] != 10,
        end.len() == 23,
        end[0] == 13 && end[1] == 10,
        forall|i: int| 2 <= i < 20 ==> #[trigger] end[i] != 10,
        end[19] == 13 && end[20] == 10 && end[21] == 13 && end[22] == 10,
    ensures
        ({
            let head = line + kind + content_type + length + digits + end;
            &&& blank_line(head + body, 0, head.len() as int)
            &&& forall|at: int| #[trigger] blank_line(head + body, 0, at) ==> at >= head.len()
        }),
{
    let head = line + kind + content_type + length + digits + end;
    let all = head + body;
    let p1: int = line.len() as int;
    let p2: int = p1 + kind.len();
    let p3: int = p2 + content_type.len();
    let p4: int = p3 + length.len();
    let p5: int = p4 + digits.len();
    assert forall|i: int| 0 <= i < p1 implies #[trigger] all[i] != 10 by {
        assert(all[i] == line[i] && line.contains(line[i]));
    }
    assert forall|i: int| p1 <= i < p2 implies #[trigger] all[i] == kind[i - p1] by {}
    assert forall|i: int| p2 <= i < p3 implies #[trigger] all[i] != 10 by {
        assert(all[i] == content_type[i - p2] && content_type.contains(content_type[i - p2]));
    }
    assert forall|i: int| p3 <= i < p4 implies #[trigger] all[i] == length[i - p3] by {}
    assert forall|i: int| p4 <= i < p5 implies #[trigger] all[i] != 10 by {
        assert(all[i] == digits[i - p4] && digits.contains(digits[i - p4]));
    }
    assert forall|i: int| p5 <= i < head.len() implies #[trigger] all[i] == end[i - p5] by {}
    assert forall|at: int| #[trigger] blank_line(all, 0, at) implies at >= head.len() by {
        if at < head.len() {
            let i = at - 1;
            assert(all[i] == 10);
            assert(i == p1 + 1 || i == p3 + 1 || i == p5 + 1 || i == p5 + 20);
            assert(all[i - 1] == 13);
            assert(i >= 3);
            assert(all[i - 2] != 10);
        }
    }
}

/// A response is cut where it was put together: the first blank line is the one that ends its
/// head, and the body is what follows. A content type that itself breaks the line is left out.
pub proof fn response_head_ends_at_the_body(status: u16, content_type: Seq<char>, body: Seq<u8>)
    requires
        !content_type.contains('\n'),
    ensures
        ({
            let response = response_bytes(status, content_type, body);
            let head_len = response.len() - body.len();
            &&& blank_line(response, 0, head_len)
            &&& forall|end: int| #[trigger] blank_line(response, 0, end) ==> end >= head_len
            &&& response.skip(head_len) == body
        }),
{
    let line = "HTTP/1.1 "@ + decimal(status as nat) + " "@ + reason_phrase(status);
    let kind = "\r\ncontent-type: "@;
    let length = "\r\ncontent-length: "@;
    let digits = decimal(body.len());
    let end = "\r\nconnection: close\r\n\r\n"@;
    lemma_status_line(status);
    lemma_absent_byte(line, '\n');
    lemma_absent_byte(content_type, '\n');
    decimal_reads_back(body.len());
    is_ascii_chars_encode_utf8(digits);
    assert forall|i: int| 0 <= i < digits.len() implies digits[i] != '\n' by {}
    lemma_absent_byte(digits, '\n');
    reveal_strlit("\r\ncontent-type: ");
    reveal_strlit("\r\ncontent-length: ");
    reveal_with_fuel(plain, 20);
    lemma_header_bytes(kind);
    lemma_header_bytes(length);
    lemma_last_header_bytes();
    lemma_encode_concat(line + kind + content_type + length + digits, end);
    lemma_encode_concat(line + kind + content_type + length, digits);
    lemma_encode_concat(line + kind + content_type, length);
    lemma_encode_concat(line + kind, content_type);
    lemma_encode_concat(line, kind);
    lemma_head_cut(
        encode_utf8(line),
        encode_utf8(kind),
        encode_utf8(content_type),
        encode_utf8(length),
        encode_utf8(digits),
        encode_utf8(end),
        body,
    );
    let response = response_bytes(status, content_type, body);
    assert(response.skip(response.len() - body.len()) =~= body);
}

/// Whether `text` writes `n` in decimal digits, without a leading zero.
pub open spec fn writes_number(text: Seq<char>, n: nat) -> bool {
    &&& text.len() > 0
    &&& forall|i: int| 0 <= i < text.len() ==> 48 <= #[trigger] text[i] as int <= 57
    &&& decimal_value(text) == n
    &&& n > 0 ==> text[0] != '0'
    &&& n == 0 ==> text.len() == 1
}

/// A response is a status line with the status, the content type as it was given, a
/// content-length with the number of bytes of the body, `connection: close`, a blank line and
/// then the whole body.
pub proof fn responses_tell_status_type_and_length(
    status: u16,
    content_type: Seq<char>,
    body: Seq<u8>,
)
    ensures
        exists|code: Seq<char>, length: Seq<char>|
            {
                &&& writes_number(code, status as nat)
                &&& writes_number(length, body.len())
                &&& response_bytes(status, content_type, body) == #[trigger] encode_utf8(
                    "HTTP/1.1 "@ + code + " "@ + reason_phrase(status) + "\r\ncontent-type: "@
                        + content_type + "\r\ncontent-length: "@ + length
                        + "\r\nconnection: close\r\n\r\n"@,
                ) + body
            },
{
    decimal_has_no_leading_zero(status as nat);
    decimal_has_no_leading_zero(body.len());
    let (code, length) = (decimal(status as nat), decimal(body.len()));
    assert(writes_number(code, status as nat));
    assert(writes_number(length, body.len()));
    assert(response_bytes(status, content_type, body) == encode_utf8(
        "HTTP/1.1 "@ + code + " "@ + reason_phrase(status) + "\r\ncontent-type: "@ + content_type
            + "\r\ncontent-length: "@ + length + "\r\nconnection: close\r\n\r\n"@,
    ) + body);
}

/// Each status that the service knows has its own reason phrase, and all others have "OK".
pub proof fn reason_phrases_are_the_known_ones(status: u16)
    ensures
        reason_phrase(202) == "Accepted"@,
        reason_phrase(400) == "Bad Request"@,
        reason_phrase(401) == "Unauthorized"@,
        reason_phrase(404) == "Not Found"@,
        reason_phrase(409) == "Conflict"@,
        reason_phrase(413) == "Payload Too Large"@,
        reason_phrase(431) == "Request Header Fields Too Large"@,
        reason_phrase(500) == "Internal Server Error"@,
        reason_phrase(502) == "Bad Gateway"@,
        reason_phrase(503) == "Service Unavailable"@,
        reason_phrase(504) == "Gateway Timeout"@,
        status < 202 || 202 < status < 400 || 401 < status < 404 || 404 < status < 409 || 409
            < status < 413 || 413 < status < 431 || 431 < status < 500 || status == 501 || 504
            < status ==> reason_phrase(status) == "OK"@,
{
}

/// A JSON response has the JSON content type and the whole text of the document as its body.
pub proof fn documents_are_sent_whole(status: u16, document: JsonTree)
    ensures
        ({
            let body = encode_utf8(json_text(document));
            json_response(status, document) == response_bytes(status, "application/json"@, body)
                && json_response(status, document).skip(
                json_response(status, document).len() - body.len(),
            ) == body
        }),
{
    let body = encode_utf8(json_text(document));
    let response = json_response(status, document);
    assert(response.skip(response.len() - body.len()) =~= body);
}

/// An error document has the error and nothing else, or the error and the detail and nothing
/// else.
pub proof fn error_documents_hold_their_texts(error: Seq<char>, detail: Seq<char>)
    ensures
        error_tree(error) matches JsonTree::Object(m) && m.dom() == set!["error"@] && m["error"@]
            == JsonTree::Text(error),
        error_detail_tree(error, detail) matches JsonTree::Object(m) && m.dom() == set![
            "error"@,
            "detail"@,
        ] && m["error"@] == JsonTree::Text(error) && m["detail"@] == JsonTree::Text(detail),
{
    reveal_strlit("error");
    reveal_strlit("detail");
    assert("error"@.len() != "detail"@.len());
    assert(error_tree(error)->Object_0.dom() =~= set!["error"@]);
    assert(error_detail_tree(error, detail)->Object_0.dom() =~= set!["error"@, "detail"@]);
}

/// The worker's answer reaches the client with its status, its content type and its whole body.
/// If there is none, the client gets status 503 with the whole text of the failure.
pub proof fn worker_answers_are_passed_on(
    status: u16,
    content_type: String,
    body: Vec<u8>,
    failure: WorkerError,
)
    ensures
        proxy_response(Ok(WorkerResponse { http_status: status, content_type, body }))
            == response_bytes(status, content_type@, body@),
        exists|document: JsonTree|
            {
                &&& proxy_response(Err(failure)) == #[trigger] json_response(503, document)
                &&& document matches JsonTree::Object(m) && m.dom() == set!["error"@, "detail"@]
                    && m["error"@] == JsonTree::Text("worker_unavailable"@) && m["detail"@]
                    == JsonTree::Text(failure.message@)
            },
{
    let document = error_detail_tree("worker_unavailable"@, failure.message@);
    error_documents_hold_their_texts("worker_unavailable"@, failure.message@);
    assert(proxy_response(Err(failure)) == json_response(503, document));
}

/// A health report has the status, the version, the mode, the snapshot of the worker as it was
/// given and what the worker itself answered, and nothing else.
pub proof fn health_reports_hold_everything(
    snapshot: JsonTree,
    ipc: Option<Result<WorkerResponse, WorkerError>>,
)
    ensures
        health_tree(snapshot, ipc) matches JsonTree::Object(m) && m.dom() == set![
            "status"@,
            "version"@,
            "mode"@,
            "worker"@,
            "worker_ipc"@,
        ] && m["status"@] == JsonTree::Text("ok"@) && m["version"@] == JsonTree::Text("0.0.2"@)
            && m["mode"@] == JsonTree::Text("rust-supervisor"@) && m["worker"@] == snapshot
            && m["worker_ipc"@] == worker_ipc_tree(ipc),
{
    reveal_strlit("status");
    reveal_strlit("version");
    reveal_strlit("mode");
    reveal_strlit("worker");
    reveal_strlit("worker_ipc");
    assert("status"@[0] == 's' && "version"@[0] == 'v' && "mode"@[0] == 'm' && "worker"@[0] == 'w'
        && "worker_ipc"@[0] == 'w');
    assert("worker"@.len() != "worker_ipc"@.len());
    assert(health_tree(snapshot, ipc)->Object_0.dom() =~= set![
        "status"@,
        "version"@,
        "mode"@,
        "worker"@,
        "worker_ipc"@,
    ]);
}

/// A health report says of a worker that was not asked nothing, of one that answered that it is
/// reachable and its whole status, and of one that did not the whole text of the failure.
pub proof fn health_reports_tell_the_workers_answer(answer: WorkerResponse, failure: WorkerError)
    ensures
        worker_ipc_tree(None) == JsonTree::Null,
        worker_ipc_tree(Some(Ok(answer))) matches JsonTree::Object(m) && m.dom() == set![
            "reachable"@,
            "status"@,
        ] && m["reachable"@] == JsonTree::Bool(true) && (m["status"@] matches JsonTree::Number(
            code,
        ) && writes_number(code, answer.http_status as nat)),
        worker_ipc_tree(Some(Err(failure))) matches JsonTree::Object(m) && m.dom() == set![
            "reachable"@,
            "status"@,
            "error"@,
        ] && m["reachable"@] == JsonTree::Bool(false) && (m["status"@] matches JsonTree::Number(
            code,
        ) && writes_number(code, 0)) && m["error"@] == JsonTree::Text(failure.message@),
{
    reveal_strlit("reachable");
    reveal_strlit("status");
    reveal_strlit("error");
    assert("reachable"@.len() != "status"@.len());
    assert("reachable"@.len() != "error"@.len());
    assert("status"@.len() != "error"@.len());
    decimal_has_no_leading_zero(answer.http_status as nat);
    decimal_has_no_leading_zero(0);
    assert(worker_ipc_tree(Some(Ok(answer)))->Object_0.dom() =~= set!["reachable"@, "status"@]);
    assert(worker_ipc_tree(Some(Err(failure)))->Object_0.dom() =~= set![
        "reachable"@,
        "status"@,
        "error"@,
    ]);
}

} // verus!
