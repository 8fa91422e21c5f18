//! HTTP requests: from the bytes of the head to what is to be done.
use serde_json::Value;
use vstd::hash_map::StringHashMap;
use vstd::prelude::*;
use vstd::utf8::{
    decode_utf8, encode_utf8, encode_utf8_decode_utf8, encode_utf8_valid_utf8, valid_utf8,
};

use crate::bytes::push_all;
use crate::error::{IoError, IoErrorKind};
use crate::head::{http_body_too_large, HeadModel, HttpHead, MAX_HTTP_BODY_BYTES};
use crate::json::{
    json_document, json_null, json_string, json_tree, parse_json_body, JsonObject, JsonTree,
};
use crate::query::{
    after_first, before_first, lemma_first_cut, lemma_first_index, parse_query, query_parameters,
    split_target, text_map,
};
use crate::response::{
    error_body, error_detail_body, error_detail_tree, error_documents_hold_their_texts, error_tree,
    json_response, write_json,
};
use crate::text::{
    char_vec, decimal_value, eq_ignore_ascii_case, is_decimal, numbers_are_digits, parse_decimal,
    same_ignoring_case, same_text, string_from_utf8, trim, trimmed, trimming_leaves_the_text,
    white_space, written_decimal,
};

verus! {

/// How many header fields a request may have.
pub const MAX_HTTP_HEADERS: usize = 64;

/// A header field.
#[derive(Debug)]
pub struct Header {
    pub name: String,
    pub value: Vec<u8>,
}

/// A request head, taken apart.
#[derive(Debug)]
pub struct ParsedRequest {
    /// Where the body starts.
    pub head_len: usize,
    pub method: Option<String>,
    pub path: Option<String>,
    pub headers: Vec<Header>,
}

/// A request head, taken apart, as a value.
pub struct RequestModel {
    pub head_len: nat,
    pub method: Option<Seq<char>>,
    pub path: Option<Seq<char>>,
    pub headers: Seq<(Seq<char>, Seq<u8>)>,
}

/// The text in an optional string.
pub open spec fn optional_text(s: Option<String>) -> Option<Seq<char>> {
    match s {
        Some(s) => Some(s@),
        None => None,
    }
}

/// The names and values of header fields.
pub open spec fn header_fields(headers: Seq<Header>) -> Seq<(Seq<char>, Seq<u8>)> {
    Seq::new(headers.len(), |i: int| (headers[i].name@, headers[i].value@))
}

impl View for ParsedRequest {
    type V = RequestModel;

    open spec fn view(&self) -> RequestModel {
        RequestModel {
            head_len: self.head_len as nat,
            method: optional_text(self.method),
            path: optional_text(self.path),
            headers: header_fields(self.headers@),
        }
    }
}

/// What `httparse::Request::parse` makes of `head` with room for `max_headers` fields: the
/// request, `None` if the head is not complete, or the text of the error.
pub uninterp spec fn http_request(head: Seq<u8>, max_headers: nat) -> Result<
    Option<RequestModel>,
    Seq<char>,
>;

/// Whether `head` comes out the same whatever bytes follow.
pub open spec fn tail_ignored(head: Seq<u8>, max_headers: nat) -> bool {
    forall|tail: Seq<u8>|
        #[trigger]
        http_request(head + tail, max_headers) == http_request(head, max_headers)
}

/// `httparse::Request::parse`.
///
/// Trusted: what it returns depends on the bytes and the room for header fields alone. The body
/// of a complete request starts within the bytes or at their end. The bytes are read from front
/// to back up to the end of the head or the first fault, so a complete request and an error come
/// out the same whatever bytes follow. The room is kept small because it is allocated before the
/// call.
#[verifier::external_body]
fn parse_request(head: &[u8], max_headers: usize) -> (r: Result<Option<ParsedRequest>, String>)
    requires
        max_headers <= MAX_HTTP_HEADERS,
    ensures
        match r {
            Ok(Some(parsed)) => http_request(head@, max_headers as nat) == Ok::<
                Option<RequestModel>,
                Seq<char>,
            >(Some(parsed@)) && parsed.head_len <= head@.len() && tail_ignored(
                head@,
                max_headers as nat,
            ),
            Ok(None) => http_request(head@, max_headers as nat) == Ok::<
                Option<RequestModel>,
                Seq<char>,
            >(None),
            Err(message) => http_request(head@, max_headers as nat) == Err::<
                Option<RequestModel>,
                Seq<char>,
            >(message@) && tail_ignored(head@, max_headers as nat),
        },
{
    let mut fields = vec![httparse::EMPTY_HEADER; max_headers];
    let mut req = httparse::Request::new(&mut fields);
    match req.parse(head).map_err(|e| e.to_string())? {
        httparse::Status::Complete(head_len) => Ok(Some(ParsedRequest {
            head_len,
            method: req.method.map(|m| m.to_string()),
            path: req.path.map(|p| p.to_string()),
            headers: req.headers.iter().map(|h| Header {
                name: h.name.to_string(),
                value: h.value.to_vec(),
            }).collect(),
        })),
        httparse::Status::Partial => Ok(None),
    }
}

/// Whether it is decided what `head` holds: more bytes change nothing about a complete request
/// or an error.
pub open spec fn settled(head: Seq<u8>) -> bool {
    match http_request(head, MAX_HTTP_HEADERS as nat) {
        Ok(Some(request)) => request.head_len <= head.len() && tail_ignored(
            head,
            MAX_HTTP_HEADERS as nat,
        ),
        Ok(None) => true,
        Err(_) => tail_ignored(head, MAX_HTTP_HEADERS as nat),
    }
}

/// The length that the value of a Content-Length field declares: a decimal number, however
/// large, with white space around it if need be. Anything else declares no body.
pub open spec fn length_of_value(value: Seq<u8>) -> nat {
    if valid_utf8(value) {
        match written_decimal(trimmed(decode_utf8(value))) {
            Some(n) => n,
            None => 0,
        }
    } else {
        0
    }
}

/// The body length that a request declares: what its last Content-Length field says, zero
/// without one.
pub open spec fn declared_length(headers: Seq<(Seq<char>, Seq<u8>)>) -> nat
    decreases headers.len(),
{
    if headers.len() == 0 {
        0
    } else if same_ignoring_case(headers.last().0, "content-length"@) {
        length_of_value(headers.last().1)
    } else {
        declared_length(headers.drop_last())
    }
}

/// `n`, or the largest `usize` if `n` is larger.
pub open spec fn saturated(n: nat) -> nat {
    if n <= usize::MAX {
        n
    } else {
        usize::MAX as nat
    }
}

/// The length that the value of a Content-Length field declares; the largest `usize` stands for
/// all lengths above it.
fn value_length(value: &Vec<u8>) -> (n: usize)
    ensures
        n == saturated(length_of_value(value@)),
{
    let mut copy: Vec<u8> = Vec::new();
    push_all(&mut copy, value.as_slice());
    assert(copy@ =~= value@);
    match string_from_utf8(copy) {
        Some(text) => {
            let chars: Vec<char> = char_vec(text.as_str());
            let number: &[char] = trim(chars.as_slice());
            match parse_decimal(number, usize::MAX) {
                Some(n) => n,
                None => if is_decimal(number) {
                    usize::MAX
                } else {
                    0
                },
            }
        },
        None => 0,
    }
}

/// The body length that a request declares; the largest `usize` stands for all lengths above
/// it, so that none of them passes for a small one.
pub fn content_length(headers: &Vec<Header>) -> (n: usize)
    ensures
        n == saturated(declared_length(header_fields(headers@))),
{
    let ghost fields = header_fields(headers@);
    let mut n: usize = 0;
    let mut i: usize = 0;
    while i < headers.len()
        invariant
            i <= headers@.len(),
            fields == header_fields(headers@),
            n == saturated(declared_length(fields.take(i as int))),
        decreases headers@.len() - i,
    {
        proof {
            assert(fields.take(i + 1).drop_last() =~= fields.take(i as int));
            assert(fields.take(i + 1).last() == fields[i as int]);
        }
        if eq_ignore_ascii_case(headers[i].name.as_str(), "content-length") {
            n = value_length(&headers[i].value);
        }
        i = i + 1;
    }
    assert(fields.take(i as int) =~= fields);
    n
}

/// A request whose body may not have arrived in full.
#[derive(Debug)]
pub struct Request {
    pub method: String,
    pub target: String,
    /// The part of the body that arrived with the head.
    pub body: Vec<u8>,
    /// How many bytes of the body are still to come.
    pub missing: usize,
}

/// What is to be done when reading the head is over.
#[derive(Debug)]
pub enum HeadAction {
    /// Close the connection.
    Close,
    /// Close the connection and report the error.
    Fail(IoError),
    /// Send these bytes and close the connection.
    Reply(Vec<u8>),
    /// Read the rest of the body.
    Body(Request),
}

/// What is to be done when reading the head is over, as a value.
pub enum HeadOutcome {
    Close,
    Fail(IoErrorKind, Seq<char>),
    Reply(Seq<u8>),
    Body { method: Seq<char>, target: Seq<char>, body: Seq<u8>, missing: nat },
}

impl View for HeadAction {
    type V = HeadOutcome;

    open spec fn view(&self) -> HeadOutcome {
        match self {
            HeadAction::Close => HeadOutcome::Close,
            HeadAction::Fail(e) => HeadOutcome::Fail(e.kind, e.message@),
            HeadAction::Reply(bytes) => HeadOutcome::Reply(bytes@),
            HeadAction::Body(r) => HeadOutcome::Body {
                method: r.method@,
                target: r.target@,
                body: r.body@,
                missing: r.missing as nat,
            },
        }
    }
}

/// The bytes of `head` after its first `head_len` bytes.
pub open spec fn after_head_len(head: Seq<u8>, head_len: nat) -> Seq<u8> {
    if head_len <= head.len() {
        head.skip(head_len as int)
    } else {
        Seq::empty()
    }
}

/// The part of a body of `length` bytes that is in `head` after its first `head_len` bytes.
pub open spec fn arrived_body(head: Seq<u8>, head_len: nat, length: nat) -> Seq<u8> {
    let rest = after_head_len(head, head_len);
    if rest.len() > length {
        rest.take(length as int)
    } else {
        rest
    }
}

/// What is to be done with the request that `head` holds: a body past the cap is refused
/// before it is read, otherwise the bytes after the head count toward the body.
pub open spec fn admission(head: Seq<u8>, request: RequestModel) -> HeadOutcome {
    let length = declared_length(request.headers);
    let body = arrived_body(head, request.head_len, length);
    if length > MAX_HTTP_BODY_BYTES {
        HeadOutcome::Reply(json_response(413, error_tree("payload_too_large"@)))
    } else {
        HeadOutcome::Body {
            method: request.method.unwrap_or(""@),
            target: request.path.unwrap_or("/"@),
            body,
            missing: (length - body.len()) as nat,
        }
    }
}

/// What is to be done when reading the head is over.
pub open spec fn head_outcome(head: HeadModel) -> HeadOutcome {
    match head {
        HeadModel::TooLarge => HeadOutcome::Reply(
            json_response(431, error_tree("headers_too_large"@)),
        ),
        HeadModel::Read(bytes) => match http_request(bytes, MAX_HTTP_HEADERS as nat) {
            Err(message) => HeadOutcome::Fail(IoErrorKind::InvalidData, message),
            Ok(None) => HeadOutcome::Reply(json_response(400, error_tree("bad_request"@))),
            Ok(Some(request)) => admission(bytes, request),
        },
        _ => HeadOutcome::Close,
    }
}

/// The bytes that report an error.
fn error_reply(status: u16, error: &str) -> (out: Vec<u8>)
    ensures
        out@ == json_response(status, error_tree(error@)),
{
    let mut out: Vec<u8> = Vec::new();
    write_json(&mut out, status, &error_body(error));
    assert(out@ =~= json_response(status, error_tree(error@)));
    out
}

/// The bytes that report an error with a detail.
fn error_detail_reply(status: u16, error: &str, detail: &str) -> (out: Vec<u8>)
    ensures
        out@ == json_response(status, error_detail_tree(error@, detail@)),
{
    let mut out: Vec<u8> = Vec::new();
    write_json(&mut out, status, &error_detail_body(error, detail));
    assert(out@ =~= json_response(status, error_detail_tree(error@, detail@)));
    out
}

/// Decides on the request that `head` holds.
pub fn admit_request(head: Vec<u8>, parsed: ParsedRequest) -> (r: HeadAction)
    requires
        parsed.head_len <= head@.len(),
    ensures
        r@ == admission(head@, parsed@),
{
    let length: usize = content_length(&parsed.headers);
    if http_body_too_large(length) {
        return HeadAction::Reply(error_reply(413, "payload_too_large"));
    }
    let method: String = match parsed.method {
        Some(method) => method,
        None => "".to_owned(),
    };
    let target: String = match parsed.path {
        Some(path) => path,
        None => "/".to_owned(),
    };
    let ghost bytes = head@;
    let mut head = head;
    let mut body: Vec<u8> = head.split_off(parsed.head_len);
    body.truncate(length);
    assert(body@ =~= arrived_body(bytes, parsed.head_len as nat, length as nat));
    let missing: usize = length - body.len();
    HeadAction::Body(Request { method, target, body, missing })
}

/// Decides what to do when reading the head is over.
pub fn handle_http_head(head: HttpHead) -> (r: HeadAction)
    ensures
        r@ == head_outcome(head@),
        head@ matches HeadModel::Read(bytes) ==> settled(bytes),
{
    match head {
        HttpHead::Eof => HeadAction::Close,
        HttpHead::TooLarge => HeadAction::Reply(error_reply(431, "headers_too_large")),
        HttpHead::Read(bytes) => match parse_request(bytes.as_slice(), MAX_HTTP_HEADERS) {
            Err(message) => HeadAction::Fail(
                IoError { kind: IoErrorKind::InvalidData, message },
            ),
            Ok(None) => HeadAction::Reply(error_reply(400, "bad_request")),
            Ok(Some(parsed)) => admit_request(bytes, parsed),
        },
    }
}

/// The services that requests can ask for.
#[derive(Clone, Copy, Debug, PartialEq, Eq, Structural)]
pub enum Route {
    Health,
    Me,
    Login,
    LoginTwoFactor,
    Logout,
    Playback,
    /// Decryption is not offered over HTTP.
    Decrypt,
    Unknown,
}

/// What the worker can be asked for.
#[derive(Clone, Copy, Debug, PartialEq, Eq, Structural)]
pub enum WorkerOp {
    Me,
    Login,
    LoginTwoFactor,
    Logout,
    Playback,
}

/// The service that a method and a path ask for.
pub open spec fn route_of(method: Seq<char>, path: Seq<char>) -> Route {
    if method == "GET"@ && path == "/health"@ {
        Route::Health
    } else if method == "GET"@ && path == "/me"@ {
        Route::Me
    } else if method == "POST"@ && path == "/login"@ {
        Route::Login
    } else if method == "POST"@ && path == "/login/2fa"@ {
        Route::LoginTwoFactor
    } else if method == "DELETE"@ && path == "/login"@ {
        Route::Logout
    } else if method == "GET"@ && path == "/playback"@ {
        Route::Playback
    } else if method == "POST"@ && path == "/decrypt"@ {
        Route::Decrypt
    } else {
        Route::Unknown
    }
}

/// The service that a method and a path ask for.
pub fn route(method: &str, path: &str) -> (r: Route)
    ensures
        r == route_of(method@, path@),
{
    let get: bool = same_text(method, "GET");
    let post: bool = same_text(method, "POST");
    let delete: bool = same_text(method, "DELETE");
    if get && same_text(path, "/health") {
        Route::Health
    } else if get && same_text(path, "/me") {
        Route::Me
    } else if post && same_text(path, "/login") {
        Route::Login
    } else if post && same_text(path, "/login/2fa") {
        Route::LoginTwoFactor
    } else if delete && same_text(path, "/login") {
        Route::Logout
    } else if get && same_text(path, "/playback") {
        Route::Playback
    } else if post && same_text(path, "/decrypt") {
        Route::Decrypt
    } else {
        Route::Unknown
    }
}

/// What is to be done for a request.
#[derive(Debug)]
pub enum RequestAction {
    /// Send these bytes and close the connection.
    Reply(Vec<u8>),
    /// Send a health report; the worker itself is asked only if `deep` is set.
    Health { deep: bool },
    /// Ask the worker and pass its answer on.
    Ask { op: WorkerOp, payload: Value },
}

/// What is to be done for a request, as a value.
pub enum RequestOutcome {
    Reply(Seq<u8>),
    Health(bool),
    Ask(WorkerOp, JsonTree),
}

impl View for RequestAction {
    type V = RequestOutcome;

    open spec fn view(&self) -> RequestOutcome {
        match self {
            RequestAction::Reply(bytes) => RequestOutcome::Reply(bytes@),
            RequestAction::Health { deep } => RequestOutcome::Health(*deep),
            RequestAction::Ask { op, payload } => RequestOutcome::Ask(*op, json_tree(*payload)),
        }
    }
}

/// Whether the parameters of a health request ask for the worker's own answer.
pub open spec fn wants_deep(params: Map<Seq<char>, Seq<char>>) -> bool {
    &&& params.contains_key("deep"@)
    &&& params["deep"@] == "1"@ || params["deep"@] == "true"@ || params["deep"@] == "yes"@
}

/// The title that the parameters of a playback request name, under either spelling; nothing if
/// there is none.
pub open spec fn adam_id_of(params: Map<Seq<char>, Seq<char>>) -> Seq<char> {
    if params.contains_key("adam_id"@) {
        params["adam_id"@]
    } else if params.contains_key("adamId"@) {
        params["adamId"@]
    } else {
        Seq::empty()
    }
}

/// The document that asks the worker for a playback.
pub open spec fn playback_tree(adam_id: Seq<char>) -> JsonTree {
    JsonTree::Object(Map::empty().insert("adam_id"@, JsonTree::Text(adam_id)))
}

/// What is to be done for a request whose body goes to the worker: a body that is not JSON is
/// refused.
pub open spec fn document_outcome(
    op: WorkerOp,
    document: Result<JsonTree, Seq<char>>,
) -> RequestOutcome {
    match document {
        Ok(tree) => RequestOutcome::Ask(op, tree),
        Err(message) => RequestOutcome::Reply(
            json_response(400, error_detail_tree("invalid_json"@, message)),
        ),
    }
}

/// What is to be done for a request.
pub open spec fn request_outcome(
    method: Seq<char>,
    target: Seq<char>,
    body: Seq<u8>,
) -> RequestOutcome {
    let params = query_parameters(after_first(target, '?'));
    match route_of(method, before_first(target, '?')) {
        Route::Health => RequestOutcome::Health(wants_deep(params)),
        Route::Me => RequestOutcome::Ask(WorkerOp::Me, JsonTree::Null),
        Route::Login => document_outcome(WorkerOp::Login, json_document(body)),
        Route::LoginTwoFactor => document_outcome(WorkerOp::LoginTwoFactor, json_document(body)),
        Route::Logout => RequestOutcome::Ask(WorkerOp::Logout, JsonTree::Null),
        Route::Playback => RequestOutcome::Ask(
            WorkerOp::Playback,
            playback_tree(adam_id_of(params)),
        ),
        Route::Decrypt => RequestOutcome::Reply(
            json_response(
                404,
                error_detail_tree(
                    "not_found"@,
                    "decrypt is available on the raw TCP port, not HTTP"@,
                ),
            ),
        ),
        Route::Unknown => RequestOutcome::Reply(json_response(404, error_tree("not_found"@))),
    }
}

/// Whether the parameters of a health request ask for the worker's own answer.
fn deep_requested(params: &StringHashMap<String>) -> (r: bool)
    ensures
        r == wants_deep(text_map(params@)),
{
    match params.get("deep") {
        Some(v) => same_text(v.as_str(), "1") || same_text(v.as_str(), "true") || same_text(
            v.as_str(),
            "yes",
        ),
        None => false,
    }
}

/// The title that the parameters of a playback request name.
fn requested_adam_id(params: &StringHashMap<String>) -> (r: String)
    ensures
        r@ == adam_id_of(text_map(params@)),
{
    match params.get("adam_id") {
        Some(v) => v.clone(),
        None => match params.get("adamId") {
            Some(v) => v.clone(),
            None => String::new(),
        },
    }
}

/// Decides on a request whose body goes to the worker, once the body was read as JSON.
pub fn forward_document(op: WorkerOp, document: Result<Value, IoError>) -> (r: RequestAction)
    ensures
        r@ == document_outcome(
            op,
            match document {
                Ok(v) => Ok(json_tree(v)),
                Err(e) => Err(e.message@),
            },
        ),
{
    match document {
        Ok(payload) => RequestAction::Ask { op, payload },
        Err(e) => RequestAction::Reply(
            error_detail_reply(400, "invalid_json", e.message.as_str()),
        ),
    }
}

/// Decides what to do for a request whose body, `request.body` and then `rest`, has arrived.
pub fn handle_http_request(request: Request, rest: &[u8]) -> (r: RequestAction)
    ensures
        r@ == request_outcome(request.method@, request.target@, request.body@ + rest@),
{
    let Request { method, target, body, missing: _ } = request;
    let mut body = body;
    push_all(&mut body, rest);
    let (path, query): (String, String) = split_target(target.as_str());
    match route(method.as_str(), path.as_str()) {
        Route::Health => RequestAction::Health {
            deep: deep_requested(&parse_query(query.as_str())),
        },
        Route::Me => RequestAction::Ask { op: WorkerOp::Me, payload: json_null() },
        Route::Login => forward_document(WorkerOp::Login, parse_json_body(body.as_slice())),
        Route::LoginTwoFactor => forward_document(
            WorkerOp::LoginTwoFactor,
            parse_json_body(body.as_slice()),
        ),
        Route::Logout => RequestAction::Ask { op: WorkerOp::Logout, payload: json_null() },
        Route::Playback => {
            let adam_id: String = requested_adam_id(&parse_query(query.as_str()));
            let payload: Value = JsonObject::new().with(
                "adam_id",
                json_string(adam_id.as_str()),
            ).finish();
            RequestAction::Ask { op: WorkerOp::Playback, payload }
        },
        Route::Decrypt => RequestAction::Reply(
            error_detail_reply(
                404,
                "not_found",
                "decrypt is available on the raw TCP port, not HTTP",
            ),
        ),
        Route::Unknown => RequestAction::Reply(error_reply(404, "not_found")),
    }
}

/// A body comes out the same wherever the stream was cut: the bytes after the head in what was
/// read first, and then as many bytes as are missing, are the declared bytes after the head.
pub proof fn body_ignores_the_cut(stream: Seq<u8>, head_len: nat, length: nat, cut: nat)
    requires
        head_len <= cut <= stream.len(),
        head_len + length <= stream.len(),
    ensures
        ({
            let arrived = arrived_body(stream.take(cut as int), head_len, length);
            let missing = length - arrived.len();
            &&& 0 <= missing
            &&& missing > 0 ==> cut + missing <= stream.len()
            &&& arrived + stream.subrange(
                cut as int,
                if missing > 0 {
                    cut + missing
                } else {
                    cut as int
                },
            ) == stream.subrange(head_len as int, (head_len + length) as int)
        }),
{
    let arrived = arrived_body(stream.take(cut as int), head_len, length);
    let missing = length - arrived.len();
    let rest = stream.subrange(
        cut as int,
        if missing > 0 {
            cut + missing
        } else {
            cut as int
        },
    );
    assert(arrived + rest =~= stream.subrange(head_len as int, (head_len + length) as int));
}

/// Whether `c` is not in `s` from `from` on.
spec fn lacks(s: Seq<char>, c: char, from: int) -> bool
    decreases s.len() - from,
{
    from >= s.len() || (s[from] != c && lacks(s, c, from + 1))
}

/// What `lacks` says of each character.
proof fn lemma_lacks(s: Seq<char>, c: char, from: int)
    requires
        0 <= from,
        lacks(s, c, from),
    ensures
        forall|i: int| from <= i < s.len() ==> #[trigger] s[i] != c,
    decreases s.len() - from,
{
    if from < s.len() {
        lemma_lacks(s, c, from + 1);
    }
}

/// The path and the query of a target that is put together from both.
proof fn lemma_target(path: Seq<char>, tail: Seq<char>)
    requires
        !path.contains('?'),
        tail.len() > 0 ==> tail[0] == '?',
    ensures
        before_first(path + tail, '?') == path,
        tail.len() > 0 ==> after_first(path + tail, '?') == tail.skip(1),
        tail.len() == 0 ==> after_first(path + tail, '?') == Seq::<char>::empty(),
{
    if tail.len() > 0 {
        assert(path + tail =~= path + seq!['?'] + tail.skip(1));
        lemma_first_cut(path + tail, path, '?', tail.skip(1));
    } else {
        assert(path + tail =~= path);
        lemma_first_index(path, '?');
        assert(path.take(path.len() as int) =~= path);
    }
}

/// The known methods and paths differ from each other, and no path has a question mark.
proof fn lemma_known_targets(tail: Seq<char>)
    requires
        tail.len() > 0 ==> tail[0] == '?',
    ensures
        "GET"@.len() == 3 && "POST"@.len() == 4 && "DELETE"@.len() == 6,
        "/health"@.len() == 7 && "/me"@.len() == 3 && "/login"@.len() == 6 && "/login/2fa"@.len()
            == 10 && "/playback"@.len() == 9 && "/decrypt"@.len() == 8,
        before_first("/health"@ + tail, '?') == "/health"@,
        before_first("/me"@ + tail, '?') == "/me"@,
        before_first("/login"@ + tail, '?') == "/login"@,
        before_first("/login/2fa"@ + tail, '?') == "/login/2fa"@,
        before_first("/playback"@ + tail, '?') == "/playback"@,
        before_first("/decrypt"@ + tail, '?') == "/decrypt"@,
        after_first("/health"@ + tail, '?') == query_of_tail(tail),
        after_first("/playback"@ + tail, '?') == query_of_tail(tail),
{
    reveal_strlit("GET");
    reveal_strlit("POST");
    reveal_strlit("DELETE");
    reveal_strlit("/health");
    reveal_strlit("/me");
    reveal_strlit("/login");
    reveal_strlit("/login/2fa");
    reveal_strlit("/playback");
    reveal_strlit("/decrypt");
    reveal_with_fuel(lacks, 12);
    lemma_lacks("/health"@, '?', 0);
    lemma_lacks("/me"@, '?', 0);
    lemma_lacks("/login"@, '?', 0);
    lemma_lacks("/login/2fa"@, '?', 0);
    lemma_lacks("/playback"@, '?', 0);
    lemma_lacks("/decrypt"@, '?', 0);
    lemma_target("/health"@, tail);
    lemma_target("/me"@, tail);
    lemma_target("/login"@, tail);
    lemma_target("/login/2fa"@, tail);
    lemma_target("/playback"@, tail);
    lemma_target("/decrypt"@, tail);
}

/// The query in what follows the path of a target: all after the question mark.
pub open spec fn query_of_tail(tail: Seq<char>) -> Seq<char> {
    if tail.len() > 0 {
        tail.skip(1)
    } else {
        Seq::empty()
    }
}

/// Whether `outcome` is the reply of `status` that reports `error` with `detail`.
pub open spec fn reports(
    outcome: RequestOutcome,
    status: u16,
    error: Seq<char>,
    detail: Seq<char>,
) -> bool {
    exists|document: JsonTree|
        {
            &&& outcome == RequestOutcome::Reply(#[trigger] json_response(status, document))
            &&& document matches JsonTree::Object(m) && m.dom() == set!["error"@, "detail"@]
                && m["error"@] == JsonTree::Text(error) && m["detail"@] == JsonTree::Text(detail)
        }
}

/// A login document reaches the worker whole, whatever its length and whatever query follows the
/// path, and so does a second factor; a body that is no document is answered with the whole text
/// of the error.
pub proof fn logins_reach_the_worker_whole(tail: Seq<char>, body: Seq<u8>)
    requires
        tail.len() > 0 ==> tail[0] == '?',
    ensures
        json_document(body) matches Ok(document) ==> request_outcome(
            "POST"@,
            "/login"@ + tail,
            body,
        ) == RequestOutcome::Ask(WorkerOp::Login, document) && request_outcome(
            "POST"@,
            "/login/2fa"@ + tail,
            body,
        ) == RequestOutcome::Ask(WorkerOp::LoginTwoFactor, document),
        json_document(body) matches Err(message) ==> reports(
            request_outcome("POST"@, "/login"@ + tail, body),
            400,
            "invalid_json"@,
            message,
        ) && reports(
            request_outcome("POST"@, "/login/2fa"@ + tail, body),
            400,
            "invalid_json"@,
            message,
        ),
{
    lemma_known_targets(tail);
    if let Err(message) = json_document(body) {
        let document = error_detail_tree("invalid_json"@, message);
        error_documents_hold_their_texts("invalid_json"@, message);
        assert(request_outcome("POST"@, "/login"@ + tail, body) == RequestOutcome::Reply(
            json_response(400, document),
        ));
        assert(request_outcome("POST"@, "/login/2fa"@ + tail, body) == RequestOutcome::Reply(
            json_response(400, document),
        ));
    }
}

/// A request for the account and a logout ask the worker with nothing, whatever query and body
/// they come with.
pub proof fn plain_requests_ask_with_nothing(tail: Seq<char>, body: Seq<u8>)
    requires
        tail.len() > 0 ==> tail[0] == '?',
    ensures
        request_outcome("GET"@, "/me"@ + tail, body) == RequestOutcome::Ask(
            WorkerOp::Me,
            JsonTree::Null,
        ),
        request_outcome("DELETE"@, "/login"@ + tail, body) == RequestOutcome::Ask(
            WorkerOp::Logout,
            JsonTree::Null,
        ),
{
    lemma_known_targets(tail);
}

/// A playback request asks the worker for the title that its query names, whole, under
/// `adam_id` or else under `adamId`, and for no title if it names none.
pub proof fn playback_asks_for_the_named_title(tail: Seq<char>, body: Seq<u8>)
    requires
        tail.len() > 0 ==> tail[0] == '?',
    ensures
        ({
            let params = query_parameters(query_of_tail(tail));
            let outcome = request_outcome("GET"@, "/playback"@ + tail, body);
            outcome matches RequestOutcome::Ask(op, JsonTree::Object(m)) && op == WorkerOp::Playback
                && m.dom() == set!["adam_id"@] && (params.contains_key("adam_id"@)
                ==> m["adam_id"@] == JsonTree::Text(params["adam_id"@])) && (!params.contains_key(
                "adam_id"@,
            ) && params.contains_key("adamId"@) ==> m["adam_id"@] == JsonTree::Text(
                params["adamId"@],
            )) && (!params.contains_key("adam_id"@) && !params.contains_key("adamId"@)
                ==> m["adam_id"@] == JsonTree::Text(Seq::empty()))
        }),
{
    lemma_known_targets(tail);
    let params = query_parameters(query_of_tail(tail));
    assert(playback_tree(adam_id_of(params))->Object_0.dom() =~= set!["adam_id"@]);
}

/// A health request is deep exactly if its query sets `deep` to `1`, `true` or `yes`.
pub proof fn health_is_deep_exactly_on_request(tail: Seq<char>, body: Seq<u8>)
    requires
        tail.len() > 0 ==> tail[0] == '?',
    ensures
        ({
            let params = query_parameters(query_of_tail(tail));
            request_outcome("GET"@, "/health"@ + tail, body) == RequestOutcome::Health(
                params.contains_key("deep"@) && (params["deep"@] == "1"@ || params["deep"@]
                    == "true"@ || params["deep"@] == "yes"@),
            )
        }),
{
    lemma_known_targets(tail);
}

/// Decryption over HTTP is refused with a pointer to the other service, and every request that
/// the service does not know is not found; neither reaches the worker.
pub proof fn other_requests_are_not_found(
    method: Seq<char>,
    path: Seq<char>,
    tail: Seq<char>,
    body: Seq<u8>,
)
    requires
        !path.contains('?'),
        tail.len() > 0 ==> tail[0] == '?',
        !(method == "GET"@ && (path == "/health"@ || path == "/me"@ || path == "/playback"@)),
        !(method == "POST"@ && (path == "/login"@ || path == "/login/2fa"@ || path == "/decrypt"@)),
        !(method == "DELETE"@ && path == "/login"@),
    ensures
        reports(
            request_outcome("POST"@, "/decrypt"@ + tail, body),
            404,
            "not_found"@,
            "decrypt is available on the raw TCP port, not HTTP"@,
        ),
        exists|document: JsonTree|
            {
                &&& request_outcome(method, path + tail, body) == RequestOutcome::Reply(
                    #[trigger] json_response(404, document),
                )
                &&& document matches JsonTree::Object(m) && m.dom() == set!["error"@] && m["error"@]
                    == JsonTree::Text("not_found"@)
            },
{
    let detail = "decrypt is available on the raw TCP port, not HTTP"@;
    lemma_known_targets(tail);
    lemma_target(path, tail);
    error_documents_hold_their_texts("not_found"@, detail);
    assert(request_outcome("POST"@, "/decrypt"@ + tail, body) == RequestOutcome::Reply(
        json_response(404, error_detail_tree("not_found"@, detail)),
    ));
    assert(request_outcome(method, path + tail, body) == RequestOutcome::Reply(
        json_response(404, error_tree("not_found"@)),
    ));
}

/// A Content-Length is the number that its digits write, however many there are, with white space
/// around them and a plus sign before them or not.
pub proof fn lengths_are_numbers(before: Seq<char>, digits: Seq<char>, after: Seq<char>)
    requires
        forall|i: int| 0 <= i < before.len() ==> white_space(#[trigger] before[i]),
        forall|i: int| 0 <= i < after.len() ==> white_space(#[trigger] after[i]),
        digits.len() > 0,
        forall|i: int| 0 <= i < digits.len() ==> 48 <= #[trigger] digits[i] as int <= 57,
    ensures
        length_of_value(encode_utf8(before + digits + after)) == decimal_value(digits),
        length_of_value(encode_utf8(before + (seq!['+'] + digits) + after)) == decimal_value(
            digits,
        ),
{
    let signed = seq!['+'] + digits;
    assert(48 <= digits[0] as int <= 57 && 48 <= digits[digits.len() - 1] as int <= 57);
    assert(signed[0] == '+' && signed.last() == digits.last());
    trimming_leaves_the_text(before, digits, after);
    trimming_leaves_the_text(before, signed, after);
    numbers_are_digits(digits);
    encode_utf8_valid_utf8(before + digits + after);
    encode_utf8_decode_utf8(before + digits + after);
    encode_utf8_valid_utf8(before + signed + after);
    encode_utf8_decode_utf8(before + signed + after);
}

/// A Content-Length that is not UTF-8, or that has anything but digits after its sign and between
/// the white space around it, declares nothing.
pub proof fn other_lengths_declare_nothing(
    value: Seq<u8>,
    before: Seq<char>,
    text: Seq<char>,
    after: Seq<char>,
)
    requires
        forall|i: int| 0 <= i < before.len() ==> white_space(#[trigger] before[i]),
        forall|i: int| 0 <= i < after.len() ==> white_space(#[trigger] after[i]),
        text.len() > 0 ==> text[0] != '+' && !white_space(text[0]) && !white_space(text.last()),
        text.len() == 0 || exists|i: int|
            0 <= i < text.len() && !(48 <= #[trigger] text[i] as int <= 57),
    ensures
        !valid_utf8(value) ==> length_of_value(value) == 0,
        length_of_value(encode_utf8(before + text + after)) == 0,
        length_of_value(encode_utf8(before + (seq!['+'] + text) + after)) == 0,
{
    let signed = seq!['+'] + text;
    assert(text.len() > 0 ==> signed.last() == text.last());
    trimming_leaves_the_text(before, text, after);
    trimming_leaves_the_text(before, signed, after);
    numbers_are_digits(text);
    encode_utf8_valid_utf8(before + text + after);
    encode_utf8_decode_utf8(before + text + after);
    encode_utf8_valid_utf8(before + signed + after);
    encode_utf8_decode_utf8(before + signed + after);
}

/// The last Content-Length field counts, in whatever case its name is written; without one no
/// body is declared.
pub proof fn the_last_length_counts(
    before: Seq<(Seq<char>, Seq<u8>)>,
    field: (Seq<char>, Seq<u8>),
    after: Seq<(Seq<char>, Seq<u8>)>,
)
    requires
        forall|i: int|
            0 <= i < after.len() ==> !same_ignoring_case(
                #[trigger] after[i].0,
                "content-length"@,
            ),
    ensures
        same_ignoring_case(field.0, "content-length"@) ==> declared_length(
            before.push(field) + after,
        ) == length_of_value(field.1),
        declared_length(after) == 0,
    decreases after.len(),
{
    if after.len() == 0 {
        assert(before.push(field) + after =~= before.push(field));
    } else {
        let front = after.drop_last();
        assert((before.push(field) + after).drop_last() =~= before.push(field) + front);
        assert(!same_ignoring_case(after[after.len() - 1].0, "content-length"@));
        assert forall|i: int| 0 <= i < front.len() implies !same_ignoring_case(
            #[trigger] front[i].0,
            "content-length"@,
        ) by {
            assert(front[i] == after[i]);
        }
        the_last_length_counts(before, field, front);
    }
}

/// A request that declares at most 64 KiB is admitted with its method, its target and the bytes
/// of its body that are there: those after the head, as many as it declares. The rest of what it
/// declares is missing.
pub proof fn admission_takes_the_declared_body(head: Seq<u8>, request: RequestModel)
    requires
        request.head_len <= head.len(),
        declared_length(request.headers) <= 65536,
    ensures
        admission(head, request) matches HeadOutcome::Body { method, target, body, missing } && (
        request.method matches Some(m) ==> method == m) && (request.method is None ==> method.len()
            == 0) && (request.path matches Some(p) ==> target == p) && (request.path is None
            ==> target == seq!['/']) && body.len() + missing == declared_length(request.headers)
            && request.head_len + body.len() <= head.len() && body == head.subrange(
            request.head_len as int,
            (request.head_len + body.len()) as int,
        ) && (missing > 0 ==> request.head_len + body.len() == head.len()),
{
    reveal_strlit("");
    reveal_strlit("/");
    assert("/"@ =~= seq!['/']);
    let length = declared_length(request.headers);
    let body = arrived_body(head, request.head_len, length);
    assert(body =~= head.subrange(
        request.head_len as int,
        (request.head_len + body.len()) as int,
    ));
}

/// A complete head is decided on by the request that it holds.
pub proof fn complete_heads_are_admitted(head: Seq<u8>, request: RequestModel)
    requires
        http_request(head, 64) == Ok::<Option<RequestModel>, Seq<char>>(Some(request)),
    ensures
        head_outcome(HeadModel::Read(head)) == admission(head, request),
{
}

/// Whether `outcome` is the reply of `status` that reports `error` and nothing else.
pub open spec fn refuses(outcome: HeadOutcome, status: u16, error: Seq<char>) -> bool {
    exists|document: JsonTree|
        {
            &&& outcome == HeadOutcome::Reply(#[trigger] json_response(status, document))
            &&& document matches JsonTree::Object(m) && m.dom() == set!["error"@] && m["error"@]
                == JsonTree::Text(error)
        }
}

/// A head that is too large, incomplete, or declares more than 64 KiB is answered with its own
/// status and error; a broken one fails with the whole text of the fault, and a stream that ended
/// before a head is closed.
pub proof fn bad_heads_are_refused(head: Seq<u8>)
    ensures
        refuses(head_outcome(HeadModel::TooLarge), 431, "headers_too_large"@),
        head_outcome(HeadModel::Eof) == HeadOutcome::Close,
        match http_request(head, 64) {
            Ok(None) => refuses(head_outcome(HeadModel::Read(head)), 400, "bad_request"@),
            Ok(Some(request)) => declared_length(request.headers) > 65536 ==> refuses(
                head_outcome(HeadModel::Read(head)),
                413,
                "payload_too_large"@,
            ),
            Err(message) => head_outcome(HeadModel::Read(head)) == HeadOutcome::Fail(
                IoErrorKind::InvalidData,
                message,
            ),
        },
{
    error_documents_hold_their_texts("headers_too_large"@, Seq::empty());
    error_documents_hold_their_texts("bad_request"@, Seq::empty());
    error_documents_hold_their_texts("payload_too_large"@, Seq::empty());
    assert(head_outcome(HeadModel::TooLarge) == HeadOutcome::Reply(
        json_response(431, error_tree("headers_too_large"@)),
    ));
    match http_request(head, 64) {
        Ok(None) => {
            assert(head_outcome(HeadModel::Read(head)) == HeadOutcome::Reply(
                json_response(400, error_tree("bad_request"@)),
            ));
        },
        Ok(Some(request)) => {
            if declared_length(request.headers) > 65536 {
                assert(head_outcome(HeadModel::Read(head)) == HeadOutcome::Reply(
                    json_response(413, error_tree("payload_too_large"@)),
                ));
            }
        },
        Err(_) => {},
    }
}

/// The models of requests and actions leave nothing out.
pub proof fn request_models_hold_everything(
    parsed: ParsedRequest,
    request: Request,
    bytes: Vec<u8>,
    e: IoError,
    op: WorkerOp,
    payload: Value,
)
    ensures
        parsed@.head_len == parsed.head_len,
        parsed.method matches Some(m) ==> parsed@.method == Some(m@),
        parsed.method is None ==> parsed@.method is None,
        parsed.path matches Some(p) ==> parsed@.path == Some(p@),
        parsed.path is None ==> parsed@.path is None,
        parsed@.headers.len() == parsed.headers@.len(),
        forall|i: int|
            0 <= i < parsed.headers@.len() ==> #[trigger] parsed@.headers[i] == (
                parsed.headers@[i].name@,
                parsed.headers@[i].value@,
            ),
        HeadAction::Close@ == HeadOutcome::Close,
        HeadAction::Fail(e)@ == HeadOutcome::Fail(e.kind, e.message@),
        HeadAction::Reply(bytes)@ == HeadOutcome::Reply(bytes@),
        HeadAction::Body(request)@ == (HeadOutcome::Body {
            method: request.method@,
            target: request.target@,
            body: request.body@,
            missing: request.missing as nat,
        }),
        RequestAction::Reply(bytes)@ == RequestOutcome::Reply(bytes@),
        forall|deep: bool| (#[trigger] RequestAction::Health { deep }@) == RequestOutcome::Health(
            deep,
        ),
        (RequestAction::Ask { op, payload }@) == RequestOutcome::Ask(op, json_tree(payload)),
{
}

/// A length that a machine can hold counts as what it is, and all others as the largest that it
/// can hold.
pub proof fn lengths_saturate(n: nat)
    ensures
        n <= usize::MAX ==> saturated(n) == n,
        n > usize::MAX ==> saturated(n) == usize::MAX,
{
}

/// A document goes to the worker under the operation that was asked for, and an error goes back
/// to the client with its whole text.
pub proof fn documents_are_forwarded_whole(op: WorkerOp, document: JsonTree, message: Seq<char>)
    ensures
        document_outcome(op, Ok(document)) == RequestOutcome::Ask(op, document),
        reports(document_outcome(op, Err(message)), 400, "invalid_json"@, message),
{
    error_documents_hold_their_texts("invalid_json"@, message);
    assert(document_outcome(op, Err(message)) == RequestOutcome::Reply(
        json_response(400, error_detail_tree("invalid_json"@, message)),
    ));
}

/// A service is asked for by exactly one method and path.
pub proof fn routes_are_exact(method: Seq<char>, path: Seq<char>)
    ensures
        ({
            let route = route_of(method, path);
            let (get, post, delete) = (method == "GET"@, method == "POST"@, method == "DELETE"@);
            &&& route == Route::Health <==> get && path == "/health"@
            &&& route == Route::Me <==> get && path == "/me"@
            &&& route == Route::Login <==> post && path == "/login"@
            &&& route == Route::LoginTwoFactor <==> post && path == "/login/2fa"@
            &&& route == Route::Logout <==> delete && path == "/login"@
            &&& route == Route::Playback <==> get && path == "/playback"@
            &&& route == Route::Decrypt <==> post && path == "/decrypt"@
        }),
{
    lemma_known_targets(Seq::empty());
}

} // verus!
