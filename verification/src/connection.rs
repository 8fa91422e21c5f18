//! One HTTP connection, from the first byte of the request to the response.
use serde_json::Value;
use vstd::prelude::*;

use crate::bytes::{concat, parts_follow_one_another, views, views_hold_everything};
use crate::error::{IoError, IoErrorKind, WorkerError};
use crate::head::{
    blank_line, has_blank_line, head_pending, head_run, head_step, read_http_head,
    short_heads_stay_open, HeadModel, HeadProgress, PartialHead, MAX_HTTP_BODY_BYTES,
};
use crate::json::{json_document, json_tree, JsonTree};
use crate::request::{
    admission_takes_the_declared_body, arrived_body, body_ignores_the_cut,
    complete_heads_are_admitted, declared_length, handle_http_head, handle_http_request,
    head_outcome, http_request, logins_reach_the_worker_whole, request_outcome, settled, HeadAction,
    HeadOutcome, Request, RequestAction, RequestModel, RequestOutcome, WorkerOp, MAX_HTTP_HEADERS,
};
use crate::response::{
    error_tree, health_tree, json_response, proxy_json, proxy_response, write_health,
    WorkerResponse,
};

verus! {

/// What a connection waits for.
pub enum HttpState {
    /// More of the request head.
    Head(PartialHead),
    /// The rest of the request body.
    Body(Request),
    /// What a health report needs.
    Health,
    /// The worker's answer.
    Worker,
    /// Nothing: the connection is over.
    Closed,
}

/// What a connection waits for, as a value.
pub enum HttpStateModel {
    Head(Seq<u8>),
    Body { method: Seq<char>, target: Seq<char>, body: Seq<u8>, missing: nat },
    Health,
    Worker,
    Closed,
}

impl View for HttpState {
    type V = HttpStateModel;

    open spec fn view(&self) -> HttpStateModel {
        match self {
            HttpState::Head(partial) => HttpStateModel::Head(partial@),
            HttpState::Body(r) => HttpStateModel::Body {
                method: r.method@,
                target: r.target@,
                body: r.body@,
                missing: r.missing as nat,
            },
            HttpState::Health => HttpStateModel::Health,
            HttpState::Worker => HttpStateModel::Worker,
            HttpState::Closed => HttpStateModel::Closed,
        }
    }
}

/// What happened.
#[derive(Debug)]
pub enum HttpEvent {
    /// One read of the head delivered these bytes; none at the end of the stream.
    Head(Vec<u8>),
    /// The rest of the body arrived.
    Body(Vec<u8>),
    /// What the supervisor knows of the worker, and what the worker answered if it was asked.
    Health { snapshot: Value, ipc: Option<Result<WorkerResponse, WorkerError>> },
    /// The worker answered, or could not be asked.
    Answer(Result<WorkerResponse, WorkerError>),
}

/// What to do next.
#[derive(Debug)]
pub enum HttpAction {
    /// Read more of the head.
    ReadHead,
    /// Read exactly that many bytes of the body.
    ReadBody(usize),
    /// Collect what a health report needs; ask the worker itself only if `deep` is set.
    Health { deep: bool },
    /// Ask the worker.
    Ask { op: WorkerOp, payload: Value },
    /// Send these bytes and close the connection.
    Send(Vec<u8>),
    /// Close the connection.
    Close,
    /// Close the connection and report the error.
    Fail(IoError),
}

/// What to do next, as a value.
pub enum HttpOutcome {
    ReadHead,
    ReadBody(nat),
    Health(bool),
    Ask(WorkerOp, JsonTree),
    Send(Seq<u8>),
    Close,
    Fail(IoErrorKind, Seq<char>),
}

impl View for HttpAction {
    type V = HttpOutcome;

    open spec fn view(&self) -> HttpOutcome {
        match self {
            HttpAction::ReadHead => HttpOutcome::ReadHead,
            HttpAction::ReadBody(n) => HttpOutcome::ReadBody(*n as nat),
            HttpAction::Health { deep } => HttpOutcome::Health(*deep),
            HttpAction::Ask { op, payload } => HttpOutcome::Ask(*op, json_tree(*payload)),
            HttpAction::Send(bytes) => HttpOutcome::Send(bytes@),
            HttpAction::Close => HttpOutcome::Close,
            HttpAction::Fail(e) => HttpOutcome::Fail(e.kind, e.message@),
        }
    }
}

/// The step that follows a decision on the head.
pub open spec fn after_head(outcome: HeadOutcome) -> (HttpStateModel, HttpOutcome) {
    match outcome {
        HeadOutcome::Close => (HttpStateModel::Closed, HttpOutcome::Close),
        HeadOutcome::Fail(kind, message) => (
            HttpStateModel::Closed,
            HttpOutcome::Fail(kind, message),
        ),
        HeadOutcome::Reply(bytes) => (HttpStateModel::Closed, HttpOutcome::Send(bytes)),
        HeadOutcome::Body { method, target, body, missing } => (
            HttpStateModel::Body { method, target, body, missing },
            HttpOutcome::ReadBody(missing),
        ),
    }
}

/// The step that follows a decision on the request.
pub open spec fn after_request(outcome: RequestOutcome) -> (HttpStateModel, HttpOutcome) {
    match outcome {
        RequestOutcome::Reply(bytes) => (HttpStateModel::Closed, HttpOutcome::Send(bytes)),
        RequestOutcome::Health(deep) => (HttpStateModel::Health, HttpOutcome::Health(deep)),
        RequestOutcome::Ask(op, payload) => (HttpStateModel::Worker, HttpOutcome::Ask(op, payload)),
    }
}

/// One step of a connection. An event that it does not wait for ends it quietly.
pub open spec fn http_step(state: HttpStateModel, event: HttpEvent) -> (
    HttpStateModel,
    HttpOutcome,
) {
    match (state, event) {
        (HttpStateModel::Head(buf), HttpEvent::Head(chunk)) => match head_step(buf, chunk@) {
            HeadModel::Pending(more) => (HttpStateModel::Head(more), HttpOutcome::ReadHead),
            finished => after_head(head_outcome(finished)),
        },
        (
            HttpStateModel::Body { method, target, body, missing: _ },
            HttpEvent::Body(rest),
        ) => after_request(request_outcome(method, target, body + rest@)),
        (HttpStateModel::Health, HttpEvent::Health { snapshot, ipc }) => (
            HttpStateModel::Closed,
            HttpOutcome::Send(json_response(200, health_tree(json_tree(snapshot), ipc))),
        ),
        (HttpStateModel::Worker, HttpEvent::Answer(result)) => (
            HttpStateModel::Closed,
            HttpOutcome::Send(proxy_response(result)),
        ),
        _ => (HttpStateModel::Closed, HttpOutcome::Close),
    }
}

/// Takes the step that follows one read of the head.
fn handle_head_read(partial: PartialHead, chunk: Vec<u8>) -> (r: (HttpState, HttpAction))
    ensures
        (r.0@, r.1@) == http_step(HttpStateModel::Head(partial@), HttpEvent::Head(chunk)),
        head_step(partial@, chunk@) matches HeadModel::Read(head) ==> settled(head),
{
    match read_http_head(partial, chunk.as_slice()) {
        HeadProgress::Pending(more) => (HttpState::Head(more), HttpAction::ReadHead),
        HeadProgress::Finished(head) => match handle_http_head(head) {
            HeadAction::Close => (HttpState::Closed, HttpAction::Close),
            HeadAction::Fail(e) => (HttpState::Closed, HttpAction::Fail(e)),
            HeadAction::Reply(bytes) => (HttpState::Closed, HttpAction::Send(bytes)),
            HeadAction::Body(request) => {
                let missing: usize = request.missing;
                (HttpState::Body(request), HttpAction::ReadBody(missing))
            },
        },
    }
}

/// Serves an HTTP connection: from what it waits for and what happened to what it waits for
/// next and what is to be done. More bytes would change nothing about a head that was read.
pub fn handle_http_connection(state: HttpState, event: HttpEvent) -> (r: (HttpState, HttpAction))
    ensures
        (r.0@, r.1@) == http_step(state@, event),
        match (state@, event) {
            (HttpStateModel::Head(buf), HttpEvent::Head(chunk)) => head_step(
                buf,
                chunk@,
            ) matches HeadModel::Read(head) ==> settled(head),
            _ => true,
        },
{
    match (state, event) {
        (HttpState::Head(partial), HttpEvent::Head(chunk)) => handle_head_read(partial, chunk),
        (HttpState::Body(request), HttpEvent::Body(rest)) => match handle_http_request(
            request,
            rest.as_slice(),
        ) {
            RequestAction::Reply(bytes) => (HttpState::Closed, HttpAction::Send(bytes)),
            RequestAction::Health { deep } => (HttpState::Health, HttpAction::Health { deep }),
            RequestAction::Ask { op, payload } => (
                HttpState::Worker,
                HttpAction::Ask { op, payload },
            ),
        },
        (HttpState::Health, HttpEvent::Health { snapshot, ipc }) => {
            let mut out: Vec<u8> = Vec::new();
            write_health(&mut out, snapshot, ipc);
            assert(out@ =~= json_response(200, health_tree(json_tree(snapshot), ipc)));
            (HttpState::Closed, HttpAction::Send(out))
        },
        (HttpState::Worker, HttpEvent::Answer(result)) => {
            let mut out: Vec<u8> = Vec::new();
            proxy_json(&mut out, result);
            assert(out@ =~= proxy_response(result));
            (HttpState::Closed, HttpAction::Send(out))
        },
        _ => (HttpState::Closed, HttpAction::Close),
    }
}

/// What a connection waits for after `events`.
pub open spec fn http_run(events: Seq<HttpEvent>) -> HttpStateModel
    decreases events.len(),
{
    if events.len() == 0 {
        HttpStateModel::Head(Seq::empty())
    } else {
        http_step(http_run(events.drop_last()), events.last()).0
    }
}

/// What is to be done after the last of `events`.
pub open spec fn http_outcome(events: Seq<HttpEvent>) -> HttpOutcome {
    http_step(http_run(events.drop_last()), events.last()).1
}

/// A connection never holds or asks for more than the caps allow: the head it waits for keeps
/// to the head cap, and the body it has and the body it still asks for keep to the body cap.
pub proof fn connection_memory_is_bounded(events: Seq<HttpEvent>)
    ensures
        match http_run(events) {
            HttpStateModel::Head(buf) => head_pending(buf),
            HttpStateModel::Body { method: _, target: _, body, missing } => body.len() + missing
                <= MAX_HTTP_BODY_BYTES,
            _ => true,
        },
        events.len() > 0 ==> (http_outcome(events) matches HttpOutcome::ReadBody(n) ==> n
            <= MAX_HTTP_BODY_BYTES),
    decreases events.len(),
{
    if events.len() == 0 {
        assert(forall|end: int| !#[trigger] blank_line(Seq::<u8>::empty(), 0, end));
    } else {
        connection_memory_is_bounded(events.drop_last());
    }
}

/// Whether an outcome is the last thing that is done for a connection.
pub open spec fn is_last(outcome: HttpOutcome) -> bool {
    outcome is Send || outcome is Close || outcome is Fail
}

/// After the last thing that is done a connection is over.
proof fn lemma_last_step(state: HttpStateModel, event: HttpEvent)
    requires
        is_last(http_step(state, event).1),
    ensures
        http_step(state, event).0 is Closed,
{
}

/// A connection that is over stays so.
proof fn lemma_closed_stays(event: HttpEvent)
    ensures
        http_step(HttpStateModel::Closed, event) == (HttpStateModel::Closed, HttpOutcome::Close),
{
}

/// Once a connection is over, whatever happens more leaves it so.
proof fn lemma_closed_run(events: Seq<HttpEvent>, more: Seq<HttpEvent>)
    requires
        http_run(events) is Closed,
    ensures
        http_run(events + more) is Closed,
        more.len() > 0 ==> http_outcome(events + more) is Close,
    decreases more.len(),
{
    let all = events + more;
    if more.len() == 0 {
        assert(all =~= events);
    } else {
        lemma_closed_run(events, more.drop_last());
        assert(all.drop_last() =~= events + more.drop_last());
        lemma_closed_stays(all.last());
    }
}

/// A connection sends at most one response: once it sent one, closed or failed, it only closes.
pub proof fn at_most_one_response(events: Seq<HttpEvent>, more: Seq<HttpEvent>)
    requires
        events.len() > 0,
        is_last(http_outcome(events)),
    ensures
        http_run(events + more) is Closed,
        more.len() > 0 ==> http_outcome(events + more) is Close,
{
    lemma_last_step(http_run(events.drop_last()), events.last());
    lemma_closed_run(events, more);
}

/// A client that streams a head past the cap without a blank line is told so and cut off.
pub proof fn endless_heads_are_refused(buf: Seq<u8>, chunk: Vec<u8>)
    requires
        head_step(buf, chunk@) is TooLarge,
    ensures
        http_step(HttpStateModel::Head(buf), HttpEvent::Head(chunk)) == (
            HttpStateModel::Closed,
            HttpOutcome::Send(json_response(431, error_tree("headers_too_large"@))),
        ),
{
}

/// A request that declares a body past the cap, by however large a number, is refused whatever
/// it asks for, and nothing of the body is read.
pub proof fn oversized_bodies_are_refused(buf: Seq<u8>, chunk: Vec<u8>, request: RequestModel)
    requires
        head_step(buf, chunk@) is Read,
        http_request(buf + chunk@, MAX_HTTP_HEADERS as nat) == Ok::<
            Option<RequestModel>,
            Seq<char>,
        >(Some(request)),
        declared_length(request.headers) > MAX_HTTP_BODY_BYTES,
    ensures
        http_step(HttpStateModel::Head(buf), HttpEvent::Head(chunk)) == (
            HttpStateModel::Closed,
            HttpOutcome::Send(json_response(413, error_tree("payload_too_large"@))),
        ),
{
}

/// Every admitted request is answered: when its body has arrived, a response is sent, or one is
/// sent as soon as the health report or the worker's answer is there.
pub proof fn admitted_requests_are_answered(
    request: Request,
    rest: Vec<u8>,
    snapshot: Value,
    ipc: Option<Result<WorkerResponse, WorkerError>>,
    answer: Result<WorkerResponse, WorkerError>,
)
    ensures
        ({
            let (state, outcome) = http_step(
                HttpState::Body(request)@,
                HttpEvent::Body(rest),
            );
            let report = http_step(state, HttpEvent::Health { snapshot, ipc }).1;
            let passed_on = http_step(state, HttpEvent::Answer(answer)).1;
            match outcome {
                HttpOutcome::Send(_) => state is Closed,
                HttpOutcome::Health(_) => report == HttpOutcome::Send(
                    json_response(200, health_tree(json_tree(snapshot), ipc)),
                ),
                HttpOutcome::Ask(_, _) => passed_on == HttpOutcome::Send(proxy_response(answer)),
                _ => false,
            }
        }),
{
}

/// The events of reads that deliver `chunks`.
pub open spec fn head_events(chunks: Seq<Vec<u8>>) -> Seq<HttpEvent> {
    Seq::new(chunks.len(), |i: int| HttpEvent::Head(chunks[i]))
}

/// Whether `chunks` are the reads that deliver a request head off the start of `stream`: a read
/// was due each time, and the last one ended the head.
pub open spec fn delivers_head(chunks: Seq<Vec<u8>>, stream: Seq<u8>) -> bool {
    &&& chunks.len() > 0
    &&& http_run(head_events(chunks.drop_last())) is Head
    &&& head_run(views(chunks)) is Read
    &&& concat(views(chunks)).is_prefix_of(stream)
}

/// Whether `rest` is what `stream` holds from `taken` on, as far as a body misses it.
pub open spec fn delivers_rest(stream: Seq<u8>, taken: nat, missing: nat, rest: Seq<u8>) -> bool {
    &&& taken + missing <= stream.len()
    &&& rest == stream.subrange(taken as int, (taken + missing) as int)
}

/// While a connection waits for more of the head, it has all that was read.
proof fn lemma_head_reads(chunks: Seq<Vec<u8>>)
    requires
        http_run(head_events(chunks)) is Head,
    ensures
        head_run(views(chunks)) == HeadModel::Pending(concat(views(chunks))),
        http_run(head_events(chunks)) == HttpStateModel::Head(concat(views(chunks))),
    decreases chunks.len(),
{
    if chunks.len() > 0 {
        let front = chunks.drop_last();
        assert(head_events(chunks).drop_last() =~= head_events(front));
        assert(views(chunks).drop_last() =~= views(front));
        lemma_head_reads(front);
    }
}

/// What a connection does when the head has ended.
proof fn lemma_head_delivered(chunks: Seq<Vec<u8>>, stream: Seq<u8>)
    requires
        delivers_head(chunks, stream),
    ensures
        (http_run(head_events(chunks)), http_outcome(head_events(chunks))) == after_head(
            head_outcome(HeadModel::Read(concat(views(chunks)))),
        ),
{
    let front = chunks.drop_last();
    assert(head_events(chunks).drop_last() =~= head_events(front));
    assert(views(chunks).drop_last() =~= views(front));
    lemma_head_reads(front);
}

/// Two heads off one stream are decided on alike, and with what they miss they have one body.
proof fn lemma_heads_decide_alike(
    stream: Seq<u8>,
    head_a: Seq<u8>,
    head_b: Seq<u8>,
    rest_a: Seq<u8>,
    rest_b: Seq<u8>,
)
    requires
        head_a.is_prefix_of(stream),
        head_b.is_prefix_of(stream),
        head_a.len() <= head_b.len(),
        http_request(head_a, MAX_HTTP_HEADERS as nat) != Ok::<Option<RequestModel>, Seq<char>>(
            None,
        ),
        settled(head_a),
    ensures
        match (head_outcome(HeadModel::Read(head_a)), head_outcome(HeadModel::Read(head_b))) {
            (
                HeadOutcome::Body { method, target, body, missing },
                HeadOutcome::Body { method: m, target: t, body: other, missing: others },
            ) => {
                &&& method == m
                &&& target == t
                &&& delivers_rest(stream, head_a.len(), missing, rest_a) && delivers_rest(
                    stream,
                    head_b.len(),
                    others,
                    rest_b,
                ) ==> body + rest_a == other + rest_b
            },
            (a, b) => a == b && a !is Body && a !is Close,
        },
{
    let tail = head_b.skip(head_a.len() as int);
    assert(head_a =~= stream.take(head_a.len() as int));
    assert(head_b =~= stream.take(head_b.len() as int));
    assert(head_b =~= head_a + tail);
    assert(http_request(head_a + tail, MAX_HTTP_HEADERS as nat) == http_request(
        head_a,
        MAX_HTTP_HEADERS as nat,
    ));
    if let Ok(Some(request)) = http_request(head_a, MAX_HTTP_HEADERS as nat) {
        let length = declared_length(request.headers);
        let missing_a = (length - arrived_body(head_a, request.head_len, length).len()) as nat;
        let missing_b = (length - arrived_body(head_b, request.head_len, length).len()) as nat;
        if delivers_rest(stream, head_a.len(), missing_a, rest_a) && delivers_rest(
            stream,
            head_b.len(),
            missing_b,
            rest_b,
        ) {
            body_ignores_the_cut(stream, request.head_len, length, head_a.len());
            body_ignores_the_cut(stream, request.head_len, length, head_b.len());
        }
    }
}

/// A request is answered the same however the stream cuts it. Take two ways to deliver the
/// bytes of one stream, where the shorter head of the two is not an incomplete one. Then either
/// both connections end at the head, with the same response or the same error, or both wait for
/// the body, and with the bytes that they ask for they come to the same decision.
pub proof fn answers_ignore_the_cut(
    stream: Seq<u8>,
    a: Seq<Vec<u8>>,
    b: Seq<Vec<u8>>,
    rest_a: Vec<u8>,
    rest_b: Vec<u8>,
)
    requires
        delivers_head(a, stream),
        delivers_head(b, stream),
        concat(views(a)).len() <= concat(views(b)).len(),
        http_request(concat(views(a)), MAX_HTTP_HEADERS as nat) != Ok::<
            Option<RequestModel>,
            Seq<char>,
        >(None),
        settled(concat(views(a))),
    ensures
        match (http_run(head_events(a)), http_run(head_events(b))) {
            (
                HttpStateModel::Body { missing: missing_a, .. },
                HttpStateModel::Body { missing: missing_b, .. },
            ) => delivers_rest(stream, concat(views(a)).len(), missing_a, rest_a@)
                && delivers_rest(stream, concat(views(b)).len(), missing_b, rest_b@) ==> http_step(
                http_run(head_events(a)),
                HttpEvent::Body(rest_a),
            ) == http_step(http_run(head_events(b)), HttpEvent::Body(rest_b)),
            (state_a, state_b) => {
                &&& state_a is Closed && state_b is Closed
                &&& http_outcome(head_events(a)) == http_outcome(head_events(b))
                &&& http_outcome(head_events(a)) is Send || http_outcome(head_events(a)) is Fail
            },
        },
{
    lemma_head_delivered(a, stream);
    lemma_head_delivered(b, stream);
    lemma_heads_decide_alike(stream, concat(views(a)), concat(views(b)), rest_a@, rest_b@);
}

/// A request is decided on by its method, its target and exactly the bytes that it declares after
/// its head, wherever the reads cut the stream.
pub proof fn bodies_are_the_declared_bytes(
    stream: Seq<u8>,
    chunks: Seq<Vec<u8>>,
    rest: Vec<u8>,
    request: RequestModel,
)
    requires
        delivers_head(chunks, stream),
        http_request(concat(views(chunks)), 64) == Ok::<Option<RequestModel>, Seq<char>>(
            Some(request),
        ),
        request.head_len <= concat(views(chunks)).len(),
        request.method is Some,
        request.path is Some,
        declared_length(request.headers) <= 65536,
        request.head_len + declared_length(request.headers) <= stream.len(),
    ensures
        ({
            let from = request.head_len as int;
            let to = from + declared_length(request.headers);
            http_run(head_events(chunks)) matches HttpStateModel::Body { missing, .. } && (
            delivers_rest(stream, concat(views(chunks)).len(), missing, rest@) ==> http_step(
                http_run(head_events(chunks)),
                HttpEvent::Body(rest),
            ) == after_request(
                request_outcome(request.method->0, request.path->0, stream.subrange(from, to)),
            ))
        }),
{
    let head = concat(views(chunks));
    let length = declared_length(request.headers);
    lemma_head_delivered(chunks, stream);
    complete_heads_are_admitted(head, request);
    admission_takes_the_declared_body(head, request);
    assert(head =~= stream.take(head.len() as int));
    body_ignores_the_cut(stream, request.head_len, length, head.len());
    let arrived = arrived_body(head, request.head_len, length);
    let missing = (length - arrived.len()) as nat;
    if delivers_rest(stream, head.len(), missing, rest@) {
        assert(arrived + rest@ =~= stream.subrange(
            request.head_len as int,
            request.head_len as int + length,
        ));
    }
}

/// A login off the wire reaches the worker whole: the worker is asked with the document that is
/// in exactly the bytes that the request declares after its head, wherever the reads cut the
/// stream.
pub proof fn logins_off_the_wire_reach_the_worker(
    stream: Seq<u8>,
    chunks: Seq<Vec<u8>>,
    rest: Vec<u8>,
    request: RequestModel,
    tail: Seq<char>,
    document: JsonTree,
)
    requires
        delivers_head(chunks, stream),
        http_request(concat(views(chunks)), 64) == Ok::<Option<RequestModel>, Seq<char>>(
            Some(request),
        ),
        request.head_len <= concat(views(chunks)).len(),
        request.method == Some("POST"@),
        request.path == Some("/login"@ + tail) || request.path == Some("/login/2fa"@ + tail),
        tail.len() > 0 ==> tail[0] == '?',
        declared_length(request.headers) <= 65536,
        request.head_len + declared_length(request.headers) <= stream.len(),
        json_document(
            stream.subrange(
                request.head_len as int,
                request.head_len as int + declared_length(request.headers),
            ),
        ) == Ok::<JsonTree, Seq<char>>(document),
    ensures
        ({
            let op = if request.path == Some("/login"@ + tail) {
                WorkerOp::Login
            } else {
                WorkerOp::LoginTwoFactor
            };
            http_run(head_events(chunks)) matches HttpStateModel::Body { missing, .. } && (
            delivers_rest(stream, concat(views(chunks)).len(), missing, rest@) ==> http_step(
                http_run(head_events(chunks)),
                HttpEvent::Body(rest),
            ) == (HttpStateModel::Worker, HttpOutcome::Ask(op, document)))
        }),
{
    let body = stream.subrange(
        request.head_len as int,
        request.head_len as int + declared_length(request.headers),
    );
    bodies_are_the_declared_bytes(stream, chunks, rest, request);
    logins_reach_the_worker_whole(tail, body);
}

/// The models of a connection leave nothing out.
pub proof fn connection_models_hold_everything(
    partial: PartialHead,
    request: Request,
    bytes: Vec<u8>,
    n: usize,
    op: WorkerOp,
    payload: Value,
    e: IoError,
)
    ensures
        HttpState::Head(partial)@ == HttpStateModel::Head(partial@),
        HttpState::Body(request)@ == (HttpStateModel::Body {
            method: request.method@,
            target: request.target@,
            body: request.body@,
            missing: request.missing as nat,
        }),
        HttpState::Health@ == HttpStateModel::Health,
        HttpState::Worker@ == HttpStateModel::Worker,
        HttpState::Closed@ == HttpStateModel::Closed,
        HttpAction::ReadHead@ == HttpOutcome::ReadHead,
        HttpAction::ReadBody(n)@ == HttpOutcome::ReadBody(n as nat),
        forall|deep: bool| (#[trigger] HttpAction::Health { deep }@) == HttpOutcome::Health(deep),
        (HttpAction::Ask { op, payload }@) == HttpOutcome::Ask(op, json_tree(payload)),
        HttpAction::Send(bytes)@ == HttpOutcome::Send(bytes@),
        HttpAction::Close@ == HttpOutcome::Close,
        HttpAction::Fail(e)@ == HttpOutcome::Fail(e.kind, e.message@),
{
}

/// What was decided on a head or a request is what is done, with nothing changed.
pub proof fn decisions_are_carried_out(
    bytes: Seq<u8>,
    kind: IoErrorKind,
    message: Seq<char>,
    method: Seq<char>,
    target: Seq<char>,
    missing: nat,
    op: WorkerOp,
    payload: JsonTree,
    deep: bool,
)
    ensures
        after_head(HeadOutcome::Close) == (HttpStateModel::Closed, HttpOutcome::Close),
        after_head(HeadOutcome::Fail(kind, message)) == (
            HttpStateModel::Closed,
            HttpOutcome::Fail(kind, message),
        ),
        after_head(HeadOutcome::Reply(bytes)) == (HttpStateModel::Closed, HttpOutcome::Send(bytes)),
        after_head((HeadOutcome::Body { method, target, body: bytes, missing })) == (
            HttpStateModel::Body { method, target, body: bytes, missing },
            HttpOutcome::ReadBody(missing),
        ),
        after_request(RequestOutcome::Reply(bytes)) == (
            HttpStateModel::Closed,
            HttpOutcome::Send(bytes),
        ),
        after_request(RequestOutcome::Health(deep)) == (
            HttpStateModel::Health,
            HttpOutcome::Health(deep),
        ),
        after_request(RequestOutcome::Ask(op, payload)) == (
            HttpStateModel::Worker,
            HttpOutcome::Ask(op, payload),
        ),
{
}

/// A connection waits for more of the head, with all that was read, as long as no blank line came
/// and no more than 64 KiB were read, however the stream cuts it.
pub proof fn open_heads_are_read_on(chunks: Seq<Vec<u8>>)
    requires
        forall|i: int| 0 <= i < chunks.len() ==> #[trigger] chunks[i]@.len() > 0,
        forall|end: int| !#[trigger] blank_line(views(chunks).flatten(), 0, end),
        views(chunks).flatten().len() <= 65536,
    ensures
        http_run(head_events(chunks)) == HttpStateModel::Head(views(chunks).flatten()),
        chunks.len() > 0 ==> http_outcome(head_events(chunks)) is ReadHead,
    decreases chunks.len(),
{
    let all = views(chunks);
    views_hold_everything(chunks);
    assert forall|i: int| 0 <= i < all.len() implies #[trigger] all[i].len() > 0 by {
        assert(chunks[i]@.len() > 0);
    }
    short_heads_stay_open(all);
    if chunks.len() == 0 {
        assert(all.flatten() =~= Seq::empty());
    } else {
        let front = chunks.drop_last();
        assert(views(front) =~= all.drop_last());
        assert(head_events(chunks).drop_last() =~= head_events(front));
        parts_follow_one_another(all);
        parts_follow_one_another(views(front));
        assert forall|i: int| 0 <= i < front.len() implies #[trigger] front[i]@.len() > 0 by {
            assert(chunks[i]@.len() > 0);
        }
        assert forall|end: int| !#[trigger] blank_line(views(front).flatten(), 0, end) by {
            if blank_line(views(front).flatten(), 0, end) {
                assert(blank_line(all.flatten(), 0, end));
            }
        }
        open_heads_are_read_on(front);
        assert(head_step(views(front).flatten(), chunks.last()@) == HeadModel::Pending(
            all.flatten(),
        ));
    }
}

/// A head that ends with a blank line is delivered by any reads off the stream of which only the
/// last one reaches the end of a blank line, if no more than 64 KiB came before that read.
pub proof fn heads_are_delivered(chunks: Seq<Vec<u8>>, stream: Seq<u8>, end: int)
    requires
        chunks.len() > 0,
        forall|i: int| 0 <= i < chunks.len() ==> #[trigger] chunks[i]@.len() > 0,
        views(chunks).flatten().is_prefix_of(stream),
        blank_line(views(chunks).flatten(), 0, end),
        forall|e: int| !#[trigger] blank_line(views(chunks.drop_last()).flatten(), 0, e),
        views(chunks.drop_last()).flatten().len() <= 65536,
    ensures
        delivers_head(chunks, stream),
{
    let front = chunks.drop_last();
    assert forall|i: int| 0 <= i < front.len() implies #[trigger] front[i]@.len() > 0 by {
        assert(chunks[i]@.len() > 0);
    }
    open_heads_are_read_on(front);
    lemma_head_reads(front);
    assert(views(chunks).drop_last() =~= views(front));
    parts_follow_one_another(views(chunks));
    assert(chunks[chunks.len() - 1]@.len() > 0);
    assert(has_blank_line(concat(views(chunks)), 0));
}

/// An event that a connection does not wait for closes it.
pub proof fn unexpected_events_close_the_connection(
    request: Request,
    partial: PartialHead,
    bytes: Vec<u8>,
    answer: Result<WorkerResponse, WorkerError>,
)
    ensures
        ({
            let closed = (HttpStateModel::Closed, HttpOutcome::Close);
            let head = HttpState::Head(partial)@;
            let body = HttpState::Body(request)@;
            &&& http_step(head, HttpEvent::Body(bytes)) == closed
            &&& http_step(head, HttpEvent::Answer(answer)) == closed
            &&& http_step(body, HttpEvent::Head(bytes)) == closed
            &&& http_step(body, HttpEvent::Answer(answer)) == closed
            &&& http_step(HttpStateModel::Health, HttpEvent::Head(bytes)) == closed
            &&& http_step(HttpStateModel::Health, HttpEvent::Body(bytes)) == closed
            &&& http_step(HttpStateModel::Health, HttpEvent::Answer(answer)) == closed
            &&& http_step(HttpStateModel::Worker, HttpEvent::Head(bytes)) == closed
            &&& http_step(HttpStateModel::Worker, HttpEvent::Body(bytes)) == closed
        }),
{
}

} // verus!
