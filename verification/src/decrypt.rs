//! The decrypt service: what to do with the frames of a client.
use vstd::prelude::*;
use vstd::utf8::encode_utf8;

use crate::batch::{
    batch_adam, batch_bytes, batch_fault, batch_fault_text, batch_ok, batch_reads_back,
    batch_samples, batch_uri, build_decrypt_samples_payload, parse_decrypt_batch_payload,
    samples_bytes, samples_fault, samples_fault_text, sendable_samples_are_sent,
    sent_samples_are_laid_out,
};
use crate::bytes::{views, views_hold_everything};
use crate::error::{worker_io_error, IoError, IoErrorKind, WorkerError};

verus! {

/// What a frame is for.
#[derive(Clone, Copy, Debug, PartialEq, Eq, Structural)]
pub enum FrameKind {
    /// A batch of samples to decrypt.
    Batch,
    /// The client is done.
    Close,
    /// Decrypted samples.
    Samples,
    /// A failure, with its text.
    Failure,
    /// Any other code.
    Other,
}

/// A frame of the decrypt service.
#[derive(Debug)]
pub struct DecryptFrame {
    pub kind: FrameKind,
    pub request_id: u32,
    pub payload: Vec<u8>,
}

/// A frame of the decrypt service, as a value.
pub struct FrameModel {
    pub kind: FrameKind,
    pub request_id: u32,
    pub payload: Seq<u8>,
}

impl View for DecryptFrame {
    type V = FrameModel;

    open spec fn view(&self) -> FrameModel {
        FrameModel { kind: self.kind, request_id: self.request_id, payload: self.payload@ }
    }
}

/// What announces a frame.
#[derive(Clone, Copy, Debug)]
pub struct FrameHeader {
    pub kind: FrameKind,
    pub request_id: u32,
    pub payload_len: usize,
}

/// What the service waits for. `announced` is set once the client was logged.
#[derive(Clone, Copy, Debug)]
pub enum DecryptState {
    /// The header of the next frame.
    Header { announced: bool },
    /// The payload of a frame.
    Payload { header: FrameHeader, announced: bool },
    /// The worker, which decrypts the batch of a request.
    Worker { request_id: u32, announced: bool },
    /// Nothing: the connection is over.
    Closed,
}

/// What happened.
#[derive(Debug)]
pub enum DecryptEvent {
    /// A frame header arrived.
    Header(FrameHeader),
    /// The payload of a frame arrived.
    Payload(Vec<u8>),
    /// The worker is done with a batch.
    Decrypted(Result<Vec<Vec<u8>>, WorkerError>),
    /// Reading a frame failed.
    ReadFailed(IoError),
}

/// What to do next.
#[derive(Debug)]
pub enum DecryptAction {
    /// Read that many bytes of payload.
    ReadPayload(usize),
    /// Have the worker decrypt the samples; log the client first if `announce` is set.
    Decrypt { adam: String, uri: String, samples: Vec<Vec<u8>>, announce: bool },
    /// Send this frame and read the next header.
    Send(DecryptFrame),
    /// Send this frame and close the connection.
    Reject(DecryptFrame),
    /// Try to send this frame, then close the connection both ways and report the error.
    Abort(DecryptFrame, IoError),
    /// Close the connection and report the error.
    Fail(IoError),
    /// Close the connection.
    Close,
}

/// What to do next, as a value.
pub enum DecryptOutcome {
    ReadPayload(nat),
    Decrypt { adam: Seq<char>, uri: Seq<char>, samples: Seq<Seq<u8>>, announce: bool },
    Send(FrameModel),
    Reject(FrameModel),
    Abort(FrameModel, IoErrorKind, Seq<char>),
    Fail(IoErrorKind, Seq<char>),
    Close,
}

impl View for DecryptAction {
    type V = DecryptOutcome;

    open spec fn view(&self) -> DecryptOutcome {
        match self {
            DecryptAction::ReadPayload(n) => DecryptOutcome::ReadPayload(*n as nat),
            DecryptAction::Decrypt { adam, uri, samples, announce } => DecryptOutcome::Decrypt {
                adam: adam@,
                uri: uri@,
                samples: views(samples@),
                announce: *announce,
            },
            DecryptAction::Send(frame) => DecryptOutcome::Send(frame@),
            DecryptAction::Reject(frame) => DecryptOutcome::Reject(frame@),
            DecryptAction::Abort(frame, e) => DecryptOutcome::Abort(frame@, e.kind, e.message@),
            DecryptAction::Fail(e) => DecryptOutcome::Fail(e.kind, e.message@),
            DecryptAction::Close => DecryptOutcome::Close,
        }
    }
}

/// The frame that tells the client that request `request_id` failed.
pub open spec fn error_frame(request_id: u32, message: Seq<char>) -> FrameModel {
    FrameModel { kind: FrameKind::Failure, request_id, payload: encode_utf8(message) }
}

/// What to do with an announced frame: a payload above `max_payload` is refused before it is
/// read. Its bytes are then still on the wire, so the connection is out of step and ends.
pub open spec fn header_step(header: FrameHeader, max_payload: usize, announced: bool) -> (
    DecryptState,
    DecryptOutcome,
) {
    if header.payload_len > max_payload {
        (
            DecryptState::Closed,
            DecryptOutcome::Reject(error_frame(header.request_id, "decrypt frame too large"@)),
        )
    } else {
        (
            DecryptState::Payload { header, announced },
            DecryptOutcome::ReadPayload(header.payload_len as nat),
        )
    }
}

/// What to do with a frame: only batches and the closing frame are understood, and a batch goes
/// to the worker exactly when its payload is sound.
pub open spec fn frame_step(header: FrameHeader, payload: Seq<u8>, announced: bool) -> (
    DecryptState,
    DecryptOutcome,
) {
    if header.kind == FrameKind::Close {
        (DecryptState::Closed, DecryptOutcome::Close)
    } else if header.kind != FrameKind::Batch {
        (
            DecryptState::Closed,
            DecryptOutcome::Reject(
                error_frame(header.request_id, "unsupported decrypt frame kind"@),
            ),
        )
    } else {
        match batch_fault(payload) {
            Some(fault) => (
                DecryptState::Closed,
                DecryptOutcome::Reject(error_frame(header.request_id, batch_fault_text(fault))),
            ),
            None => (
                DecryptState::Worker { request_id: header.request_id, announced: true },
                DecryptOutcome::Decrypt {
                    adam: batch_adam(payload),
                    uri: batch_uri(payload),
                    samples: batch_samples(payload),
                    announce: !announced,
                },
            ),
        }
    }
}

/// What to do with the worker's answer: samples go back to the client, a failure ends the
/// connection.
pub open spec fn result_step(
    request_id: u32,
    result: Result<Vec<Vec<u8>>, WorkerError>,
    announced: bool,
) -> (DecryptState, DecryptOutcome) {
    match result {
        Ok(samples) => match samples_fault(views(samples@)) {
            None => (
                DecryptState::Header { announced },
                DecryptOutcome::Send(
                    FrameModel {
                        kind: FrameKind::Samples,
                        request_id,
                        payload: samples_bytes(views(samples@)),
                    },
                ),
            ),
            Some(fault) => (
                DecryptState::Closed,
                DecryptOutcome::Fail(IoErrorKind::InvalidInput, samples_fault_text(fault)),
            ),
        },
        Err(failure) => (
            DecryptState::Closed,
            DecryptOutcome::Abort(
                error_frame(request_id, failure.message@),
                IoErrorKind::Other,
                failure.message@,
            ),
        ),
    }
}

/// What to do when reading fails: the end of the stream ends the connection quietly, any other
/// failure is reported.
pub open spec fn failure_step(kind: IoErrorKind, message: Seq<char>) -> (
    DecryptState,
    DecryptOutcome,
) {
    if kind == IoErrorKind::UnexpectedEof {
        (DecryptState::Closed, DecryptOutcome::Close)
    } else {
        (DecryptState::Closed, DecryptOutcome::Fail(kind, message))
    }
}

/// One step of the service. An event that the service does not wait for ends the connection
/// quietly.
pub open spec fn decrypt_step(state: DecryptState, event: DecryptEvent, max_payload: usize) -> (
    DecryptState,
    DecryptOutcome,
) {
    match (state, event) {
        (DecryptState::Header { announced }, DecryptEvent::Header(header)) => header_step(
            header,
            max_payload,
            announced,
        ),
        (
            DecryptState::Payload { header, announced },
            DecryptEvent::Payload(payload),
        ) => frame_step(header, payload@, announced),
        (
            DecryptState::Worker { request_id, announced },
            DecryptEvent::Decrypted(result),
        ) => result_step(request_id, result, announced),
        (DecryptState::Header { announced: _ }, DecryptEvent::ReadFailed(e)) => failure_step(
            e.kind,
            e.message@,
        ),
        (
            DecryptState::Payload { header: _, announced: _ },
            DecryptEvent::ReadFailed(e),
        ) => failure_step(e.kind, e.message@),
        _ => (DecryptState::Closed, DecryptOutcome::Close),
    }
}

/// The frame that tells the client that a request failed.
pub fn decrypt_error_frame(request_id: u32, message: &str) -> (frame: DecryptFrame)
    ensures
        frame@ == error_frame(request_id, message@),
{
    DecryptFrame { kind: FrameKind::Failure, request_id, payload: message.as_bytes_vec() }
}

/// Decides on an announced frame.
fn handle_header(header: FrameHeader, max_payload: usize, announced: bool) -> (r: (
    DecryptState,
    DecryptAction,
))
    ensures
        (r.0, r.1@) == header_step(header, max_payload, announced),
{
    if header.payload_len > max_payload {
        let frame: DecryptFrame = decrypt_error_frame(
            header.request_id,
            "decrypt frame too large",
        );
        (DecryptState::Closed, DecryptAction::Reject(frame))
    } else {
        (
            DecryptState::Payload { header, announced },
            DecryptAction::ReadPayload(header.payload_len),
        )
    }
}

/// Decides on a frame.
fn handle_frame(header: FrameHeader, payload: Vec<u8>, announced: bool) -> (r: (
    DecryptState,
    DecryptAction,
))
    ensures
        (r.0, r.1@) == frame_step(header, payload@, announced),
{
    if header.kind == FrameKind::Close {
        return (DecryptState::Closed, DecryptAction::Close);
    }
    if header.kind != FrameKind::Batch {
        let frame: DecryptFrame = decrypt_error_frame(
            header.request_id,
            "unsupported decrypt frame kind",
        );
        return (DecryptState::Closed, DecryptAction::Reject(frame));
    }
    match parse_decrypt_batch_payload(payload.as_slice()) {
        Ok((adam, uri, samples)) => (
            DecryptState::Worker { request_id: header.request_id, announced: true },
            DecryptAction::Decrypt { adam, uri, samples, announce: !announced },
        ),
        Err(e) => {
            let frame: DecryptFrame = decrypt_error_frame(header.request_id, e.message.as_str());
            (DecryptState::Closed, DecryptAction::Reject(frame))
        },
    }
}

/// Decides on the worker's answer.
fn handle_result(
    request_id: u32,
    result: Result<Vec<Vec<u8>>, WorkerError>,
    announced: bool,
) -> (r: (DecryptState, DecryptAction))
    ensures
        (r.0, r.1@) == result_step(request_id, result, announced),
{
    match result {
        Ok(samples) => match build_decrypt_samples_payload(samples.as_slice()) {
            Ok(payload) => (
                DecryptState::Header { announced },
                DecryptAction::Send(
                    DecryptFrame { kind: FrameKind::Samples, request_id, payload },
                ),
            ),
            Err(e) => (DecryptState::Closed, DecryptAction::Fail(e)),
        },
        Err(e) => {
            let frame: DecryptFrame = decrypt_error_frame(request_id, e.message.as_str());
            (DecryptState::Closed, DecryptAction::Abort(frame, worker_io_error(e)))
        },
    }
}

/// Decides on a failure to read.
fn handle_failure(e: IoError) -> (r: (DecryptState, DecryptAction))
    ensures
        (r.0, r.1@) == failure_step(e.kind, e.message@),
{
    if e.kind == IoErrorKind::UnexpectedEof {
        (DecryptState::Closed, DecryptAction::Close)
    } else {
        (DecryptState::Closed, DecryptAction::Fail(e))
    }
}

/// Serves a client of the decrypt service: from what the service waits for and what happened to
/// what it waits for next and what is to be done.
pub fn handle_decrypt_client(
    state: DecryptState,
    event: DecryptEvent,
    max_payload: usize,
) -> (r: (DecryptState, DecryptAction))
    ensures
        (r.0, r.1@) == decrypt_step(state, event, max_payload),
{
    match (state, event) {
        (DecryptState::Header { announced }, DecryptEvent::Header(header)) => handle_header(
            header,
            max_payload,
            announced,
        ),
        (
            DecryptState::Payload { header, announced },
            DecryptEvent::Payload(payload),
        ) => handle_frame(header, payload, announced),
        (
            DecryptState::Worker { request_id, announced },
            DecryptEvent::Decrypted(result),
        ) => handle_result(request_id, result, announced),
        (DecryptState::Header { announced: _ }, DecryptEvent::ReadFailed(e)) => handle_failure(e),
        (
            DecryptState::Payload { header: _, announced: _ },
            DecryptEvent::ReadFailed(e),
        ) => handle_failure(e),
        _ => (DecryptState::Closed, DecryptAction::Close),
    }
}

/// What the service waits for after `events`.
pub open spec fn decrypt_run(events: Seq<DecryptEvent>, max_payload: usize) -> DecryptState
    decreases events.len(),
{
    if events.len() == 0 {
        DecryptState::Header { announced: false }
    } else {
        decrypt_step(decrypt_run(events.drop_last(), max_payload), events.last(), max_payload).0
    }
}

/// What is to be done after the last of `events`.
pub open spec fn decrypt_outcome(events: Seq<DecryptEvent>, max_payload: usize) -> DecryptOutcome {
    decrypt_step(decrypt_run(events.drop_last(), max_payload), events.last(), max_payload).1
}

/// The last frame header among `events`.
pub open spec fn last_header(events: Seq<DecryptEvent>) -> Option<FrameHeader>
    decreases events.len(),
{
    if events.len() == 0 {
        None
    } else {
        match events.last() {
            DecryptEvent::Header(header) => Some(header),
            _ => last_header(events.drop_last()),
        }
    }
}

/// The frame that an action sends.
pub open spec fn sent_frame(outcome: DecryptOutcome) -> Option<FrameModel> {
    match outcome {
        DecryptOutcome::Send(frame) => Some(frame),
        DecryptOutcome::Reject(frame) => Some(frame),
        DecryptOutcome::Abort(frame, _, _) => Some(frame),
        _ => None,
    }
}

/// Whether the client was logged before or with what is waited for.
pub open spec fn is_announced(state: DecryptState) -> bool {
    match state {
        DecryptState::Header { announced } => announced,
        DecryptState::Payload { header: _, announced } => announced,
        DecryptState::Worker { request_id: _, announced } => announced,
        DecryptState::Closed => true,
    }
}

/// The service works on the last announced frame.
proof fn lemma_current_frame(events: Seq<DecryptEvent>, max_payload: usize)
    ensures
        match decrypt_run(events, max_payload) {
            DecryptState::Payload { header, announced: _ } => last_header(events) == Some(header),
            DecryptState::Worker { request_id, announced: _ } => last_header(
                events,
            ) matches Some(header) && header.request_id == request_id,
            _ => true,
        },
    decreases events.len(),
{
    if events.len() > 0 {
        lemma_current_frame(events.drop_last(), max_payload);
    }
}

/// Every frame that the service sends answers the frame that was announced last: it carries its
/// request id.
pub proof fn replies_carry_the_request_id(events: Seq<DecryptEvent>, max_payload: usize)
    requires
        events.len() > 0,
    ensures
        sent_frame(decrypt_outcome(events, max_payload)) matches Some(frame) ==> last_header(
            events,
        ) matches Some(header) && frame.request_id == header.request_id,
{
    lemma_current_frame(events.drop_last(), max_payload);
}

/// The service never asks for a payload above the limit.
pub proof fn payload_reads_are_bounded(events: Seq<DecryptEvent>, max_payload: usize)
    requires
        events.len() > 0,
    ensures
        decrypt_outcome(events, max_payload) matches DecryptOutcome::ReadPayload(n) ==> n
            <= max_payload,
{
}

/// A connection goes on exactly after an announced frame, a batch for the worker and samples
/// that were sent back; everything else ends it, and then nothing more is sent or read.
pub proof fn ended_connections_stay_ended(
    events: Seq<DecryptEvent>,
    more: Seq<DecryptEvent>,
    max_payload: usize,
)
    requires
        events.len() > 0,
        decrypt_outcome(events, max_payload) !is ReadPayload,
        decrypt_outcome(events, max_payload) !is Decrypt,
        decrypt_outcome(events, max_payload) !is Send,
    ensures
        decrypt_run(events + more, max_payload) is Closed,
        more.len() > 0 ==> decrypt_outcome(events + more, max_payload) is Close,
    decreases more.len(),
{
    if more.len() == 0 {
        assert(events + more =~= events);
    } else {
        ended_connections_stay_ended(events, more.drop_last(), max_payload);
        assert((events + more).drop_last() =~= events + more.drop_last());
    }
}

/// A client is logged at most once, however many batches it sends.
pub proof fn clients_are_announced_once(
    events: Seq<DecryptEvent>,
    more: Seq<DecryptEvent>,
    max_payload: usize,
)
    requires
        events.len() > 0,
        decrypt_outcome(events, max_payload) is Decrypt,
    ensures
        is_announced(decrypt_run(events + more, max_payload)),
        more.len() > 0 ==> (decrypt_outcome(events + more, max_payload) matches
            DecryptOutcome::Decrypt { announce, .. } ==> !announce),
    decreases more.len(),
{
    if more.len() == 0 {
        assert(events + more =~= events);
    } else {
        clients_are_announced_once(events, more.drop_last(), max_payload);
        assert((events + more).drop_last() =~= events + more.drop_last());
    }
}

/// A sound batch reaches the worker as the client wrote it, and what the worker makes of it
/// reaches the client under the same request id; then the next frame is due.
pub proof fn batches_are_answered(
    header: FrameHeader,
    payload: Vec<u8>,
    adam: Seq<char>,
    uri: Seq<char>,
    samples: Seq<Seq<u8>>,
    plaintexts: Vec<Vec<u8>>,
    max_payload: usize,
    announced: bool,
)
    requires
        header.kind == FrameKind::Batch,
        header.payload_len == payload@.len(),
        header.payload_len <= max_payload,
        batch_ok(adam, uri, samples),
        payload@ == batch_bytes(adam, uri, samples),
        samples_fault(views(plaintexts@)) is None,
    ensures
        ({
            let s0 = DecryptState::Header { announced };
            let (s1, a1) = decrypt_step(s0, DecryptEvent::Header(header), max_payload);
            let (s2, a2) = decrypt_step(s1, DecryptEvent::Payload(payload), max_payload);
            let (s3, a3) = decrypt_step(
                s2,
                DecryptEvent::Decrypted(Ok(plaintexts)),
                max_payload,
            );
            &&& a1 == DecryptOutcome::ReadPayload(payload@.len())
            &&& a2 == (DecryptOutcome::Decrypt { adam, uri, samples, announce: !announced })
            &&& a3 == DecryptOutcome::Send(
                (FrameModel {
                    kind: FrameKind::Samples,
                    request_id: header.request_id,
                    payload: samples_bytes(views(plaintexts@)),
                }),
            )
            &&& s3 == (DecryptState::Header { announced: true })
        }),
{
    batch_reads_back(adam, uri, samples);
}

/// Whether `frame` tells the client in words that request `request_id` failed: the text is there
/// whole.
pub open spec fn tells_failure(frame: FrameModel, request_id: u32, text: Seq<char>) -> bool {
    &&& frame.kind == FrameKind::Failure
    &&& frame.request_id == request_id
    &&& frame.payload == encode_utf8(text)
}

/// A frame within the limit is read whole, and one above it is refused unread, under its request
/// id.
pub proof fn frames_are_read_whole(header: FrameHeader, max_payload: usize, announced: bool)
    ensures
        ({
            let (state, outcome) = decrypt_step(
                DecryptState::Header { announced },
                DecryptEvent::Header(header),
                max_payload,
            );
            &&& header.payload_len <= max_payload ==> state == (DecryptState::Payload {
                header,
                announced,
            }) && outcome == DecryptOutcome::ReadPayload(header.payload_len as nat)
            &&& header.payload_len > max_payload ==> state is Closed && (
            outcome matches DecryptOutcome::Reject(frame) && tells_failure(
                frame,
                header.request_id,
                "decrypt frame too large"@,
            ))
        }),
{
}

/// A batch that reads well reaches the worker as it was read, whole; one that does not is refused
/// with the whole text of its fault, and so is a frame of another kind. Only a closing frame ends
/// the connection quietly.
pub proof fn frames_are_decided_by_kind_and_payload(
    header: FrameHeader,
    payload: Vec<u8>,
    max_payload: usize,
    announced: bool,
)
    ensures
        ({
            let (state, outcome) = decrypt_step(
                DecryptState::Payload { header, announced },
                DecryptEvent::Payload(payload),
                max_payload,
            );
            match header.kind {
                FrameKind::Close => state is Closed && outcome is Close,
                FrameKind::Batch => match batch_fault(payload@) {
                    None => {
                        &&& state == (DecryptState::Worker {
                            request_id: header.request_id,
                            announced: true,
                        })
                        &&& outcome matches DecryptOutcome::Decrypt {
                            adam,
                            uri,
                            samples,
                            announce,
                        } && adam == batch_adam(payload@) && uri == batch_uri(payload@) && samples
                            == batch_samples(payload@) && announce == !announced
                    },
                    Some(fault) => state is Closed && (outcome matches DecryptOutcome::Reject(
                        frame,
                    ) && tells_failure(frame, header.request_id, batch_fault_text(fault))),
                },
                _ => state is Closed && (outcome matches DecryptOutcome::Reject(frame)
                    && tells_failure(frame, header.request_id, "unsupported decrypt frame kind"@)),
            }
        }),
{
}

/// Whatever plaintexts the format can carry go back to the client, all of them and whole, under
/// the request id of the batch, and the next frame is due.
pub proof fn plaintexts_are_sent_back_whole(
    request_id: u32,
    plaintexts: Vec<Vec<u8>>,
    max_payload: usize,
    announced: bool,
)
    requires
        plaintexts@.len() <= 4294967295,
        forall|i: int| 0 <= i < plaintexts@.len() ==> #[trigger] plaintexts@[i]@.len() <= 4294967295,
        4 + 4 * plaintexts@.len() + views(plaintexts@).flatten().len() <= usize::MAX,
    ensures
        ({
            let n = plaintexts@.len() as int;
            let (state, outcome) = decrypt_step(
                DecryptState::Worker { request_id, announced },
                DecryptEvent::Decrypted(Ok(plaintexts)),
                max_payload,
            );
            &&& state == (DecryptState::Header { announced })
            &&& outcome matches DecryptOutcome::Send(frame) && frame.kind == FrameKind::Samples
                && frame.request_id == request_id && frame.payload.len() == 4 + 4 * n + views(
                plaintexts@,
            ).flatten().len() && frame.payload[0] * 16777216 + frame.payload[1] * 65536
                + frame.payload[2] * 256 + frame.payload[3] == n && (forall|i: int|
                0 <= i < n ==> frame.payload[4 + 4 * i] * 16777216 + frame.payload[5 + 4 * i]
                    * 65536 + frame.payload[6 + 4 * i] * 256 + frame.payload[7 + 4 * i]
                    == #[trigger] plaintexts@[i]@.len()) && frame.payload.skip(4 + 4 * n) == views(
                plaintexts@,
            ).flatten()
        }),
{
    let all = views(plaintexts@);
    views_hold_everything(plaintexts@);
    assert forall|i: int| 0 <= i < all.len() implies #[trigger] all[i].len() <= 4294967295 by {
        assert(plaintexts@[i]@.len() <= 4294967295);
    }
    sendable_samples_are_sent(all);
    sent_samples_are_laid_out(all);
    let payload = samples_bytes(all);
    assert forall|i: int| 0 <= i < plaintexts@.len() implies payload[4 + 4 * i] * 16777216
        + payload[5 + 4 * i] * 65536 + payload[6 + 4 * i] * 256 + payload[7 + 4 * i]
        == #[trigger] plaintexts@[i]@.len() by {
        assert(all[i].len() == plaintexts@[i]@.len());
    }
}

/// A failure of the worker is told to the client and reported, both times with its whole text; a
/// failure to read ends the connection, quietly only at the end of the stream.
pub proof fn failures_are_told_whole(
    request_id: u32,
    failure: WorkerError,
    e: IoError,
    header: FrameHeader,
    max_payload: usize,
    announced: bool,
)
    ensures
        ({
            let (state, outcome) = decrypt_step(
                DecryptState::Worker { request_id, announced },
                DecryptEvent::Decrypted(Err(failure)),
                max_payload,
            );
            &&& state is Closed
            &&& outcome matches DecryptOutcome::Abort(frame, kind, message) && tells_failure(
                frame,
                request_id,
                failure.message@,
            ) && kind == IoErrorKind::Other && message == failure.message@
        }),
        ({
            let (state, outcome) = decrypt_step(
                DecryptState::Header { announced },
                DecryptEvent::ReadFailed(e),
                max_payload,
            );
            &&& state is Closed
            &&& e.kind == IoErrorKind::UnexpectedEof ==> outcome is Close
            &&& e.kind != IoErrorKind::UnexpectedEof ==> outcome == DecryptOutcome::Fail(
                e.kind,
                e.message@,
            )
            &&& decrypt_step(
                DecryptState::Payload { header, announced },
                DecryptEvent::ReadFailed(e),
                max_payload,
            ) == (state, outcome)
        }),
{
}

/// The models of frames and actions leave nothing out.
pub proof fn decrypt_models_hold_everything(
    frame: DecryptFrame,
    adam: String,
    uri: String,
    samples: Vec<Vec<u8>>,
    announce: bool,
    n: usize,
    e: IoError,
)
    ensures
        frame@.kind == frame.kind,
        frame@.request_id == frame.request_id,
        frame@.payload == frame.payload@,
        DecryptAction::ReadPayload(n)@ == DecryptOutcome::ReadPayload(n as nat),
        (DecryptAction::Decrypt { adam, uri, samples, announce }@) == (DecryptOutcome::Decrypt {
            adam: adam@,
            uri: uri@,
            samples: views(samples@),
            announce,
        }),
        DecryptAction::Send(frame)@ == DecryptOutcome::Send(frame@),
        DecryptAction::Reject(frame)@ == DecryptOutcome::Reject(frame@),
        DecryptAction::Abort(frame, e)@ == DecryptOutcome::Abort(frame@, e.kind, e.message@),
        DecryptAction::Fail(e)@ == DecryptOutcome::Fail(e.kind, e.message@),
        DecryptAction::Close@ == DecryptOutcome::Close,
{
}

/// An event that the service does not wait for closes the connection.
pub proof fn unexpected_events_end_the_connection(
    header: FrameHeader,
    payload: Vec<u8>,
    result: Result<Vec<Vec<u8>>, WorkerError>,
    e: IoError,
    request_id: u32,
    max_payload: usize,
    announced: bool,
)
    ensures
        ({
            let closed = (DecryptState::Closed, DecryptOutcome::Close);
            let waits = DecryptState::Header { announced };
            let reads = DecryptState::Payload { header, announced };
            let works = DecryptState::Worker { request_id, announced };
            &&& decrypt_step(waits, DecryptEvent::Payload(payload), max_payload) == closed
            &&& decrypt_step(waits, DecryptEvent::Decrypted(result), max_payload) == closed
            &&& decrypt_step(reads, DecryptEvent::Header(header), max_payload) == closed
            &&& decrypt_step(reads, DecryptEvent::Decrypted(result), max_payload) == closed
            &&& decrypt_step(works, DecryptEvent::Header(header), max_payload) == closed
            &&& decrypt_step(works, DecryptEvent::Payload(payload), max_payload) == closed
            &&& decrypt_step(works, DecryptEvent::ReadFailed(e), max_payload) == closed
        }),
{
}

} // verus!
