use wrapperd::decrypt::{
    decrypt_error_frame, handle_decrypt_client, DecryptAction, DecryptEvent, DecryptFrame,
    DecryptState, FrameHeader, FrameKind,
};
use wrapperd::error::{IoError, IoErrorKind, WorkerError};

const LIMIT: usize = 64;

const START: DecryptState = DecryptState::Header { announced: false };

/// One sample, `x`, under the id `a` and the uri `u`.
const BATCH: &[u8] = &[0, 1, 0, 1, 0, 0, 0, 1, 0, 0, 0, 1, b'a', b'u', b'x'];

fn header(kind: FrameKind, request_id: u32, payload_len: usize) -> DecryptEvent {
    DecryptEvent::Header(FrameHeader { kind, request_id, payload_len })
}

fn step(state: DecryptState, event: DecryptEvent) -> (DecryptState, DecryptAction) {
    handle_decrypt_client(state, event, LIMIT)
}

/// Announces a frame and delivers its payload.
fn frame(
    state: DecryptState,
    kind: FrameKind,
    request_id: u32,
    payload: &[u8],
) -> (DecryptState, DecryptAction) {
    let (state, action) = step(state, header(kind, request_id, payload.len()));
    match action {
        DecryptAction::ReadPayload(n) => assert_eq!(n, payload.len()),
        other => panic!("expected ReadPayload, got {other:?}"),
    }
    step(state, DecryptEvent::Payload(payload.to_vec()))
}

fn assert_failure(frame: &DecryptFrame, request_id: u32, message: &str) {
    assert_eq!(frame.kind, FrameKind::Failure);
    assert_eq!(frame.request_id, request_id);
    assert_eq!(frame.payload, message.as_bytes().to_vec());
}

fn assert_rejected(step: (DecryptState, DecryptAction), request_id: u32, message: &str) {
    assert!(matches!(step.0, DecryptState::Closed));
    match step.1 {
        DecryptAction::Reject(frame) => assert_failure(&frame, request_id, message),
        other => panic!("expected Reject, got {other:?}"),
    }
}

#[test]
fn error_frames_carry_the_text() {
    assert_failure(&decrypt_error_frame(5, "na\u{ef}ve"), 5, "na\u{ef}ve");
}

#[test]
fn batches_are_decrypted_and_answered() {
    let (state, action) = frame(START, FrameKind::Batch, 7, BATCH);
    match action {
        DecryptAction::Decrypt { adam, uri, samples, announce } => {
            assert_eq!(adam, "a");
            assert_eq!(uri, "u");
            assert_eq!(samples, vec![b"x".to_vec()]);
            assert!(announce);
        }
        other => panic!("expected Decrypt, got {other:?}"),
    }
    let (state, action) = step(state, DecryptEvent::Decrypted(Ok(vec![b"yz".to_vec()])));
    match action {
        DecryptAction::Send(frame) => {
            assert_eq!(frame.kind, FrameKind::Samples);
            assert_eq!(frame.request_id, 7);
            assert_eq!(frame.payload, vec![0, 0, 0, 1, 0, 0, 0, 2, b'y', b'z']);
        }
        other => panic!("expected Send, got {other:?}"),
    }
    // The client is logged only once.
    let (_, action) = frame(state, FrameKind::Batch, 8, BATCH);
    assert!(matches!(action, DecryptAction::Decrypt { announce: false, .. }));
}

#[test]
fn large_frames_are_refused_before_they_are_read() {
    let (_, action) = step(START, header(FrameKind::Batch, 1, LIMIT));
    assert!(matches!(action, DecryptAction::ReadPayload(LIMIT)));
    assert_rejected(
        step(START, header(FrameKind::Close, 3, LIMIT + 1)),
        3,
        "decrypt frame too large",
    );
}

#[test]
fn a_client_can_close() {
    let (state, action) = frame(START, FrameKind::Close, 1, b"ignored");
    assert!(matches!(action, DecryptAction::Close));
    assert!(matches!(state, DecryptState::Closed));
}

#[test]
fn other_kinds_are_refused() {
    for kind in [FrameKind::Samples, FrameKind::Failure, FrameKind::Other] {
        assert_rejected(frame(START, kind, 9, BATCH), 9, "unsupported decrypt frame kind");
    }
}

#[test]
fn broken_batches_are_refused() {
    assert_rejected(frame(START, FrameKind::Batch, 4, b""), 4, "decrypt batch too short");
    let mut long = BATCH.to_vec();
    long.push(0);
    assert_rejected(frame(START, FrameKind::Batch, 4, &long), 4, "trailing decrypt batch bytes");
}

#[test]
fn a_failed_worker_ends_the_connection() {
    let (state, _) = frame(START, FrameKind::Batch, 7, BATCH);
    let e = WorkerError { message: "no key".to_string() };
    let (state, action) = step(state, DecryptEvent::Decrypted(Err(e)));
    assert!(matches!(state, DecryptState::Closed));
    match action {
        DecryptAction::Abort(frame, e) => {
            assert_failure(&frame, 7, "no key");
            assert_eq!(e.kind, IoErrorKind::Other);
            assert_eq!(e.message, "no key");
        }
        other => panic!("expected Abort, got {other:?}"),
    }
}

fn read_failed(kind: IoErrorKind, message: &str) -> DecryptEvent {
    DecryptEvent::ReadFailed(IoError::new(kind, message))
}

#[test]
fn the_end_of_the_stream_ends_the_connection() {
    let (state, action) = step(START, read_failed(IoErrorKind::UnexpectedEof, "end"));
    assert!(matches!(action, DecryptAction::Close));
    assert!(matches!(state, DecryptState::Closed));
    let (state, _) = step(START, header(FrameKind::Batch, 1, 1));
    let (state, action) = step(state, read_failed(IoErrorKind::UnexpectedEof, "end"));
    assert!(matches!(action, DecryptAction::Close));
    assert!(matches!(state, DecryptState::Closed));
}

#[test]
fn other_read_failures_are_reported() {
    let (payload, _) = step(START, header(FrameKind::Batch, 1, 1));
    for state in [START, payload] {
        let (state, action) = step(state, read_failed(IoErrorKind::Other, "timed out"));
        match action {
            DecryptAction::Fail(e) => {
                assert_eq!(e.kind, IoErrorKind::Other);
                assert_eq!(e.message, "timed out");
            }
            other => panic!("expected Fail, got {other:?}"),
        }
        assert!(matches!(state, DecryptState::Closed));
    }
}

#[test]
fn an_ended_connection_stays_ended() {
    let (state, action) = step(DecryptState::Closed, header(FrameKind::Batch, 1, 1));
    assert!(matches!(action, DecryptAction::Close));
    let (state, action) = step(state, DecryptEvent::Decrypted(Ok(Vec::new())));
    assert!(matches!(action, DecryptAction::Close));
    assert!(matches!(state, DecryptState::Closed));
}
