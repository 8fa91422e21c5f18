use std::io::{self, Read};

use wrapperd::head::{
    find_head_end, http_body_too_large, read_http_head, HeadProgress, HttpHead, PartialHead,
    HEAD_CHUNK_BYTES, MAX_HTTP_BODY_BYTES, MAX_HTTP_HEAD_BYTES,
};

/// Reads a head from a stream, one chunk after the other.
fn read_head(reader: &mut impl Read) -> io::Result<HttpHead> {
    let mut partial = PartialHead::new();
    let mut chunk = [0u8; HEAD_CHUNK_BYTES];
    loop {
        let n = reader.read(&mut chunk)?;
        match read_http_head(partial, &chunk[..n]) {
            HeadProgress::Pending(more) => partial = more,
            HeadProgress::Finished(head) => return Ok(head),
        }
    }
}

/// Reads a head from a stream that delivers `step` bytes at a time.
fn read_head_in_steps(data: &[u8], step: usize) -> HttpHead {
    let mut partial = PartialHead::new();
    for chunk in data.chunks(step) {
        match read_http_head(partial, chunk) {
            HeadProgress::Pending(more) => partial = more,
            HeadProgress::Finished(head) => return head,
        }
    }
    match read_http_head(partial, &[]) {
        HeadProgress::Finished(head) => head,
        HeadProgress::Pending(_) => panic!("the end of the stream ends the head"),
    }
}

#[test]
fn http_body_cap_boundary() {
    assert!(!http_body_too_large(MAX_HTTP_BODY_BYTES));
    assert!(http_body_too_large(MAX_HTTP_BODY_BYTES + 1));
}

/// Reads everything the caller asks for, counting consumed bytes so tests can prove the head
/// read stops early.
struct CountingReader {
    data: Vec<u8>,
    pos: usize,
}

impl Read for CountingReader {
    fn read(&mut self, buf: &mut [u8]) -> io::Result<usize> {
        let n = (self.data.len() - self.pos).min(buf.len());
        buf[..n].copy_from_slice(&self.data[self.pos..self.pos + n]);
        self.pos += n;
        Ok(n)
    }
}

#[test]
fn http_head_read_stops_at_cap_without_terminator() {
    let mut reader = CountingReader {
        data: vec![b'x'; MAX_HTTP_HEAD_BYTES * 3],
        pos: 0,
    };
    match read_head(&mut reader).unwrap() {
        HttpHead::TooLarge => {}
        other => panic!("expected TooLarge, got {other:?}"),
    }
    // One chunk may overread past the cap before the check fires.
    assert!(reader.pos <= MAX_HTTP_HEAD_BYTES + 4096);
}

#[test]
fn http_head_read_returns_head_through_blank_line() {
    let mut reader: &[u8] = b"POST /login HTTP/1.1\r\nhost: x\r\n\r\n{\"a\":1}";
    match read_head(&mut reader).unwrap() {
        HttpHead::Read(head) => {
            assert!(head.starts_with(b"POST /login HTTP/1.1"));
            assert!(head.windows(4).any(|w| w == b"\r\n\r\n"));
        }
        other => panic!("expected Read, got {other:?}"),
    }
}

#[test]
fn http_head_read_reports_eof_without_terminator() {
    let mut reader: &[u8] = b"POST /login HTTP/1.1\r\n";
    match read_head(&mut reader).unwrap() {
        HttpHead::Eof => {}
        other => panic!("expected Eof, got {other:?}"),
    }
}

#[test]
fn caps_are_64_kib() {
    assert_eq!(MAX_HTTP_HEAD_BYTES, 65_536);
    assert_eq!(MAX_HTTP_BODY_BYTES, 65_536);
    assert_eq!(HEAD_CHUNK_BYTES, 4096);
}

#[test]
fn head_end_is_past_the_first_blank_line() {
    assert_eq!(find_head_end(b"a\r\n\r\nb", 0), Some(5));
    assert_eq!(find_head_end(b"a\n\nb", 0), Some(3));
    assert_eq!(find_head_end(b"a\n\nb\r\n\r\n", 0), Some(3));
    assert_eq!(find_head_end(b"a\r\n\r\nb\n\n", 0), Some(5));
    assert_eq!(find_head_end(b"a\r\n\nb", 0), Some(4));
    assert_eq!(find_head_end(b"", 0), None);
    assert_eq!(find_head_end(b"\n", 0), None);
    assert_eq!(find_head_end(b"a\r\n\r", 0), None);
    assert_eq!(find_head_end(b"a\r\nb\r\n", 0), None);
}

#[test]
fn head_end_is_sought_from_the_given_index() {
    assert_eq!(find_head_end(b"\n\nabc\n\n", 1), Some(7));
    assert_eq!(find_head_end(b"\n\nabc", 1), None);
    assert_eq!(find_head_end(b"\n\n", 2), None);
}

#[test]
fn a_blank_line_is_found_wherever_the_reads_cut_it() {
    let data = b"GET / HTTP/1.1\r\nhost: x\r\n\r\n";
    for step in 1..data.len() + 1 {
        match read_head_in_steps(data, step) {
            HttpHead::Read(head) => assert_eq!(head, data.to_vec()),
            other => panic!("expected Read with step {step}, got {other:?}"),
        }
    }
}

#[test]
fn reading_stops_with_the_read_that_ends_the_first_blank_line() {
    let data = b"GET / HTTP/1.1\r\n\r\nbody\n\nmore";
    let end = 18;
    for step in 1..data.len() + 1 {
        match read_head_in_steps(data, step) {
            HttpHead::Read(head) => {
                assert!(data.starts_with(&head));
                assert!(end <= head.len() && head.len() < end + step);
                assert_eq!(find_head_end(&head, 0), Some(end));
            }
            other => panic!("expected Read with step {step}, got {other:?}"),
        }
    }
}

#[test]
fn body_bytes_of_the_last_read_stay_in_the_head() {
    match read_head_in_steps(b"GET / HTTP/1.1\n\nbody", 64) {
        HttpHead::Read(head) => assert_eq!(head, b"GET / HTTP/1.1\n\nbody".to_vec()),
        other => panic!("expected Read, got {other:?}"),
    }
}

#[test]
fn the_cap_itself_is_still_accepted() {
    let mut partial = PartialHead::new();
    for _ in 0..MAX_HTTP_HEAD_BYTES / HEAD_CHUNK_BYTES {
        match read_http_head(partial, &[b'x'; HEAD_CHUNK_BYTES]) {
            HeadProgress::Pending(more) => partial = more,
            HeadProgress::Finished(head) => panic!("ended early: {head:?}"),
        }
    }
    assert!(matches!(
        read_http_head(partial, b"x"),
        HeadProgress::Finished(HttpHead::TooLarge)
    ));
}

#[test]
fn a_blank_line_in_the_last_read_wins_over_the_cap() {
    let mut data = vec![b'x'; MAX_HTTP_HEAD_BYTES];
    data.extend_from_slice(b"\r\n\r\n");
    match read_head_in_steps(&data, MAX_HTTP_HEAD_BYTES + 4) {
        HttpHead::Read(head) => assert_eq!(head.len(), MAX_HTTP_HEAD_BYTES + 4),
        other => panic!("expected Read, got {other:?}"),
    }
}
