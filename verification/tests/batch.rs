use wrapperd::batch::{
    build_decrypt_samples_payload, parse_decrypt_batch_payload, MAX_SAMPLE_BYTES,
};
use wrapperd::bytes::{copy_range, push_be32, read_be16, read_be32};
use wrapperd::error::IoErrorKind;

/// A batch with the given counts in its header, lengths in its table and bytes after it.
fn raw(adam_len: u16, uri_len: u16, count: u32, lengths: &[u32], rest: &[u8]) -> Vec<u8> {
    let mut out = Vec::new();
    out.extend_from_slice(&adam_len.to_be_bytes());
    out.extend_from_slice(&uri_len.to_be_bytes());
    out.extend_from_slice(&count.to_be_bytes());
    for len in lengths {
        out.extend_from_slice(&len.to_be_bytes());
    }
    out.extend_from_slice(rest);
    out
}

fn batch(adam: &str, uri: &str, samples: &[&[u8]]) -> Vec<u8> {
    let lengths: Vec<u32> = samples.iter().map(|s| s.len() as u32).collect();
    let mut rest = Vec::new();
    rest.extend_from_slice(adam.as_bytes());
    rest.extend_from_slice(uri.as_bytes());
    for sample in samples {
        rest.extend_from_slice(sample);
    }
    raw(adam.len() as u16, uri.len() as u16, samples.len() as u32, &lengths, &rest)
}

fn fault(body: &[u8]) -> String {
    let e = parse_decrypt_batch_payload(body).unwrap_err();
    assert_eq!(e.kind, IoErrorKind::InvalidData);
    e.message
}

#[test]
fn a_batch_is_taken_apart() {
    let body: &[u8] = &[
        0, 2, 0, 3, 0, 0, 0, 2, // lengths and count
        0, 0, 0, 1, 0, 0, 0, 4, // sample lengths
        b'1', b'2', b'u', b'r', b'i', // adam id and uri
        9, 1, 2, 3, 4, // samples
    ];
    let (adam, uri, samples) = parse_decrypt_batch_payload(body).unwrap();
    assert_eq!(adam, "12");
    assert_eq!(uri, "uri");
    assert_eq!(samples, vec![vec![9], vec![1, 2, 3, 4]]);
}

#[test]
fn a_batch_reads_back() {
    let samples: [&[u8]; 3] = [b"\x00", b"abc", b"\xff\xfe"];
    let (adam, uri, read) =
        parse_decrypt_batch_payload(&batch("id\u{e9}", "skd://key", &samples)).unwrap();
    assert_eq!(adam, "id\u{e9}");
    assert_eq!(uri, "skd://key");
    assert_eq!(read, vec![b"\x00".to_vec(), b"abc".to_vec(), b"\xff\xfe".to_vec()]);
    assert_eq!(batch(&adam, &uri, &[&read[0], &read[1], &read[2]]), batch(&adam, &uri, &samples));
}

#[test]
fn a_short_batch_is_refused() {
    assert_eq!(fault(b""), "decrypt batch too short");
    assert_eq!(fault(&[0, 1, 0, 1, 0, 0, 0]), "decrypt batch too short");
}

#[test]
fn empty_fields_are_refused() {
    assert_eq!(fault(&raw(0, 1, 1, &[1], b"ux")), "empty decrypt batch field");
    assert_eq!(fault(&raw(1, 0, 1, &[1], b"ax")), "empty decrypt batch field");
    assert_eq!(fault(&raw(1, 1, 0, &[], b"au")), "empty decrypt batch field");
}

#[test]
fn a_cut_header_is_refused() {
    assert_eq!(fault(&raw(1, 1, 1, &[], b"")), "truncated decrypt batch header");
    assert_eq!(fault(&raw(1, 1, 1, &[1], b"a")), "truncated decrypt batch header");
    assert_eq!(fault(&raw(1, 1, u32::MAX, &[1], b"aux")), "truncated decrypt batch header");
}

#[test]
fn sample_lengths_are_checked() {
    assert_eq!(MAX_SAMPLE_BYTES, 64 * 1024 * 1024);
    assert_eq!(fault(&raw(1, 1, 1, &[0], b"au")), "invalid decrypt sample length");
    assert_eq!(
        fault(&raw(1, 1, 1, &[MAX_SAMPLE_BYTES + 1], b"au")),
        "invalid decrypt sample length"
    );
    assert_eq!(fault(&raw(1, 1, 2, &[1, 0], b"\xffu")), "invalid decrypt sample length");
    assert_eq!(fault(&raw(1, 1, 1, &[MAX_SAMPLE_BYTES], b"au")), "truncated decrypt sample");
}

#[test]
fn texts_must_be_utf8() {
    assert_eq!(fault(&raw(1, 1, 1, &[1], b"\xffux")), "adam_id is not utf-8");
    assert_eq!(fault(&raw(1, 1, 1, &[1], b"a\xffx")), "uri is not utf-8");
    assert_eq!(fault(&raw(1, 1, 1, &[1], b"\xff\xffx")), "adam_id is not utf-8");
    assert_eq!(fault(&raw(1, 1, 1, &[1], b"\xc3\xa9x")), "adam_id is not utf-8");
}

#[test]
fn a_cut_sample_is_refused() {
    assert_eq!(fault(&raw(1, 1, 1, &[2], b"aux")), "truncated decrypt sample");
    assert_eq!(fault(&raw(1, 1, 2, &[1, 1], b"aux")), "truncated decrypt sample");
}

#[test]
fn trailing_bytes_are_refused() {
    assert_eq!(fault(&raw(1, 1, 1, &[1], b"auxy")), "trailing decrypt batch bytes");
}

#[test]
fn samples_are_sent_back() {
    let samples = vec![b"ab".to_vec(), Vec::new(), b"\xff".to_vec()];
    assert_eq!(
        build_decrypt_samples_payload(&samples).unwrap(),
        vec![0, 0, 0, 3, 0, 0, 0, 2, 0, 0, 0, 0, 0, 0, 0, 1, b'a', b'b', 0xff]
    );
    assert_eq!(build_decrypt_samples_payload(&[]).unwrap(), vec![0, 0, 0, 0]);
}

#[test]
fn different_samples_have_different_payloads() {
    let payload = |samples: &[&[u8]]| {
        let samples: Vec<Vec<u8>> = samples.iter().map(|s| s.to_vec()).collect();
        build_decrypt_samples_payload(&samples).unwrap()
    };
    assert_ne!(payload(&[b"ab", b"c"]), payload(&[b"a", b"bc"]));
    assert_ne!(payload(&[]), payload(&[b""]));
}

#[test]
fn numbers_are_big_endian() {
    assert_eq!(read_be16(&[9, 1, 2], 1), 258);
    assert_eq!(read_be32(&[1, 2, 3, 4], 0), 16_909_060);
    assert_eq!(read_be32(&[255; 4], 0), u32::MAX);
    let mut out = vec![7];
    push_be32(&mut out, 16_909_060);
    assert_eq!(out, vec![7, 1, 2, 3, 4]);
    assert_eq!(copy_range(&[1, 2, 3, 4], 1, 3), vec![2, 3]);
}
