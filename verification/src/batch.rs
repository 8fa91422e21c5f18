//! Payloads of the decrypt wire format: the batch that a client sends and the samples that it
//! gets back.
use vstd::prelude::*;
use vstd::utf8::{
    decode_utf8, decode_utf8_encode_utf8, encode_utf8, encode_utf8_decode_utf8,
    encode_utf8_valid_utf8, valid_utf8,
};

use crate::bytes::{
    be16, be16_bytes, be32, be32_bytes, concat, copy_range, four_bytes_are_big_endian,
    lemma_be16_bytes_of, lemma_be16_round_trip, lemma_be32_bytes_of, lemma_be32_round_trip,
    lemma_be_at, lemma_concat_injective, lemma_length_table_entry, lemma_length_table_len,
    length_table, parts_follow_one_another, push_all, push_be32, read_be16, read_be32,
    tables_hold_the_lengths, two_bytes_are_big_endian, views, written_four_bytes_are_big_endian,
};
use crate::error::{IoError, IoErrorKind};
use crate::text::string_from_utf8;

verus! {

/// The largest sample that a batch may carry, in bytes.
pub const MAX_SAMPLE_BYTES: u32 = 67_108_864;

/// Why a batch payload is refused.
#[derive(Clone, Copy, Debug, PartialEq, Eq, Structural)]
pub enum BatchFault {
    TooShort,
    EmptyField,
    TooLarge,
    TruncatedHeader,
    BadSampleLength,
    AdamNotUtf8,
    UriNotUtf8,
    TruncatedSample,
    TrailingBytes,
}

/// The text that the client gets for a refused batch.
pub open spec fn batch_fault_text(fault: BatchFault) -> Seq<char> {
    match fault {
        BatchFault::TooShort => "decrypt batch too short"@,
        BatchFault::EmptyField => "empty decrypt batch field"@,
        BatchFault::TooLarge => "decrypt batch too large"@,
        BatchFault::TruncatedHeader => "truncated decrypt batch header"@,
        BatchFault::BadSampleLength => "invalid decrypt sample length"@,
        BatchFault::AdamNotUtf8 => "adam_id is not utf-8"@,
        BatchFault::UriNotUtf8 => "uri is not utf-8"@,
        BatchFault::TruncatedSample => "truncated decrypt sample"@,
        BatchFault::TrailingBytes => "trailing decrypt batch bytes"@,
    }
}

/// The announced length of sample `i`.
pub open spec fn sample_len(body: Seq<u8>, i: int) -> nat {
    be32(body, 8 + 4 * i)
}

/// The announced length of the first `n` samples together.
pub open spec fn samples_len(body: Seq<u8>, n: nat) -> nat
    decreases n,
{
    if n == 0 {
        0
    } else {
        samples_len(body, (n - 1) as nat) + sample_len(body, n - 1)
    }
}

/// Whether a sample may have `n` bytes.
pub open spec fn sample_len_ok(n: nat) -> bool {
    0 < n <= MAX_SAMPLE_BYTES
}

/// Where the length table of a batch ends.
pub open spec fn table_end(body: Seq<u8>) -> int {
    8 + 4 * (be32(body, 4) as int)
}

/// Where the adam id of a batch ends and the uri begins.
pub open spec fn uri_start(body: Seq<u8>) -> int {
    table_end(body) + be16(body, 0)
}

/// Where the first sample of a batch begins.
pub open spec fn sample_start(body: Seq<u8>) -> int {
    uri_start(body) + be16(body, 2)
}

/// The first thing that is wrong with a batch payload, `None` for a good one.
///
/// The payload is the length of the adam id and of the uri, two bytes each, the number of
/// samples and the length of each, four bytes each, then the adam id, the uri and the samples.
pub open spec fn batch_fault(body: Seq<u8>) -> Option<BatchFault> {
    if body.len() < 8 {
        Some(BatchFault::TooShort)
    } else if be16(body, 0) == 0 || be16(body, 2) == 0 || be32(body, 4) == 0 {
        Some(BatchFault::EmptyField)
    } else if sample_start(body) > usize::MAX {
        Some(BatchFault::TooLarge)
    } else if body.len() < sample_start(body) {
        Some(BatchFault::TruncatedHeader)
    } else if exists|i: int| 0 <= i < be32(body, 4) && !sample_len_ok(#[trigger] sample_len(body, i)) {
        Some(BatchFault::BadSampleLength)
    } else if !valid_utf8(body.subrange(table_end(body), uri_start(body))) {
        Some(BatchFault::AdamNotUtf8)
    } else if !valid_utf8(body.subrange(uri_start(body), sample_start(body))) {
        Some(BatchFault::UriNotUtf8)
    } else if body.len() < sample_start(body) + samples_len(body, be32(body, 4)) {
        Some(BatchFault::TruncatedSample)
    } else if body.len() > sample_start(body) + samples_len(body, be32(body, 4)) {
        Some(BatchFault::TrailingBytes)
    } else {
        None
    }
}

/// The adam id in a batch payload.
pub open spec fn batch_adam(body: Seq<u8>) -> Seq<char> {
    decode_utf8(body.subrange(table_end(body), uri_start(body)))
}

/// The key uri in a batch payload.
pub open spec fn batch_uri(body: Seq<u8>) -> Seq<char> {
    decode_utf8(body.subrange(uri_start(body), sample_start(body)))
}

/// The first `n` samples in a batch payload.
pub open spec fn first_samples(body: Seq<u8>, n: nat) -> Seq<Seq<u8>> {
    Seq::new(
        n,
        |i: int|
            body.subrange(
                sample_start(body) + samples_len(body, i as nat),
                sample_start(body) + samples_len(body, (i + 1) as nat),
            ),
    )
}

/// The samples in a batch payload.
pub open spec fn batch_samples(body: Seq<u8>) -> Seq<Seq<u8>> {
    first_samples(body, be32(body, 4))
}

/// The payload that carries `adam`, `uri` and `samples`.
pub open spec fn batch_bytes(adam: Seq<char>, uri: Seq<char>, samples: Seq<Seq<u8>>) -> Seq<u8> {
    be16_bytes(encode_utf8(adam).len()) + be16_bytes(encode_utf8(uri).len()) + be32_bytes(
        samples.len(),
    ) + length_table(samples) + encode_utf8(adam) + encode_utf8(uri) + concat(samples)
}

/// Whether a batch payload can carry these values.
pub open spec fn batch_ok(adam: Seq<char>, uri: Seq<char>, samples: Seq<Seq<u8>>) -> bool {
    &&& 0 < encode_utf8(adam).len() < 0x1_0000
    &&& 0 < encode_utf8(uri).len() < 0x1_0000
    &&& 0 < samples.len() < 0x1_0000_0000
    &&& forall|i: int| 0 <= i < samples.len() ==> sample_len_ok(#[trigger] samples[i].len())
}

/// The error that reports `fault`.
fn batch_error(fault: BatchFault) -> (e: IoError)
    ensures
        e.kind == IoErrorKind::InvalidData,
        e.message@ == batch_fault_text(fault),
{
    let message: &str = match fault {
        BatchFault::TooShort => "decrypt batch too short",
        BatchFault::EmptyField => "empty decrypt batch field",
        BatchFault::TooLarge => "decrypt batch too large",
        BatchFault::TruncatedHeader => "truncated decrypt batch header",
        BatchFault::BadSampleLength => "invalid decrypt sample length",
        BatchFault::AdamNotUtf8 => "adam_id is not utf-8",
        BatchFault::UriNotUtf8 => "uri is not utf-8",
        BatchFault::TruncatedSample => "truncated decrypt sample",
        BatchFault::TrailingBytes => "trailing decrypt batch bytes",
    };
    IoError::new(IoErrorKind::InvalidData, message)
}

/// The announced length grows with every sample.
proof fn lemma_samples_len_monotone(body: Seq<u8>, m: nat, n: nat)
    requires
        m <= n,
    ensures
        samples_len(body, m) <= samples_len(body, n),
    decreases n,
{
    if m < n {
        lemma_samples_len_monotone(body, m, (n - 1) as nat);
    }
}

/// Reads the length table of a batch.
fn read_lengths(body: &[u8], count: usize) -> (r: Result<Vec<usize>, IoError>)
    requires
        8 + 4 * count <= body@.len(),
    ensures
        match r {
            Ok(lengths) => {
                &&& lengths@.len() == count
                &&& forall|i: int| 0 <= i < count ==> #[trigger] lengths@[i] == sample_len(body@, i)
                &&& forall|i: int| 0 <= i < count ==> sample_len_ok(#[trigger] sample_len(body@, i))
            },
            Err(e) => {
                &&& exists|i: int|
                    0 <= i < count && !sample_len_ok(#[trigger] sample_len(body@, i))
                &&& e.kind == IoErrorKind::InvalidData
                &&& e.message@ == batch_fault_text(BatchFault::BadSampleLength)
            },
        },
{
    let mut lengths: Vec<usize> = Vec::with_capacity(count);
    let mut i: usize = 0;
    while i < count
        invariant
            i <= count,
            8 + 4 * count <= body.len() == body@.len(),
            lengths@.len() == i,
            forall|j: int| 0 <= j < i ==> #[trigger] lengths@[j] == sample_len(body@, j),
            forall|j: int| 0 <= j < i ==> sample_len_ok(#[trigger] sample_len(body@, j)),
        decreases count - i,
    {
        let len: u32 = read_be32(body, 8 + i * 4);
        assert(len == sample_len(body@, i as int));
        if len == 0 || len > MAX_SAMPLE_BYTES {
            return Err(batch_error(BatchFault::BadSampleLength));
        }
        lengths.push(len as usize);
        i = i + 1;
    }
    Ok(lengths)
}

/// Reads the samples of a batch whose header is sound.
fn read_samples(body: &[u8], start: usize, lengths: &Vec<usize>) -> (r: Result<
    Vec<Vec<u8>>,
    IoError,
>)
    requires
        start == sample_start(body@),
        start <= body@.len(),
        forall|i: int|
            0 <= i < lengths@.len() ==> #[trigger] lengths@[i] == sample_len(body@, i),
    ensures
        ({
            let end = start + samples_len(body@, lengths@.len());
            match r {
                Ok(samples) => {
                    &&& body@.len() == end
                    &&& views(samples@) == first_samples(body@, lengths@.len())
                },
                Err(e) => {
                    &&& body@.len() != end
                    &&& e.kind == IoErrorKind::InvalidData
                    &&& e.message@ == batch_fault_text(
                        if body@.len() < end {
                            BatchFault::TruncatedSample
                        } else {
                            BatchFault::TrailingBytes
                        },
                    )
                },
            }
        }),
{
    let mut samples: Vec<Vec<u8>> = Vec::with_capacity(lengths.len());
    let mut offset: usize = start;
    let mut i: usize = 0;
    assert(views(samples@) =~= first_samples(body@, 0));
    while i < lengths.len()
        invariant
            start <= offset <= body@.len(),
            start == sample_start(body@),
            i <= lengths@.len(),
            forall|j: int|
                0 <= j < lengths@.len() ==> #[trigger] lengths@[j] == sample_len(body@, j),
            offset == start + samples_len(body@, i as nat),
            views(samples@) == first_samples(body@, i as nat),
        decreases lengths@.len() - i,
    {
        let len: usize = lengths[i];
        if len > body.len() - offset {
            proof {
                lemma_samples_len_monotone(body@, (i + 1) as nat, lengths@.len());
            }
            return Err(batch_error(BatchFault::TruncatedSample));
        }
        let end: usize = offset + len;
        let ghost before = views(samples@);
        let sample: Vec<u8> = copy_range(body, offset, end);
        samples.push(sample);
        proof {
            assert(views(samples@) =~= before.push(sample@));
            assert(views(samples@) =~= first_samples(body@, (i + 1) as nat));
        }
        offset = end;
        i = i + 1;
    }
    if offset != body.len() {
        return Err(batch_error(BatchFault::TrailingBytes));
    }
    Ok(samples)
}

/// Reads a batch payload: the adam id, the key uri and the encrypted samples. A payload is
/// accepted exactly when [`batch_fault`] finds nothing wrong with it.
pub fn parse_decrypt_batch_payload(body: &[u8]) -> (r: Result<
    (String, String, Vec<Vec<u8>>),
    IoError,
>)
    ensures
        match batch_fault(body@) {
            None => r matches Ok((adam, uri, samples)) && adam@ == batch_adam(body@) && uri@
                == batch_uri(body@) && views(samples@) == batch_samples(body@),
            Some(fault) => r matches Err(e) && e.kind == IoErrorKind::InvalidData && e.message@
                == batch_fault_text(fault),
        },
{
    if body.len() < 8 {
        return Err(batch_error(BatchFault::TooShort));
    }
    let adam_len: usize = read_be16(body, 0);
    let uri_len: usize = read_be16(body, 2);
    let sample_count: usize = read_be32(body, 4) as usize;
    if adam_len == 0 || uri_len == 0 || sample_count == 0 {
        return Err(batch_error(BatchFault::EmptyField));
    }
    let table_bytes: usize = match sample_count.checked_mul(4) {
        Some(n) => n,
        None => return Err(batch_error(BatchFault::TooLarge)),
    };
    let adam_start: usize = match table_bytes.checked_add(8) {
        Some(n) => n,
        None => return Err(batch_error(BatchFault::TooLarge)),
    };
    let uri_from: usize = match adam_start.checked_add(adam_len) {
        Some(n) => n,
        None => return Err(batch_error(BatchFault::TooLarge)),
    };
    let samples_from: usize = match uri_from.checked_add(uri_len) {
        Some(n) => n,
        None => return Err(batch_error(BatchFault::TooLarge)),
    };
    if body.len() < samples_from {
        return Err(batch_error(BatchFault::TruncatedHeader));
    }
    let lengths: Vec<usize> = match read_lengths(body, sample_count) {
        Ok(lengths) => lengths,
        Err(e) => return Err(e),
    };
    let adam: String = match string_from_utf8(copy_range(body, adam_start, uri_from)) {
        Some(s) => s,
        None => return Err(batch_error(BatchFault::AdamNotUtf8)),
    };
    let uri: String = match string_from_utf8(copy_range(body, uri_from, samples_from)) {
        Some(s) => s,
        None => return Err(batch_error(BatchFault::UriNotUtf8)),
    };
    let samples: Vec<Vec<u8>> = match read_samples(body, samples_from, &lengths) {
        Ok(samples) => samples,
        Err(e) => return Err(e),
    };
    Ok((adam, uri, samples))
}

/// Where the parts of a batch payload are.
proof fn lemma_batch_layout(adam: Seq<char>, uri: Seq<char>, samples: Seq<Seq<u8>>)
    requires
        batch_ok(adam, uri, samples),
    ensures
        ({
            let body = batch_bytes(adam, uri, samples);
            &&& body.len() == sample_start(body) + concat(samples).len()
            &&& be16(body, 0) == encode_utf8(adam).len()
            &&& be16(body, 2) == encode_utf8(uri).len()
            &&& be32(body, 4) == samples.len()
            &&& body.subrange(table_end(body), uri_start(body)) == encode_utf8(adam)
            &&& body.subrange(uri_start(body), sample_start(body)) == encode_utf8(uri)
            &&& body.subrange(sample_start(body), body.len() as int) == concat(samples)
            &&& forall|i: int|
                0 <= i < samples.len() ==> #[trigger] sample_len(body, i) == samples[i].len()
        }),
{
    let (a, u, n) = (encode_utf8(adam).len(), encode_utf8(uri).len(), samples.len());
    let body = batch_bytes(adam, uri, samples);
    lemma_length_table_len(samples);
    lemma_be16_round_trip(a);
    lemma_be16_round_trip(u);
    lemma_be32_round_trip(n);
    assert(body.subrange(0, 2) =~= be16_bytes(a));
    assert(body.subrange(2, 4) =~= be16_bytes(u));
    assert(body.subrange(4, 8) =~= be32_bytes(n));
    lemma_be_at(body, 0, be16_bytes(a));
    lemma_be_at(body, 2, be16_bytes(u));
    lemma_be_at(body, 4, be32_bytes(n));
    assert(body.subrange(table_end(body), uri_start(body)) =~= encode_utf8(adam));
    assert(body.subrange(uri_start(body), sample_start(body)) =~= encode_utf8(uri));
    assert(body.subrange(sample_start(body), body.len() as int) =~= concat(samples));
    assert forall|i: int| 0 <= i < samples.len() implies #[trigger] sample_len(body, i)
        == samples[i].len() by {
        let entry = be32_bytes(samples[i].len());
        assert(sample_len_ok(samples[i].len()));
        lemma_length_table_entry(samples, i);
        lemma_be32_round_trip(samples[i].len());
        assert(body.subrange(8 + 4 * i, 8 + 4 * i + 4) =~= length_table(samples).subrange(
            4 * i,
            4 * i + 4,
        ));
        lemma_be_at(body, 8 + 4 * i, entry);
    }
}

/// The announced lengths add up to the length of the samples.
proof fn lemma_samples_len(body: Seq<u8>, samples: Seq<Seq<u8>>)
    requires
        forall|i: int|
            0 <= i < samples.len() ==> #[trigger] sample_len(body, i) == samples[i].len(),
    ensures
        samples_len(body, samples.len()) == concat(samples).len(),
    decreases samples.len(),
{
    if samples.len() > 0 {
        let front = samples.drop_last();
        assert forall|i: int| 0 <= i < front.len() implies #[trigger] sample_len(body, i)
            == front[i].len() by {}
        lemma_samples_len(body, front);
        assert(sample_len(body, samples.len() - 1) == samples.last().len());
    }
}

/// What is read from a batch payload is what was put into it: every batch that the format can
/// carry is accepted and read back. The payload has to fit in memory.
pub proof fn batch_reads_back(adam: Seq<char>, uri: Seq<char>, samples: Seq<Seq<u8>>)
    requires
        batch_ok(adam, uri, samples),
        batch_bytes(adam, uri, samples).len() <= usize::MAX,
    ensures
        batch_fault(batch_bytes(adam, uri, samples)) is None,
        batch_adam(batch_bytes(adam, uri, samples)) == adam,
        batch_uri(batch_bytes(adam, uri, samples)) == uri,
        batch_samples(batch_bytes(adam, uri, samples)) == samples,
{
    let body = batch_bytes(adam, uri, samples);
    lemma_batch_layout(adam, uri, samples);
    lemma_samples_len(body, samples);
    encode_utf8_valid_utf8(adam);
    encode_utf8_valid_utf8(uri);
    encode_utf8_decode_utf8(adam);
    encode_utf8_decode_utf8(uri);
    assert forall|i: int| 0 <= i < be32(body, 4) implies sample_len_ok(
        #[trigger] sample_len(body, i),
    ) by {
        assert(sample_len_ok(samples[i].len()));
    }
    lemma_first_samples(body, samples.len());
    let read = batch_samples(body);
    assert forall|i: int| 0 <= i < read.len() implies #[trigger] read[i].len()
        == samples[i].len() by {
        assert(sample_len(body, i) == samples[i].len());
    }
    lemma_concat_injective(read, samples);
}

/// The samples of a batch follow one another, and their lengths are in the table.
proof fn lemma_first_samples(body: Seq<u8>, n: nat)
    requires
        8 + 4 * n <= sample_start(body),
        sample_start(body) + samples_len(body, n) <= body.len(),
    ensures
        forall|i: int| 0 <= i < n ==> #[trigger] first_samples(body, n)[i].len() == sample_len(body, i),
        length_table(first_samples(body, n)) == body.subrange(8, 8 + 4 * n as int),
        concat(first_samples(body, n)) == body.subrange(
            sample_start(body),
            sample_start(body) + samples_len(body, n),
        ),
    decreases n,
{
    let start = sample_start(body);
    let all = first_samples(body, n);
    if n == 0 {
        assert(length_table(all) =~= body.subrange(8, 8));
        assert(concat(all) =~= body.subrange(start, start));
    } else {
        let m = (n - 1) as nat;
        let front = first_samples(body, m);
        lemma_first_samples(body, m);
        assert(all.drop_last() =~= front);
        assert forall|i: int| 0 <= i < n implies #[trigger] all[i].len() == sample_len(body, i) by {
            if i < m {
                assert(all[i] == front[i]);
            }
        }
        lemma_be32_bytes_of(body, 8 + 4 * m as int);
        assert(body.subrange(8, 8 + 4 * n as int) =~= body.subrange(8, 8 + 4 * m as int)
            + body.subrange(8 + 4 * m as int, 8 + 4 * m as int + 4));
        assert(body.subrange(start, start + samples_len(body, n)) =~= body.subrange(
            start,
            start + samples_len(body, m),
        ) + all.last());
    }
}

/// There is one way to write a batch: an accepted payload is the payload of what is read from
/// it.
pub proof fn accepted_batch_is_canonical(body: Seq<u8>)
    requires
        batch_fault(body) is None,
    ensures
        batch_ok(batch_adam(body), batch_uri(body), batch_samples(body)),
        body == batch_bytes(batch_adam(body), batch_uri(body), batch_samples(body)),
{
    let samples = batch_samples(body);
    let adam_bytes = body.subrange(table_end(body), uri_start(body));
    let uri_bytes = body.subrange(uri_start(body), sample_start(body));
    decode_utf8_encode_utf8(adam_bytes);
    decode_utf8_encode_utf8(uri_bytes);
    lemma_be16_bytes_of(body, 0);
    lemma_be16_bytes_of(body, 2);
    lemma_be32_bytes_of(body, 4);
    lemma_first_samples(body, be32(body, 4));
    assert forall|k: int| 0 <= k < samples.len() implies sample_len_ok(
        #[trigger] samples[k].len(),
    ) by {
        assert(sample_len_ok(sample_len(body, k)));
    }
    assert(body =~= body.subrange(0, 2) + body.subrange(2, 4) + body.subrange(4, 8)
        + body.subrange(8, table_end(body)) + adam_bytes + uri_bytes + body.subrange(
        sample_start(body),
        body.len() as int,
    ));
}

/// Why samples cannot be sent back.
#[derive(Clone, Copy, Debug, PartialEq, Eq, Structural)]
pub enum SamplesFault {
    TooManySamples,
    SampleTooLarge,
    ResponseTooLarge,
}

/// The text that reports samples which cannot be sent back.
pub open spec fn samples_fault_text(fault: SamplesFault) -> Seq<char> {
    match fault {
        SamplesFault::TooManySamples => "too many decrypt samples"@,
        SamplesFault::SampleTooLarge => "decrypt sample too large"@,
        SamplesFault::ResponseTooLarge => "decrypt response too large"@,
    }
}

/// The payload that sends `samples` back: how many there are, how long each is, then the
/// samples.
pub open spec fn samples_bytes(samples: Seq<Seq<u8>>) -> Seq<u8> {
    be32_bytes(samples.len()) + length_table(samples) + concat(samples)
}

/// The first of the first `n` samples that is too long, or with which the payload gets too
/// long.
pub open spec fn sizes_fault(samples: Seq<Seq<u8>>, n: nat) -> Option<SamplesFault>
    decreases n,
{
    if n == 0 {
        None
    } else if sizes_fault(samples, (n - 1) as nat) is Some {
        sizes_fault(samples, (n - 1) as nat)
    } else if samples[n - 1].len() > u32::MAX {
        Some(SamplesFault::SampleTooLarge)
    } else if 4 + 4 * samples.len() + concat(samples.take(n as int)).len() > usize::MAX {
        Some(SamplesFault::ResponseTooLarge)
    } else {
        None
    }
}

/// What keeps `samples` from being sent back, `None` if nothing does.
pub open spec fn samples_fault(samples: Seq<Seq<u8>>) -> Option<SamplesFault> {
    if samples.len() > u32::MAX {
        Some(SamplesFault::TooManySamples)
    } else if 4 + 4 * samples.len() > usize::MAX {
        Some(SamplesFault::ResponseTooLarge)
    } else {
        sizes_fault(samples, samples.len())
    }
}

/// The error that reports `fault`.
fn samples_error(fault: SamplesFault) -> (e: IoError)
    ensures
        e.kind == IoErrorKind::InvalidInput,
        e.message@ == samples_fault_text(fault),
{
    let message: &str = match fault {
        SamplesFault::TooManySamples => "too many decrypt samples",
        SamplesFault::SampleTooLarge => "decrypt sample too large",
        SamplesFault::ResponseTooLarge => "decrypt response too large",
    };
    IoError::new(IoErrorKind::InvalidInput, message)
}

/// One more sample makes the concatenation longer by that sample.
proof fn lemma_concat_take(parts: Seq<Seq<u8>>, n: int)
    requires
        0 <= n < parts.len(),
    ensures
        concat(parts.take(n + 1)) == concat(parts.take(n)) + parts[n],
        length_table(parts.take(n + 1)) == length_table(parts.take(n)) + be32_bytes(
            parts[n].len(),
        ),
{
    assert(parts.take(n + 1).drop_last() =~= parts.take(n));
    assert(parts.take(n + 1).last() == parts[n]);
}

/// What stops the first samples stops all of them.
proof fn lemma_sizes_fault_stays(samples: Seq<Seq<u8>>, m: nat, n: nat)
    requires
        m <= n,
        sizes_fault(samples, m) is Some,
    ensures
        sizes_fault(samples, n) == sizes_fault(samples, m),
    decreases n,
{
    if m < n {
        lemma_sizes_fault_stays(samples, m, (n - 1) as nat);
    }
}

/// Without a fault every sample has a length of four bytes.
proof fn lemma_no_sizes_fault(samples: Seq<Seq<u8>>, n: nat)
    requires
        n <= samples.len(),
        sizes_fault(samples, n) is None,
    ensures
        forall|i: int| 0 <= i < n ==> #[trigger] samples[i].len() <= u32::MAX,
    decreases n,
{
    if n > 0 {
        lemma_no_sizes_fault(samples, (n - 1) as nat);
    }
}

/// The size of the payload that sends `samples` back.
fn samples_payload_size(samples: &[Vec<u8>]) -> (r: Result<usize, IoError>)
    ensures
        match samples_fault(views(samples@)) {
            None => r matches Ok(size) && size == samples_bytes(views(samples@)).len(),
            Some(fault) => r matches Err(e) && e.kind == IoErrorKind::InvalidInput && e.message@
                == samples_fault_text(fault),
        },
{
    let ghost all = views(samples@);
    if samples.len() > u32::MAX as usize {
        return Err(samples_error(SamplesFault::TooManySamples));
    }
    let table_bytes: usize = match samples.len().checked_mul(4) {
        Some(n) => n,
        None => return Err(samples_error(SamplesFault::ResponseTooLarge)),
    };
    let mut size: usize = match table_bytes.checked_add(4) {
        Some(n) => n,
        None => return Err(samples_error(SamplesFault::ResponseTooLarge)),
    };
    let mut i: usize = 0;
    while i < samples.len()
        invariant
            i <= samples.len() == samples@.len(),
            all == views(samples@),
            all.len() <= u32::MAX,
            4 + 4 * all.len() <= usize::MAX,
            size == 4 + 4 * all.len() + concat(all.take(i as int)).len(),
            sizes_fault(all, i as nat) is None,
        decreases samples@.len() - i,
    {
        let len: usize = samples[i].len();
        proof {
            lemma_concat_take(all, i as int);
        }
        if len > u32::MAX as usize {
            proof {
                lemma_sizes_fault_stays(all, (i + 1) as nat, all.len());
            }
            return Err(samples_error(SamplesFault::SampleTooLarge));
        }
        size = match size.checked_add(len) {
            Some(n) => n,
            None => {
                proof {
                    lemma_sizes_fault_stays(all, (i + 1) as nat, all.len());
                }
                return Err(samples_error(SamplesFault::ResponseTooLarge))
            },
        };
        i = i + 1;
    }
    proof {
        lemma_length_table_len(all);
        assert(all.take(all.len() as int) =~= all);
    }
    Ok(size)
}

/// Writes the payload that sends `samples` back to the client.
pub fn build_decrypt_samples_payload(samples: &[Vec<u8>]) -> (r: Result<Vec<u8>, IoError>)
    ensures
        match samples_fault(views(samples@)) {
            None => r matches Ok(payload) && payload@ == samples_bytes(views(samples@)),
            Some(fault) => r matches Err(e) && e.kind == IoErrorKind::InvalidInput && e.message@
                == samples_fault_text(fault),
        },
{
    let size: usize = match samples_payload_size(samples) {
        Ok(size) => size,
        Err(e) => return Err(e),
    };
    let ghost all = views(samples@);
    proof {
        lemma_no_sizes_fault(all, all.len());
    }
    let mut out: Vec<u8> = Vec::with_capacity(size);
    push_be32(&mut out, samples.len() as u32);
    let ghost count = be32_bytes(all.len());
    assert(out@ =~= count + length_table(all.take(0)));
    let mut i: usize = 0;
    while i < samples.len()
        invariant
            i <= samples.len() == samples@.len(),
            all == views(samples@),
            forall|j: int| 0 <= j < all.len() ==> #[trigger] all[j].len() <= u32::MAX,
            out@ == count + length_table(all.take(i as int)),
        decreases samples@.len() - i,
    {
        proof {
            lemma_concat_take(all, i as int);
            assert(all[i as int].len() <= u32::MAX);
        }
        push_be32(&mut out, samples[i].len() as u32);
        assert(out@ =~= count + length_table(all.take(i + 1)));
        i = i + 1;
    }
    assert(all.take(all.len() as int) =~= all);
    assert(out@ =~= count + length_table(all) + concat(all.take(0)));
    let mut k: usize = 0;
    while k < samples.len()
        invariant
            k <= samples.len() == samples@.len(),
            all == views(samples@),
            out@ == count + length_table(all) + concat(all.take(k as int)),
        decreases samples@.len() - k,
    {
        proof {
            lemma_concat_take(all, k as int);
        }
        push_all(&mut out, samples[k].as_slice());
        assert(out@ =~= count + length_table(all) + concat(all.take(k + 1)));
        k = k + 1;
    }
    Ok(out)
}

/// A payload of samples says which samples it carries: the client reads back what was sent.
pub proof fn samples_are_unambiguous(a: Seq<Seq<u8>>, b: Seq<Seq<u8>>)
    requires
        samples_fault(a) is None,
        samples_fault(b) is None,
        samples_bytes(a) == samples_bytes(b),
    ensures
        a == b,
{
    let (pa, pb) = (samples_bytes(a), samples_bytes(b));
    lemma_no_sizes_fault(a, a.len());
    lemma_no_sizes_fault(b, b.len());
    lemma_length_table_len(a);
    lemma_length_table_len(b);
    lemma_be32_round_trip(a.len());
    lemma_be32_round_trip(b.len());
    assert(pa.subrange(0, 4) =~= be32_bytes(a.len()));
    assert(pb.subrange(0, 4) =~= be32_bytes(b.len()));
    assert forall|i: int| 0 <= i < a.len() implies #[trigger] a[i].len() == b[i].len() by {
        lemma_length_table_entry(a, i);
        lemma_length_table_entry(b, i);
        lemma_be32_round_trip(a[i].len());
        lemma_be32_round_trip(b[i].len());
        assert(pa.subrange(4 + 4 * i, 8 + 4 * i) =~= length_table(a).subrange(4 * i, 4 * i + 4));
        assert(pb.subrange(4 + 4 * i, 8 + 4 * i) =~= length_table(b).subrange(4 * i, 4 * i + 4));
    }
    assert(pa.subrange(4 + 4 * a.len() as int, pa.len() as int) =~= concat(a));
    assert(pb.subrange(4 + 4 * b.len() as int, pb.len() as int) =~= concat(b));
    lemma_concat_injective(a, b);
}

/// A table whose entries hold the lengths of `samples` is their length table.
proof fn lemma_table_of(body: Seq<u8>, samples: Seq<Seq<u8>>)
    requires
        8 + 4 * samples.len() <= body.len(),
        forall|i: int|
            0 <= i < samples.len() ==> #[trigger] samples[i].len() == be32(body, 8 + 4 * i),
    ensures
        body.subrange(8, 8 + 4 * samples.len() as int) == length_table(samples),
    decreases samples.len(),
{
    if samples.len() == 0 {
        assert(body.subrange(8, 8) =~= length_table(samples));
    } else {
        let front = samples.drop_last();
        let m = front.len() as int;
        assert forall|i: int| 0 <= i < front.len() implies #[trigger] front[i].len() == be32(
            body,
            8 + 4 * i,
        ) by {
            assert(front[i] == samples[i]);
        }
        lemma_table_of(body, front);
        assert(samples[m].len() == be32(body, 8 + 4 * m));
        lemma_be32_bytes_of(body, 8 + 4 * m);
        assert(body.subrange(8, 8 + 4 * samples.len() as int) =~= body.subrange(8, 8 + 4 * m)
            + body.subrange(8 + 4 * m, 8 + 4 * m + 4));
    }
}

/// A payload is accepted if its bytes are laid out as a batch, whatever the sizes: the lengths of
/// the adam id and of the uri, two bytes each, the number of samples and the length of each, four
/// bytes each, all counted in base 256 with the first byte counting most, then the adam id, the
/// uri and the samples, one after the other. What is read is what was laid out.
pub proof fn laid_out_batches_are_read(
    body: Seq<u8>,
    adam: Seq<char>,
    uri: Seq<char>,
    samples: Seq<Seq<u8>>,
)
    requires
        body.len() <= usize::MAX,
        0 < encode_utf8(adam).len() < 65536,
        0 < encode_utf8(uri).len() < 65536,
        0 < samples.len() < 4294967296,
        forall|i: int| 0 <= i < samples.len() ==> 0 < #[trigger] samples[i].len() <= 67108864,
        8 + 4 * samples.len() <= body.len(),
        body[0] * 256 + body[1] == encode_utf8(adam).len(),
        body[2] * 256 + body[3] == encode_utf8(uri).len(),
        body[4] * 16777216 + body[5] * 65536 + body[6] * 256 + body[7] == samples.len(),
        forall|i: int|
            0 <= i < samples.len() ==> body[8 + 4 * i] * 16777216 + body[9 + 4 * i] * 65536
                + body[10 + 4 * i] * 256 + body[11 + 4 * i] == #[trigger] samples[i].len(),
        body.skip(8 + 4 * samples.len() as int) == encode_utf8(adam) + encode_utf8(uri)
            + samples.flatten(),
    ensures
        batch_fault(body) is None,
        batch_adam(body) == adam,
        batch_uri(body) == uri,
        batch_samples(body) == samples,
{
    let n = samples.len() as int;
    four_bytes_are_big_endian(body, 4);
    assert forall|i: int| 0 <= i < samples.len() implies #[trigger] samples[i].len() == be32(
        body,
        8 + 4 * i,
    ) by {
        four_bytes_are_big_endian(body, 8 + 4 * i);
    }
    two_bytes_are_big_endian(body, 0);
    two_bytes_are_big_endian(body, 2);
    lemma_table_of(body, samples);
    lemma_be16_bytes_of(body, 0);
    lemma_be16_bytes_of(body, 2);
    lemma_be32_bytes_of(body, 4);
    parts_follow_one_another(samples);
    assert(body =~= body.subrange(0, 2) + body.subrange(2, 4) + body.subrange(4, 8)
        + body.subrange(8, 8 + 4 * n) + body.skip(8 + 4 * n));
    assert(body =~= batch_bytes(adam, uri, samples));
    assert forall|i: int| 0 <= i < samples.len() implies sample_len_ok(
        #[trigger] samples[i].len(),
    ) by {}
    batch_reads_back(adam, uri, samples);
}

/// The parts of an accepted payload.
proof fn lemma_accepted_parts(body: Seq<u8>)
    requires
        batch_fault(body) is None,
    ensures
        encode_utf8(batch_adam(body)) == body.subrange(table_end(body), uri_start(body)),
        encode_utf8(batch_uri(body)) == body.subrange(uri_start(body), sample_start(body)),
        batch_samples(body).len() == be32(body, 4),
        forall|i: int|
            0 <= i < be32(body, 4) ==> #[trigger] batch_samples(body)[i].len() == sample_len(body, i)
                && 0 < sample_len(body, i) <= 67108864,
        concat(batch_samples(body)) == body.subrange(sample_start(body), body.len() as int),
{
    decode_utf8_encode_utf8(body.subrange(table_end(body), uri_start(body)));
    decode_utf8_encode_utf8(body.subrange(uri_start(body), sample_start(body)));
    lemma_first_samples(body, be32(body, 4));
    assert forall|i: int| 0 <= i < be32(body, 4) implies #[trigger] batch_samples(body)[i].len()
        == sample_len(body, i) && 0 < sample_len(body, i) <= 67108864 by {
        assert(sample_len_ok(sample_len(body, i)));
    }
}

/// An accepted payload is laid out as a batch of what is read from it.
pub proof fn read_batches_are_laid_out(body: Seq<u8>)
    requires
        batch_fault(body) is None,
    ensures
        ({
            let (adam, uri) = (encode_utf8(batch_adam(body)), encode_utf8(batch_uri(body)));
            let samples = batch_samples(body);
            &&& 0 < adam.len() < 65536
            &&& 0 < uri.len() < 65536
            &&& 0 < samples.len() < 4294967296
            &&& 8 + 4 * samples.len() <= body.len()
            &&& body[0] * 256 + body[1] == adam.len()
            &&& body[2] * 256 + body[3] == uri.len()
            &&& body[4] * 16777216 + body[5] * 65536 + body[6] * 256 + body[7] == samples.len()
            &&& forall|i: int|
                0 <= i < samples.len() ==> 0 < #[trigger] samples[i].len() <= 67108864 && body[8
                    + 4 * i] * 16777216 + body[9 + 4 * i] * 65536 + body[10 + 4 * i] * 256 + body[11
                    + 4 * i] == samples[i].len()
            &&& body.skip(8 + 4 * samples.len() as int) == adam + uri + samples.flatten()
        }),
{
    let (adam, uri) = (encode_utf8(batch_adam(body)), encode_utf8(batch_uri(body)));
    let samples = batch_samples(body);
    lemma_accepted_parts(body);
    parts_follow_one_another(samples);
    two_bytes_are_big_endian(body, 0);
    two_bytes_are_big_endian(body, 2);
    four_bytes_are_big_endian(body, 4);
    assert forall|i: int| 0 <= i < samples.len() implies 0 < #[trigger] samples[i].len()
        <= 67108864 && body[8 + 4 * i] * 16777216 + body[9 + 4 * i] * 65536 + body[10 + 4 * i] * 256
        + body[11 + 4 * i] == samples[i].len() by {
        four_bytes_are_big_endian(body, 8 + 4 * i);
    }
    assert(body.skip(table_end(body)) =~= adam + uri + samples.flatten());
}

/// Bodies that agree on their tables announce the same lengths.
proof fn lemma_same_table(a: Seq<u8>, b: Seq<u8>, n: nat)
    requires
        8 + 4 * n <= a.len(),
        8 + 4 * n <= b.len(),
        forall|i: int| 0 <= i < 8 + 4 * n ==> #[trigger] a[i] == b[i],
    ensures
        forall|i: int| 0 <= i < n ==> #[trigger] sample_len(a, i) == sample_len(b, i),
        samples_len(a, n) == samples_len(b, n),
    decreases n,
{
    if n > 0 {
        lemma_same_table(a, b, (n - 1) as nat);
        let k = 8 + 4 * (n - 1);
        assert(a[k] == b[k] && a[k + 1] == b[k + 1] && a[k + 2] == b[k + 2] && a[k + 3] == b[k
            + 3]);
    }
}

/// The fault of a payload that agrees with an accepted one as far as both go.
proof fn lemma_fault_of_other_length(body: Seq<u8>, other: Seq<u8>)
    requires
        batch_fault(body) is None,
        other.len() >= 8,
        forall|i: int| 0 <= i < body.len() && i < other.len() ==> #[trigger] body[i] == other[i],
    ensures
        other.len() < sample_start(body) ==> batch_fault(other) == Some(
            BatchFault::TruncatedHeader,
        ),
        sample_start(body) <= other.len() < body.len() ==> batch_fault(other) == Some(
            BatchFault::TruncatedSample,
        ),
        other.len() > body.len() ==> batch_fault(other) == Some(BatchFault::TrailingBytes),
{
    assert(body[0] == other[0] && body[1] == other[1] && body[2] == other[2] && body[3] == other[3]
        && body[4] == other[4] && body[5] == other[5] && body[6] == other[6] && body[7]
        == other[7]);
    assert(be16(other, 0) == be16(body, 0) && be16(other, 2) == be16(body, 2));
    assert(be32(other, 4) == be32(body, 4));
    if other.len() >= sample_start(body) {
        lemma_same_table(body, other, be32(body, 4));
        assert forall|i: int| 0 <= i < be32(other, 4) implies sample_len_ok(
            #[trigger] sample_len(other, i),
        ) by {
            assert(sample_len_ok(sample_len(body, i)));
        }
        assert(other.subrange(table_end(other), uri_start(other)) =~= body.subrange(
            table_end(body),
            uri_start(body),
        ));
        assert(other.subrange(uri_start(other), sample_start(other)) =~= body.subrange(
            uri_start(body),
            sample_start(body),
        ));
    }
}

/// A batch that is cut anywhere is refused, and the text says in which part it was cut.
pub proof fn cut_batches_are_refused(body: Seq<u8>, n: nat)
    requires
        batch_fault(body) is None,
        n < body.len(),
    ensures
        ({
            let fault = batch_fault(body.take(n as int));
            let fixed = 8 + 4 * batch_samples(body).len() + encode_utf8(batch_adam(body)).len()
                + encode_utf8(batch_uri(body)).len();
            &&& fault is Some
            &&& n < 8 ==> batch_fault_text(fault->0) == "decrypt batch too short"@
            &&& 8 <= n < fixed ==> batch_fault_text(fault->0) == "truncated decrypt batch header"@
            &&& fixed <= n ==> batch_fault_text(fault->0) == "truncated decrypt sample"@
        }),
{
    lemma_accepted_parts(body);
    if n >= 8 {
        lemma_fault_of_other_length(body, body.take(n as int));
    }
}

/// A batch with anything after it is refused.
pub proof fn extended_batches_are_refused(body: Seq<u8>, tail: Seq<u8>)
    requires
        batch_fault(body) is None,
        tail.len() > 0,
    ensures
        batch_fault(body + tail) is Some,
        batch_fault_text(batch_fault(body + tail)->0) == "trailing decrypt batch bytes"@,
{
    lemma_fault_of_other_length(body, body + tail);
}

/// A payload whose header announces an empty adam id, an empty uri or no samples is refused for
/// that, whatever follows the header.
pub proof fn empty_batches_are_refused(body: Seq<u8>)
    requires
        body.len() >= 8,
        (body[0] == 0 && body[1] == 0) || (body[2] == 0 && body[3] == 0) || (body[4] == 0 && body[5]
            == 0 && body[6] == 0 && body[7] == 0),
    ensures
        batch_fault(body) is Some,
        batch_fault_text(batch_fault(body)->0) == "empty decrypt batch field"@,
{
}

/// A payload that ends before the adam id, the uri and the table that it announces is refused for
/// that, and so is one that announces more than a machine can address.
pub proof fn headers_past_the_end_are_refused(body: Seq<u8>)
    requires
        body.len() >= 8,
        body[0] * 256 + body[1] > 0,
        body[2] * 256 + body[3] > 0,
        body[4] * 16777216 + body[5] * 65536 + body[6] * 256 + body[7] > 0,
    ensures
        ({
            let end = 8 + 4 * (body[4] * 16777216 + body[5] * 65536 + body[6] * 256 + body[7]) + (
            body[0] * 256 + body[1]) + (body[2] * 256 + body[3]);
            let fault = batch_fault(body);
            &&& end > usize::MAX ==> fault is Some && batch_fault_text(fault->0)
                == "decrypt batch too large"@
            &&& body.len() < end <= usize::MAX ==> fault is Some && batch_fault_text(fault->0)
                == "truncated decrypt batch header"@
        }),
{
    four_bytes_are_big_endian(body, 4);
    two_bytes_are_big_endian(body, 0);
    two_bytes_are_big_endian(body, 2);
}

/// A payload that reaches past its header is refused if any sample, here the `i`th, is announced
/// as empty or as longer than 64 MiB; if none is, then for an adam id that is not UTF-8, and then
/// for a uri that is not UTF-8.
pub proof fn unsound_batches_are_refused(body: Seq<u8>, i: int)
    requires
        8 <= body.len() <= usize::MAX,
        body[0] * 256 + body[1] > 0,
        body[2] * 256 + body[3] > 0,
        0 <= i < body[4] * 16777216 + body[5] * 65536 + body[6] * 256 + body[7],
        8 + 4 * (body[4] * 16777216 + body[5] * 65536 + body[6] * 256 + body[7]) + (body[0] * 256
            + body[1]) + (body[2] * 256 + body[3]) <= body.len(),
    ensures
        ({
            let count = body[4] * 16777216 + body[5] * 65536 + body[6] * 256 + body[7];
            let adam_from = 8 + 4 * count;
            let uri_from = adam_from + body[0] * 256 + body[1];
            let samples_from = uri_from + body[2] * 256 + body[3];
            let length = body[8 + 4 * i] * 16777216 + body[9 + 4 * i] * 65536 + body[10 + 4 * i]
                * 256 + body[11 + 4 * i];
            let sound_lengths = forall|k: int|
                #![trigger sample_len(body, k)]
                0 <= k < count ==> 0 < body[8 + 4 * k] * 16777216 + body[9 + 4 * k] * 65536
                    + body[10 + 4 * k] * 256 + body[11 + 4 * k] <= 67108864;
            let sound_adam = valid_utf8(body.subrange(adam_from, uri_from));
            let sound_uri = valid_utf8(body.subrange(uri_from, samples_from));
            let fault = batch_fault(body);
            &&& length == 0 || length > 67108864 ==> fault is Some && batch_fault_text(fault->0)
                == "invalid decrypt sample length"@
            &&& sound_lengths && !sound_adam ==> fault is Some && batch_fault_text(fault->0)
                == "adam_id is not utf-8"@
            &&& sound_lengths && sound_adam && !sound_uri ==> fault is Some && batch_fault_text(
                fault->0,
            ) == "uri is not utf-8"@
        }),
{
    four_bytes_are_big_endian(body, 4);
    two_bytes_are_big_endian(body, 0);
    two_bytes_are_big_endian(body, 2);
    assert forall|k: int| 0 <= k < be32(body, 4) implies #[trigger] sample_len(body, k) == body[8
        + 4 * k] * 16777216 + body[9 + 4 * k] * 65536 + body[10 + 4 * k] * 256 + body[11
        + 4 * k] by {
        four_bytes_are_big_endian(body, 8 + 4 * k);
    }
    if !(0 < sample_len(body, i) <= 67108864) {
        assert(!sample_len_ok(sample_len(body, i)));
    }
}

/// The first part of the samples is at most as long as all of them.
proof fn lemma_concat_len(samples: Seq<Seq<u8>>, n: int)
    requires
        0 <= n <= samples.len(),
    ensures
        concat(samples.take(n)).len() <= concat(samples).len(),
    decreases samples.len() - n,
{
    if n == samples.len() {
        assert(samples.take(n) =~= samples);
    } else {
        lemma_concat_take(samples, n);
        lemma_concat_len(samples, n + 1);
    }
}

/// What a fault in the sizes says of the samples.
proof fn lemma_sizes_fault(samples: Seq<Seq<u8>>, n: nat)
    requires
        n <= samples.len(),
    ensures
        sizes_fault(samples, n) == Some(SamplesFault::SampleTooLarge) ==> exists|i: int|
            0 <= i < samples.len() && #[trigger] samples[i].len() > 4294967295,
        sizes_fault(samples, n) == Some(SamplesFault::ResponseTooLarge) ==> 4 + 4 * samples.len()
            + concat(samples).len() > usize::MAX,
        sizes_fault(samples, n) != Some(SamplesFault::TooManySamples),
        sizes_fault(samples, n) is None && n > 0 ==> 4 + 4 * samples.len() + concat(
            samples.take(n as int),
        ).len() <= usize::MAX,
    decreases n,
{
    if n > 0 {
        lemma_sizes_fault(samples, (n - 1) as nat);
        lemma_concat_len(samples, n as int);
        if sizes_fault(samples, (n - 1) as nat) is None && samples[n - 1].len() > u32::MAX {
            assert(samples[n - 1].len() > 4294967295);
        }
    }
}

/// Samples are sent back exactly if the format can carry them: at most 2^32 - 1 of them, each of
/// at most 2^32 - 1 bytes, and a payload that a machine can hold. Otherwise the text says which of
/// these is the fault.
pub proof fn sendable_samples_are_sent(samples: Seq<Seq<u8>>)
    ensures
        samples_fault(samples) is None <==> {
            &&& samples.len() <= 4294967295
            &&& forall|i: int| 0 <= i < samples.len() ==> #[trigger] samples[i].len() <= 4294967295
            &&& 4 + 4 * samples.len() + samples.flatten().len() <= usize::MAX
        },
        samples_fault(samples) matches Some(fault) ==> {
            ||| samples_fault_text(fault) == "too many decrypt samples"@ && samples.len()
                > 4294967295
            ||| samples_fault_text(fault) == "decrypt sample too large"@ && exists|i: int|
                0 <= i < samples.len() && #[trigger] samples[i].len() > 4294967295
            ||| samples_fault_text(fault) == "decrypt response too large"@ && 4 + 4 * samples.len()
                + samples.flatten().len() > usize::MAX
        },
        samples.len() > 4294967295 ==> samples_fault(samples) is Some && samples_fault_text(
            samples_fault(samples)->0,
        ) == "too many decrypt samples"@,
{
    parts_follow_one_another(samples);
    lemma_sizes_fault(samples, samples.len());
    assert(samples.take(samples.len() as int) =~= samples);
    if samples_fault(samples) is None {
        lemma_no_sizes_fault(samples, samples.len());
    }
}

/// The payload that sends samples back is their number and the length of each, four bytes each
/// with the first byte counting most, then the samples, one after the other.
pub proof fn sent_samples_are_laid_out(samples: Seq<Seq<u8>>)
    requires
        samples_fault(samples) is None,
    ensures
        ({
            let payload = samples_bytes(samples);
            &&& payload.len() == 4 + 4 * samples.len() + samples.flatten().len()
            &&& payload[0] * 16777216 + payload[1] * 65536 + payload[2] * 256 + payload[3]
                == samples.len()
            &&& forall|i: int|
                0 <= i < samples.len() ==> payload[4 + 4 * i] * 16777216 + payload[5 + 4 * i]
                    * 65536 + payload[6 + 4 * i] * 256 + payload[7 + 4 * i]
                    == #[trigger] samples[i].len()
            &&& payload.skip(4 + 4 * samples.len() as int) == samples.flatten()
        }),
{
    let payload = samples_bytes(samples);
    let table = length_table(samples);
    sendable_samples_are_sent(samples);
    parts_follow_one_another(samples);
    lemma_length_table_len(samples);
    written_four_bytes_are_big_endian(samples.len());
    assert forall|i: int| 0 <= i < samples.len() implies payload[4 + 4 * i] * 16777216 + payload[5
        + 4 * i] * 65536 + payload[6 + 4 * i] * 256 + payload[7 + 4 * i]
        == #[trigger] samples[i].len() by {
        assert(samples[i].len() <= 4294967295);
        tables_hold_the_lengths(samples, i);
        assert(payload[4 + 4 * i] == table[4 * i] && payload[5 + 4 * i] == table[4 * i + 1]
            && payload[6 + 4 * i] == table[4 * i + 2] && payload[7 + 4 * i] == table[4 * i + 3]);
    }
    assert(payload.skip(4 + 4 * samples.len() as int) =~= samples.flatten());
}

} // verus!
