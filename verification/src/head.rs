//! Reading the head of an HTTP request in bounded memory.
use vstd::prelude::*;

use crate::bytes::{concat, parts_follow_one_another, push_all};

verus! {

/// Hard cap on the request head, so a client that streams bytes without a blank line cannot
/// fill memory.
pub const MAX_HTTP_HEAD_BYTES: usize = 64 * 1024;

/// Cap on the request body. Bodies are small JSON payloads; larger ones are refused before
/// anything is allocated for them.
pub const MAX_HTTP_BODY_BYTES: usize = 64 * 1024;

/// How many bytes one read of the head asks for.
pub const HEAD_CHUNK_BYTES: usize = 4096;

/// Whether a blank line, CR LF CR LF or LF LF, lies at or after `from` and ends just before
/// `end`.
pub open spec fn blank_line(b: Seq<u8>, from: int, end: int) -> bool {
    ||| {
        &&& from <= end - 4
        &&& end <= b.len()
        &&& b[end - 4] == 13 && b[end - 3] == 10 && b[end - 2] == 13 && b[end - 1] == 10
    }
    ||| {
        &&& from <= end - 2
        &&& end <= b.len()
        &&& b[end - 2] == 10 && b[end - 1] == 10
    }
}

/// Whether there is a blank line at or after `from`.
pub open spec fn has_blank_line(b: Seq<u8>, from: int) -> bool {
    exists|end: int| #[trigger] blank_line(b, from, end)
}

/// Byte index just past the first blank line at or after `from`, so repeated reads need not
/// rescan the whole buffer.
pub fn find_head_end(head: &[u8], from: usize) -> (r: Option<usize>)
    requires
        from <= head@.len(),
    ensures
        match r {
            Some(end) => blank_line(head@, from as int, end as int) && forall|e: int|
                #[trigger] blank_line(head@, from as int, e) ==> end <= e,
            None => !has_blank_line(head@, from as int),
        },
{
    let len: usize = head.len();
    let mut end: usize = from;
    while end < len
        invariant
            from <= end <= len == head@.len(),
            forall|e: int| #[trigger] blank_line(head@, from as int, e) ==> end < e,
        decreases len - end,
    {
        end = end + 1;
        let lf: bool = end - from >= 2 && head[end - 2] == 10 && head[end - 1] == 10;
        let crlf: bool = end - from >= 4 && head[end - 4] == 13 && head[end - 3] == 10 && head[end
            - 2] == 13 && head[end - 1] == 10;
        if lf || crlf {
            assert(blank_line(head@, from as int, end as int));
            return Some(end);
        }
    }
    None
}

/// How reading a request head ended.
#[derive(Debug)]
pub enum HttpHead {
    /// The bytes up to and past the blank line; body bytes of the same read are among them.
    Read(Vec<u8>),
    /// The stream ended before a blank line.
    Eof,
    /// The cap was passed without a blank line.
    TooLarge,
}

/// The bytes of a request head that has not ended yet.
pub struct PartialHead {
    buf: Vec<u8>,
}

/// What one read leads to.
pub enum HeadProgress {
    /// Nothing decided: read on.
    Pending(PartialHead),
    /// Reading is over.
    Finished(HttpHead),
}

/// A request head while it is read, as a value.
pub enum HeadModel {
    Pending(Seq<u8>),
    Read(Seq<u8>),
    Eof,
    TooLarge,
}

impl View for PartialHead {
    type V = Seq<u8>;

    closed spec fn view(&self) -> Seq<u8> {
        self.buf@
    }
}

impl View for HttpHead {
    type V = HeadModel;

    open spec fn view(&self) -> HeadModel {
        match self {
            HttpHead::Read(head) => HeadModel::Read(head@),
            HttpHead::Eof => HeadModel::Eof,
            HttpHead::TooLarge => HeadModel::TooLarge,
        }
    }
}

impl View for HeadProgress {
    type V = HeadModel;

    open spec fn view(&self) -> HeadModel {
        match self {
            HeadProgress::Pending(partial) => HeadModel::Pending(partial@),
            HeadProgress::Finished(head) => head@,
        }
    }
}

/// Whether a head that holds these bytes is still being read.
pub open spec fn head_pending(buf: Seq<u8>) -> bool {
    &&& !has_blank_line(buf, 0)
    &&& buf.len() <= MAX_HTTP_HEAD_BYTES
}

/// What becomes of the bytes `buf` when a read delivers `chunk`. An empty chunk is the end of
/// the stream.
pub open spec fn head_step(buf: Seq<u8>, chunk: Seq<u8>) -> HeadModel {
    if chunk.len() == 0 {
        HeadModel::Eof
    } else if has_blank_line(buf + chunk, 0) {
        HeadModel::Read(buf + chunk)
    } else if (buf + chunk).len() > MAX_HTTP_HEAD_BYTES {
        HeadModel::TooLarge
    } else {
        HeadModel::Pending(buf + chunk)
    }
}

/// What becomes of a head when reads deliver `chunks`, one after the other. What comes after
/// the end of reading changes nothing.
pub open spec fn head_run(chunks: Seq<Seq<u8>>) -> HeadModel
    decreases chunks.len(),
{
    if chunks.len() == 0 {
        HeadModel::Pending(Seq::empty())
    } else {
        match head_run(chunks.drop_last()) {
            HeadModel::Pending(buf) => head_step(buf, chunks.last()),
            done => done,
        }
    }
}

impl PartialHead {
    #[verifier::type_invariant]
    closed spec fn inv(self) -> bool {
        head_pending(self.buf@)
    }

    /// Before the first read.
    pub fn new() -> (r: PartialHead)
        ensures
            r@ == Seq::<u8>::empty(),
    {
        let buf: Vec<u8> = Vec::new();
        assert(forall|end: int| !#[trigger] blank_line(buf@, 0, end));
        PartialHead { buf }
    }
}

/// Resuming a scan misses nothing: if the bytes before the last read held no blank line, then
/// looking from at most three bytes before that read finds the same blank lines as looking at
/// everything.
pub proof fn resumed_scan_misses_nothing(scanned: Seq<u8>, chunk: Seq<u8>, from: int)
    requires
        !has_blank_line(scanned, 0),
        0 <= from,
        from <= scanned.len() - 3 || from == 0,
    ensures
        forall|end: int| #[trigger]
            blank_line(scanned + chunk, from, end) <==> blank_line(scanned + chunk, 0, end),
        has_blank_line(scanned + chunk, from) == has_blank_line(scanned + chunk, 0),
{
    let all = scanned + chunk;
    assert forall|end: int| blank_line(all, 0, end) implies #[trigger] blank_line(
        all,
        from,
        end,
    ) by {
        if end <= scanned.len() {
            assert(blank_line(scanned, 0, end));
        }
    }
    if has_blank_line(all, 0) {
        let end = choose|end: int| blank_line(all, 0, end);
        assert(blank_line(all, from, end));
    }
    if has_blank_line(all, from) {
        let end = choose|end: int| blank_line(all, from, end);
        assert(blank_line(all, 0, end));
    }
}

/// Takes the bytes of one read into the head. The cap holds on every read, so the buffer never
/// grows past it by more than one chunk.
pub fn read_http_head(partial: PartialHead, chunk: &[u8]) -> (r: HeadProgress)
    ensures
        r@ == head_step(partial@, chunk@),
{
    proof {
        use_type_invariant(&partial);
    }
    let PartialHead { buf: mut head } = partial;
    if chunk.len() == 0 {
        return HeadProgress::Finished(HttpHead::Eof);
    }
    let ghost before = head@;
    let scanned: usize = head.len();
    let from: usize = if scanned >= 3 { scanned - 3 } else { 0 };
    push_all(&mut head, chunk);
    proof {
        resumed_scan_misses_nothing(before, chunk@, from as int);
    }
    match find_head_end(head.as_slice(), from) {
        Some(end) => {
            assert(blank_line(head@, from as int, end as int));
            HeadProgress::Finished(HttpHead::Read(head))
        },
        None => if head.len() > MAX_HTTP_HEAD_BYTES {
            HeadProgress::Finished(HttpHead::TooLarge)
        } else {
            HeadProgress::Pending(PartialHead { buf: head })
        },
    }
}

/// Whether a declared Content-Length exceeds the accepted request body cap.
pub fn http_body_too_large(content_length: usize) -> (r: bool)
    ensures
        r == (content_length > MAX_HTTP_BODY_BYTES),
{
    content_length > MAX_HTTP_BODY_BYTES
}

/// A head that is still being read is all that was read, holds no blank line and keeps to the
/// cap.
pub proof fn pending_head_is_bounded(chunks: Seq<Seq<u8>>)
    ensures
        head_run(chunks) matches HeadModel::Pending(buf) ==> buf == concat(chunks) && head_pending(
            buf,
        ),
    decreases chunks.len(),
{
    if chunks.len() == 0 {
        assert(forall|end: int| !#[trigger] blank_line(Seq::<u8>::empty(), 0, end));
    } else {
        pending_head_is_bounded(chunks.drop_last());
    }
}

/// No client can make the head reader take more than the cap and one read: when a read was
/// still due, all bytes up to and with that read stay within the cap plus the size of a read.
pub proof fn head_memory_is_bounded(chunks: Seq<Seq<u8>>, chunk_limit: nat)
    requires
        chunks.len() > 0,
        chunks.last().len() <= chunk_limit,
        head_run(chunks.drop_last()) is Pending,
    ensures
        concat(chunks).len() <= MAX_HTTP_HEAD_BYTES + chunk_limit,
        head_run(chunks) matches HeadModel::Read(head) ==> head == concat(chunks)
            && has_blank_line(head, 0),
        head_run(chunks) is TooLarge ==> concat(chunks).len() > MAX_HTTP_HEAD_BYTES
            && !has_blank_line(concat(chunks), 0),
{
    pending_head_is_bounded(chunks.drop_last());
}

/// While no blank line came and the cap is kept, reading goes on.
proof fn lemma_head_stays_pending(chunks: Seq<Seq<u8>>)
    requires
        forall|i: int| 0 <= i < chunks.len() ==> #[trigger] chunks[i].len() > 0,
        head_pending(concat(chunks)),
    ensures
        head_run(chunks) == HeadModel::Pending(concat(chunks)),
    decreases chunks.len(),
{
    if chunks.len() > 0 {
        let front = chunks.drop_last();
        assert(chunks[chunks.len() - 1].len() > 0);
        assert forall|i: int| 0 <= i < front.len() implies #[trigger] front[i].len() > 0 by {
            assert(chunks[i].len() > 0);
        }
        assert forall|end: int| !#[trigger] blank_line(concat(front), 0, end) by {
            if blank_line(concat(front), 0, end) {
                assert(blank_line(concat(chunks), 0, end));
            }
        }
        lemma_head_stays_pending(front);
    }
}

/// A head within the cap is read however the stream cuts it: if the first blank line ends
/// within the cap and no read comes back empty, reading ends with the read that delivers the
/// end of that line. What was read reaches that line, ends less than one read past it, and has
/// the same first blank line.
pub proof fn head_within_cap_is_read(chunks: Seq<Seq<u8>>, end: int)
    requires
        forall|i: int| 0 <= i < chunks.len() ==> #[trigger] chunks[i].len() > 0,
        blank_line(concat(chunks), 0, end),
        forall|e: int| #[trigger] blank_line(concat(chunks), 0, e) ==> end <= e,
        end <= MAX_HTTP_HEAD_BYTES,
    ensures
        exists|n: int|
            {
                &&& 0 < n <= chunks.len()
                &&& head_run(chunks) == HeadModel::Read(#[trigger] concat(chunks.take(n)))
                &&& concat(chunks.take(n)).is_prefix_of(concat(chunks))
                &&& end <= concat(chunks.take(n)).len() < end + chunks[n - 1].len()
                &&& blank_line(concat(chunks.take(n)), 0, end)
                &&& forall|e: int| #[trigger]
                    blank_line(concat(chunks.take(n)), 0, e) ==> end <= e
            },
    decreases chunks.len(),
{
    let front = chunks.drop_last();
    let all = concat(chunks);
    let before = concat(front);
    assert(chunks[chunks.len() - 1].len() > 0);
    assert forall|i: int| 0 <= i < front.len() implies #[trigger] front[i].len() > 0 by {
        assert(chunks[i].len() > 0);
    }
    assert forall|e: int| #[trigger] blank_line(before, 0, e) implies end <= e by {
        assert(blank_line(all, 0, e));
    }
    if end <= before.len() {
        assert(blank_line(before, 0, end));
        head_within_cap_is_read(front, end);
        let n = choose|n: int|
            {
                &&& 0 < n <= front.len()
                &&& head_run(front) == HeadModel::Read(#[trigger] concat(front.take(n)))
                &&& concat(front.take(n)).is_prefix_of(before)
                &&& end <= concat(front.take(n)).len() < end + front[n - 1].len()
                &&& blank_line(concat(front.take(n)), 0, end)
                &&& forall|e: int| #[trigger]
                    blank_line(concat(front.take(n)), 0, e) ==> end <= e
            };
        assert(front.take(n) =~= chunks.take(n));
        assert(chunks[n - 1] == front[n - 1]);
        assert(concat(chunks.take(n)).is_prefix_of(all));
    } else {
        lemma_head_stays_pending(front);
        assert(has_blank_line(all, 0));
        assert(chunks.take(chunks.len() as int) =~= chunks);
        assert(concat(chunks.take(chunks.len() as int)).is_prefix_of(all));
    }
}

/// Blank lines are CR LF CR LF and LF LF and nothing else, wherever they stand.
pub proof fn blank_lines_are_two_line_ends(before: Seq<u8>, after: Seq<u8>, from: int)
    requires
        0 <= from <= before.len(),
    ensures
        blank_line(before + seq![13u8, 10, 13, 10] + after, from, before.len() as int + 4),
        blank_line(before + seq![10u8, 10] + after, from, before.len() as int + 2),
        forall|end: int| #[trigger]
            blank_line(before, from, end) ==> {
                ||| from + 4 <= end <= before.len() && before.subrange(end - 4, end) == seq![
                    13u8,
                    10,
                    13,
                    10,
                ]
                ||| from + 2 <= end <= before.len() && before.subrange(end - 2, end) == seq![
                    10u8,
                    10,
                ]
            },
{
    let n = before.len() as int;
    let crlf = before + seq![13u8, 10, 13, 10] + after;
    let lf = before + seq![10u8, 10] + after;
    assert(crlf[n] == 13 && crlf[n + 1] == 10 && crlf[n + 2] == 13 && crlf[n + 3] == 10);
    assert(lf[n] == 10 && lf[n + 1] == 10);
    assert forall|end: int| #[trigger] blank_line(before, from, end) implies {
        ||| from + 4 <= end <= before.len() && before.subrange(end - 4, end) == seq![
            13u8,
            10,
            13,
            10,
        ]
        ||| from + 2 <= end <= before.len() && before.subrange(end - 2, end) == seq![10u8, 10]
    } by {
        if from + 4 <= end && before[end - 4] == 13 && before[end - 3] == 10 && before[end - 2]
            == 13 {
            assert(before.subrange(end - 4, end) =~= seq![13u8, 10, 13, 10]);
        } else {
            assert(before.subrange(end - 2, end) =~= seq![10u8, 10]);
        }
    }
}

/// Reading goes on with all that was read as long as no blank line came and no more than 64 KiB
/// were read, however the stream cuts it.
pub proof fn short_heads_stay_open(chunks: Seq<Seq<u8>>)
    requires
        forall|i: int| 0 <= i < chunks.len() ==> #[trigger] chunks[i].len() > 0,
        forall|end: int| !#[trigger] blank_line(chunks.flatten(), 0, end),
        chunks.flatten().len() <= 65536,
    ensures
        head_run(chunks) == HeadModel::Pending(chunks.flatten()),
        head_run(chunks.push(Seq::empty())) is Eof,
{
    parts_follow_one_another(chunks);
    lemma_head_stays_pending(chunks);
    assert(chunks.push(Seq::empty()).drop_last() =~= chunks);
}

/// A head of more than 64 KiB without a blank line is refused, however the stream cuts it.
pub proof fn long_heads_are_refused(chunks: Seq<Seq<u8>>)
    requires
        forall|i: int| 0 <= i < chunks.len() ==> #[trigger] chunks[i].len() > 0,
        forall|end: int| !#[trigger] blank_line(chunks.flatten(), 0, end),
        chunks.flatten().len() > 65536,
    ensures
        head_run(chunks) is TooLarge,
    decreases chunks.len(),
{
    parts_follow_one_another(chunks);
    let front = chunks.drop_last();
    parts_follow_one_another(front);
    assert(chunks[chunks.len() - 1].len() > 0);
    assert forall|i: int| 0 <= i < front.len() implies #[trigger] front[i].len() > 0 by {
        assert(chunks[i].len() > 0);
    }
    assert forall|end: int| !#[trigger] blank_line(front.flatten(), 0, end) by {
        if blank_line(front.flatten(), 0, end) {
            assert(blank_line(chunks.flatten(), 0, end));
        }
    }
    if front.flatten().len() > 65536 {
        long_heads_are_refused(front);
    } else {
        lemma_head_stays_pending(front);
    }
}

/// A blank line ends the head with all that was read, even where the last read went past the cap;
/// an empty read is the end of the stream whatever was read before.
pub proof fn blank_lines_end_the_head(buf: Seq<u8>, chunk: Seq<u8>, end: int)
    requires
        blank_line(buf + chunk, 0, end),
    ensures
        chunk.len() > 0 ==> head_step(buf, chunk) == HeadModel::Read(buf + chunk),
        chunk.len() == 0 ==> head_step(buf, chunk) is Eof,
{
}

/// How reading a head ended is all that its model tells.
pub proof fn head_models_hold_everything(head: Vec<u8>)
    ensures
        HttpHead::Read(head)@ == HeadModel::Read(head@),
        HttpHead::Eof@ == HeadModel::Eof,
        HttpHead::TooLarge@ == HeadModel::TooLarge,
        forall|h: HttpHead| #[trigger] HeadProgress::Finished(h)@ == h@,
        forall|p: PartialHead| #[trigger] HeadProgress::Pending(p)@ == HeadModel::Pending(p@),
{
}

} // verus!
