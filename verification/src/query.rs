//! Request targets: path, query string and percent-encoding.
use vstd::hash_map::StringHashMap;
use vstd::prelude::*;
use vstd::slice::slice_subrange;
use vstd::utf8::{
    decode_utf8_encode_utf8, encode_utf8, encode_utf8_decode_utf8, encode_utf8_valid_utf8,
    is_ascii_chars_encode_utf8, valid_utf8,
};

use crate::text::{
    lemma_absent_byte, lemma_encode_concat, lossy_text, lossy_utf8, split_once,
    string_from_utf8_lossy,
};

verus! {

/// The value of a hexadecimal digit.
pub open spec fn hex_value(b: u8) -> Option<u8> {
    if 48 <= b <= 57 {
        Some((b - 48) as u8)
    } else if 97 <= b <= 102 {
        Some((b - 87) as u8)
    } else if 65 <= b <= 70 {
        Some((b - 55) as u8)
    } else {
        None
    }
}

/// The value of a hexadecimal digit.
pub fn hex(b: u8) -> (r: Option<u8>)
    ensures
        r == hex_value(b),
        r matches Some(d) ==> d < 16,
{
    if 48 <= b && b <= 57 {
        Some(b - 48)
    } else if 97 <= b && b <= 102 {
        Some(b - 87)
    } else if 65 <= b && b <= 70 {
        Some(b - 55)
    } else {
        None
    }
}

/// Whether an escape, a percent sign and two hexadecimal digits, starts `b`.
pub open spec fn starts_with_escape(b: Seq<u8>) -> bool {
    &&& b.len() >= 3
    &&& b[0] == 37
    &&& hex_value(b[1]) is Some
    &&& hex_value(b[2]) is Some
}

/// `b` with each escape replaced by its byte and each plus sign by a space. A percent sign
/// that starts no escape stays.
pub open spec fn percent_bytes(b: Seq<u8>) -> Seq<u8>
    decreases b.len(),
{
    if b.len() == 0 {
        Seq::empty()
    } else if starts_with_escape(b) {
        seq![(hex_value(b[1])->0 * 16 + hex_value(b[2])->0) as u8] + percent_bytes(b.skip(3))
    } else {
        seq![if b[0] == 43 { 32u8 } else { b[0] }] + percent_bytes(b.skip(1))
    }
}

/// The text that `s` stands for in a query.
pub open spec fn percent_decoded(s: Seq<char>) -> Seq<char> {
    lossy_text(percent_bytes(encode_utf8(s)))
}

/// Replaces escapes by their bytes and plus signs by spaces.
pub fn percent_decode_bytes(bytes: &[u8]) -> (out: Vec<u8>)
    ensures
        out@ == percent_bytes(bytes@),
{
    let mut out: Vec<u8> = Vec::with_capacity(bytes.len());
    let mut i: usize = 0;
    let len: usize = bytes.len();
    assert(bytes@.skip(0) =~= bytes@);
    while i < len
        invariant
            i <= len == bytes@.len(),
            percent_bytes(bytes@) == out@ + percent_bytes(bytes@.skip(i as int)),
        decreases len - i,
    {
        let ghost rest = bytes@.skip(i as int);
        let ghost before = out@;
        assert(rest.skip(1) =~= bytes@.skip(i + 1));
        if bytes[i] == 37 && len - i > 2 {
            assert(rest.skip(3) =~= bytes@.skip(i + 3));
            if let (Some(a), Some(b)) = (hex(bytes[i + 1]), hex(bytes[i + 2])) {
                out.push(a * 16 + b);
                assert(starts_with_escape(rest));
                assert(out@ + percent_bytes(rest.skip(3)) =~= before + percent_bytes(rest));
                i = i + 3;
                continue ;
            }
        }
        out.push(if bytes[i] == 43 { 32 } else { bytes[i] });
        assert(out@ + percent_bytes(rest.skip(1)) =~= before + percent_bytes(rest));
        i = i + 1;
    }
    assert(out@ + percent_bytes(bytes@.skip(i as int)) =~= out@);
    out
}

/// The text that the bytes of a name or value stand for in a query.
fn percent_text(bytes: &[u8]) -> (r: String)
    ensures
        r@ == lossy_text(percent_bytes(bytes@)),
{
    let decoded: Vec<u8> = percent_decode_bytes(bytes);
    string_from_utf8_lossy(decoded.as_slice())
}

/// The text that `s` stands for in a query: escapes and plus signs decoded, then read as
/// UTF-8.
pub fn percent_decode(s: &str) -> (r: String)
    ensures
        r@ == percent_decoded(s@),
{
    percent_text(s.as_bytes())
}

/// Index of the first `c` in `s`, or the length of `s` if there is none.
pub open spec fn first_index(s: Seq<char>, c: char) -> int
    decreases s.len(),
{
    if s.len() == 0 || s[0] == c {
        0
    } else {
        1 + first_index(s.drop_first(), c)
    }
}

/// What stands before the first `c`.
pub open spec fn before_first(s: Seq<char>, c: char) -> Seq<char> {
    s.take(first_index(s, c))
}

/// What stands after the first `c`, nothing if there is none.
pub open spec fn after_first(s: Seq<char>, c: char) -> Seq<char> {
    if first_index(s, c) < s.len() {
        s.skip(first_index(s, c) + 1)
    } else {
        Seq::empty()
    }
}

/// The parts of `s` between the occurrences of `c`.
pub open spec fn pieces(s: Seq<char>, c: char) -> Seq<Seq<char>>
    decreases s.len(),
{
    if 0 <= first_index(s, c) < s.len() {
        seq![before_first(s, c)] + pieces(after_first(s, c), c)
    } else {
        seq![s]
    }
}

/// The parameters that the parts of a query set, the later ones over the earlier ones. Empty
/// parts set nothing.
pub open spec fn parameters(parts: Seq<Seq<char>>) -> Map<Seq<char>, Seq<char>>
    decreases parts.len(),
{
    if parts.len() == 0 {
        Map::empty()
    } else if parts.last().len() == 0 {
        parameters(parts.drop_last())
    } else {
        parameters(parts.drop_last()).insert(
            percent_decoded(before_first(parts.last(), '=')),
            percent_decoded(after_first(parts.last(), '=')),
        )
    }
}

/// The parameters of a query: parts separated by ampersands, each a name and a value
/// separated by the first equals sign.
pub open spec fn query_parameters(query: Seq<char>) -> Map<Seq<char>, Seq<char>> {
    parameters(pieces(query, '&'))
}

/// What a map of strings holds.
pub open spec fn text_map(m: Map<Seq<char>, String>) -> Map<Seq<char>, Seq<char>> {
    m.map_values(|s: String| s@)
}

/// Bounds of [`first_index`].
pub proof fn lemma_first_index(s: Seq<char>, c: char)
    ensures
        0 <= first_index(s, c) <= s.len(),
        first_index(s, c) < s.len() ==> s[first_index(s, c)] == c,
        first_index(s, c) < s.len() <==> s.contains(c),
        forall|i: int| 0 <= i < first_index(s, c) ==> s[i] != c,
    decreases s.len(),
{
    if s.len() > 0 {
        let rest = s.drop_first();
        lemma_first_index(rest, c);
        if s[0] == c {
        } else {
            assert forall|i: int| 0 <= i < first_index(s, c) implies s[i] != c by {
                if i > 0 {
                    assert(s[i] == rest[i - 1]);
                }
            }
            if s.contains(c) {
                let k = choose|k: int| 0 <= k < s.len() && s[k] == c;
                assert(rest[k - 1] == c);
            }
            if first_index(s, c) < s.len() {
                assert(rest[first_index(rest, c)] == s[first_index(s, c)]);
            }
        }
    }
}

/// A cut at a `c` before which there is none is the cut at the first `c`.
pub proof fn lemma_first_cut(s: Seq<char>, left: Seq<char>, c: char, right: Seq<char>)
    requires
        s == left + seq![c] + right,
        !left.contains(c),
    ensures
        first_index(s, c) == left.len(),
        before_first(s, c) == left,
        after_first(s, c) == right,
{
    lemma_first_index(s, c);
    let i = first_index(s, c);
    assert(s[left.len() as int] == c);
    if i < left.len() {
        assert(left[i] == s[i]);
    }
    assert(before_first(s, c) =~= left);
    assert(after_first(s, c) =~= right);
}

/// The path and the query of a request target: what stands before and after the first
/// question mark. Without one there is no query.
pub fn split_target(target: &str) -> (r: (String, String))
    ensures
        r.0@ == before_first(target@, '?'),
        r.1@ == after_first(target@, '?'),
        !r.0@.contains('?'),
        target@.contains('?') ==> target@ == r.0@ + seq!['?'] + r.1@,
        !target@.contains('?') ==> r.0@ == target@ && r.1@ == Seq::<char>::empty(),
{
    proof {
        lemma_first_index(target@, '?');
    }
    match split_once(target, '?') {
        Some((path, query)) => {
            proof {
                lemma_first_cut(target@, path@, '?', query@);
            }
            (path, query)
        },
        None => {
            assert(target@.take(target@.len() as int) =~= target@);
            (target.to_owned(), String::new())
        },
    }
}

/// A text is cut at the first `c` where its bytes are cut at the first byte of `c`.
proof fn lemma_encoded_cut(text: Seq<char>, c: char, at: int)
    requires
        c < '\u{80}',
        0 <= at <= encode_utf8(text).len(),
        forall|i: int| 0 <= i < at ==> encode_utf8(text)[i] != c as u8,
        at < encode_utf8(text).len() ==> encode_utf8(text)[at] == c as u8,
    ensures
        at < encode_utf8(text).len() <==> first_index(text, c) < text.len(),
        encode_utf8(before_first(text, c)) == encode_utf8(text).take(at),
        encode_utf8(after_first(text, c)) == if at < encode_utf8(text).len() {
            encode_utf8(text).skip(at + 1)
        } else {
            Seq::empty()
        },
{
    let bytes = encode_utf8(text);
    let k = first_index(text, c);
    lemma_first_index(text, c);
    if k < text.len() {
        let left = before_first(text, c);
        let right = after_first(text, c);
        assert(text =~= left + seq![c] + right);
        assert forall|i: int| 0 <= i < left.len() implies left[i] != c by {
            assert(left[i] == text[i]);
        }
        lemma_absent_byte(left, c);
        is_ascii_chars_encode_utf8(seq![c]);
        lemma_encode_concat(left + seq![c], right);
        lemma_encode_concat(left, seq![c]);
        let q = encode_utf8(left).len() as int;
        assert(encode_utf8(seq![c])[0] == seq![c][0] as u8);
        assert(bytes[q] == c as u8);
        if at < q {
            assert(bytes[at] == encode_utf8(left)[at]);
            assert(encode_utf8(left).contains(encode_utf8(left)[at]));
        }
        assert(bytes.take(at) =~= encode_utf8(left));
        assert(bytes.skip(at + 1) =~= encode_utf8(right));
    } else {
        lemma_absent_byte(text, c);
        if at < bytes.len() {
            assert(bytes.contains(bytes[at]));
        }
        assert(text.take(k) =~= text);
        assert(bytes.take(at) =~= bytes);
        assert(encode_utf8(Seq::<char>::empty()) =~= Seq::empty());
    }
}

/// Index of the first `b` in `bytes`, or their number if there is none.
fn find_byte(bytes: &[u8], b: u8) -> (at: usize)
    ensures
        at <= bytes@.len(),
        forall|i: int| 0 <= i < at ==> bytes@[i] != b,
        at < bytes@.len() ==> bytes@[at as int] == b,
{
    let mut at: usize = 0;
    while at < bytes.len()
        invariant
            at <= bytes@.len(),
            forall|i: int| 0 <= i < at ==> bytes@[i] != b,
        decreases bytes@.len() - at,
    {
        if bytes[at] == b {
            return at;
        }
        at = at + 1;
    }
    at
}

/// Sets the parameter that one part of a query, the text `part`, stands for.
fn set_parameter(out: &mut StringHashMap<String>, bytes: &[u8], Ghost(part): Ghost<Seq<char>>)
    requires
        bytes@ == encode_utf8(part),
    ensures
        text_map(final(out)@) == if part.len() == 0 {
            text_map(old(out)@)
        } else {
            text_map(old(out)@).insert(
                percent_decoded(before_first(part, '=')),
                percent_decoded(after_first(part, '=')),
            )
        },
{
    proof {
        encode_utf8_decode_utf8(part);
    }
    if bytes.len() == 0 {
        assert(encode_utf8(Seq::<char>::empty()) =~= bytes@);
        proof {
            encode_utf8_decode_utf8(Seq::empty());
        }
        return ;
    }
    let at: usize = find_byte(bytes, 61);
    proof {
        lemma_encoded_cut(part, '=', at as int);
        assert(bytes@.take(at as int) =~= bytes@.subrange(0, at as int));
    }
    let key: String = percent_text(slice_subrange(bytes, 0, at));
    let value: String = if at < bytes.len() {
        assert(bytes@.skip(at + 1) =~= bytes@.subrange(at + 1, bytes@.len() as int));
        percent_text(slice_subrange(bytes, at + 1, bytes.len()))
    } else {
        assert(bytes@.subrange(0, 0) =~= Seq::empty());
        percent_text(slice_subrange(bytes, 0, 0))
    };
    let ghost before = out@;
    let ghost (kk, vv) = (key@, value);
    out.insert(key, value);
    assert(text_map(out@) =~= text_map(before).insert(kk, vv@));
}

/// The parameters of a query, in one walk over its bytes.
pub fn parse_query(query: &str) -> (out: StringHashMap<String>)
    ensures
        text_map(out@) == query_parameters(query@),
{
    let mut out: StringHashMap<String> = StringHashMap::new();
    let bytes: &[u8] = query.as_bytes();
    let len: usize = bytes.len();
    let mut from: usize = 0;
    let ghost mut rest: Seq<char> = query@;
    let ghost mut done: Seq<Seq<char>> = Seq::empty();
    let ghost all = pieces(query@, '&');
    assert(text_map(out@) =~= parameters(done));
    assert(all =~= done + pieces(rest, '&'));
    assert(bytes@.skip(0) =~= bytes@);
    loop
        invariant
            from <= len == bytes@.len(),
            encode_utf8(rest) == bytes@.skip(from as int),
            text_map(out@) == parameters(done),
            all == done + pieces(rest, '&'),
            all == pieces(query@, '&'),
        decreases len - from,
    {
        let tail: &[u8] = slice_subrange(bytes, from, len);
        assert(tail@ =~= encode_utf8(rest));
        let at: usize = find_byte(tail, 38);
        let ghost part = before_first(rest, '&');
        proof {
            lemma_first_index(rest, '&');
            lemma_encoded_cut(rest, '&', at as int);
            assert(tail@.subrange(0, at as int) =~= tail@.take(at as int));
            assert(done.push(part).drop_last() =~= done);
        }
        set_parameter(&mut out, slice_subrange(tail, 0, at), Ghost(part));
        if at == tail.len() {
            proof {
                assert(part =~= rest);
                assert(all =~= done.push(part));
            }
            return out;
        }
        proof {
            let next = after_first(rest, '&');
            assert(done + pieces(rest, '&') =~= done.push(part) + pieces(next, '&'));
            assert(tail@.skip(at + 1) =~= bytes@.skip(from + at + 1));
            done = done.push(part);
            rest = next;
        }
        from = from + at + 1;
    }
}

/// Whether `c` is the hexadecimal digit of `d`, in either case.
pub open spec fn is_hex_digit(c: char, d: int) -> bool {
    if d < 10 {
        c as int == d + 48
    } else {
        c as int == d + 55 || c as int == d + 87
    }
}

/// Whether `text` writes every byte of `b` as an escape, with digits of either case.
pub open spec fn escapes(text: Seq<char>, b: Seq<u8>) -> bool
    decreases b.len(),
{
    if b.len() == 0 {
        text.len() == 0
    } else {
        &&& text.len() >= 3
        &&& text[0] == '%'
        &&& is_hex_digit(text[1], b[0] as int / 16)
        &&& is_hex_digit(text[2], b[0] as int % 16)
        &&& escapes(text.skip(3), b.drop_first())
    }
}

/// Whether `written` writes a name and a value in escapes.
pub open spec fn escapes_pair(
    written: (Seq<char>, Seq<char>),
    pair: (Seq<char>, Seq<char>),
) -> bool {
    escapes(written.0, encode_utf8(pair.0)) && escapes(written.1, encode_utf8(pair.1))
}

/// A written name and value as one part of a query.
pub open spec fn query_part(written: (Seq<char>, Seq<char>)) -> Seq<char> {
    written.0 + seq!['='] + written.1
}

/// The query made of written names and values.
pub open spec fn query_of(written: Seq<(Seq<char>, Seq<char>)>) -> Seq<char>
    decreases written.len(),
{
    if written.len() == 0 {
        Seq::empty()
    } else if written.len() == 1 {
        query_part(written[0])
    } else {
        query_part(written[0]) + seq!['&'] + query_of(written.drop_first())
    }
}

/// The names and values as a map, the later ones over the earlier ones.
pub open spec fn map_of(pairs: Seq<(Seq<char>, Seq<char>)>) -> Map<Seq<char>, Seq<char>>
    decreases pairs.len(),
{
    if pairs.len() == 0 {
        Map::empty()
    } else {
        map_of(pairs.drop_last()).insert(pairs.last().0, pairs.last().1)
    }
}

/// Escapes are percent signs and hexadecimal digits.
proof fn lemma_escaped_chars(text: Seq<char>, b: Seq<u8>)
    requires
        escapes(text, b),
    ensures
        forall|i: int|
            0 <= i < text.len() ==> {
                let c = #[trigger] text[i];
                c == '%' || '0' <= c <= '9' || 'A' <= c <= 'F' || 'a' <= c <= 'f'
            },
    decreases b.len(),
{
    if b.len() > 0 {
        let rest = text.skip(3);
        lemma_escaped_chars(rest, b.drop_first());
        assert forall|i: int| 0 <= i < text.len() implies {
            let c = #[trigger] text[i];
            c == '%' || '0' <= c <= '9' || 'A' <= c <= 'F' || 'a' <= c <= 'f'
        } by {
            if i >= 3 {
                assert(text[i] == rest[i - 3]);
            }
        }
    }
}

/// The bytes of escapes decode to the bytes that were escaped.
proof fn lemma_percent_bytes_escaped(text: Seq<char>, b: Seq<u8>, s: Seq<u8>)
    requires
        escapes(text, b),
        s.len() == text.len(),
        forall|i: int| 0 <= i < s.len() ==> #[trigger] s[i] == text[i] as u8,
    ensures
        percent_bytes(s) == b,
    decreases b.len(),
{
    if b.len() > 0 {
        let rest = b.drop_first();
        assert(s[0] == text[0] as u8 && s[1] == text[1] as u8 && s[2] == text[2] as u8);
        assert(hex_value(s[1]) == Some((b[0] / 16) as u8));
        assert(hex_value(s[2]) == Some((b[0] % 16) as u8));
        let tail = s.skip(3);
        assert forall|i: int| 0 <= i < tail.len() implies #[trigger] tail[i] == text.skip(
            3,
        )[i] as u8 by {
            assert(tail[i] == s[i + 3]);
        }
        lemma_percent_bytes_escaped(text.skip(3), rest, tail);
        assert(percent_bytes(s) =~= b);
    }
}

/// Percent-encoding any text, with digits of either case, and decoding it gives the text back.
pub proof fn percent_encoding_reads_back(text: Seq<char>, written: Seq<char>)
    requires
        escapes(written, encode_utf8(text)),
    ensures
        percent_decoded(written) == text,
{
    lemma_escaped_chars(written, encode_utf8(text));
    is_ascii_chars_encode_utf8(written);
    lemma_percent_bytes_escaped(written, encode_utf8(text), encode_utf8(written));
    encode_utf8_valid_utf8(text);
    encode_utf8_decode_utf8(text);
}

/// Bytes without percent and plus signs stay as they are.
proof fn lemma_plain_bytes(b: Seq<u8>)
    requires
        !b.contains(37),
        !b.contains(43),
    ensures
        percent_bytes(b) == b,
    decreases b.len(),
{
    if b.len() > 0 {
        let rest = b.skip(1);
        assert(b[0] != 37 && b[0] != 43);
        assert forall|i: int| 0 <= i < rest.len() implies rest[i] != 37 && rest[i] != 43 by {
            assert(rest[i] == b[i + 1]);
        }
        lemma_plain_bytes(rest);
        assert(percent_bytes(b) =~= b);
    }
}

/// Text without percent and plus signs stands for itself.
pub proof fn plain_text_is_kept(text: Seq<char>)
    requires
        !text.contains('%'),
        !text.contains('+'),
    ensures
        percent_decoded(text) == text,
{
    lemma_absent_byte(text, '%');
    lemma_absent_byte(text, '+');
    lemma_plain_bytes(encode_utf8(text));
    encode_utf8_valid_utf8(text);
    encode_utf8_decode_utf8(text);
}

/// A part of a query holds no ampersand, and its first equals sign is between name and value.
proof fn lemma_query_part(written: (Seq<char>, Seq<char>), pair: (Seq<char>, Seq<char>))
    requires
        escapes_pair(written, pair),
    ensures
        query_part(written).len() > 0,
        !query_part(written).contains('&'),
        before_first(query_part(written), '=') == written.0,
        after_first(query_part(written), '=') == written.1,
{
    let (k, v) = written;
    lemma_escaped_chars(k, encode_utf8(pair.0));
    lemma_escaped_chars(v, encode_utf8(pair.1));
    let part = query_part(written);
    assert forall|i: int| 0 <= i < part.len() implies part[i] != '&' by {
        if i < k.len() {
            assert(part[i] == k[i]);
        } else if i > k.len() {
            assert(part[i] == v[i - k.len() - 1]);
        }
    }
    assert forall|i: int| 0 <= i < k.len() implies k[i] != '=' by {}
    lemma_first_cut(part, k, '=', v);
}

/// The parts of a query made of `written`.
spec fn query_parts(written: Seq<(Seq<char>, Seq<char>)>) -> Seq<Seq<char>> {
    Seq::new(written.len(), |i: int| query_part(written[i]))
}

/// A query splits into the parts that it was made of.
proof fn lemma_query_pieces(
    written: Seq<(Seq<char>, Seq<char>)>,
    pairs: Seq<(Seq<char>, Seq<char>)>,
)
    requires
        written.len() == pairs.len() > 0,
        forall|i: int| 0 <= i < pairs.len() ==> #[trigger] escapes_pair(written[i], pairs[i]),
    ensures
        pieces(query_of(written), '&') == query_parts(written),
    decreases written.len(),
{
    assert(escapes_pair(written[0], pairs[0]));
    lemma_query_part(written[0], pairs[0]);
    let q = query_of(written);
    lemma_first_index(q, '&');
    if written.len() > 1 {
        let rest = written.drop_first();
        let rest_pairs = pairs.drop_first();
        assert forall|i: int| 0 <= i < rest_pairs.len() implies #[trigger] escapes_pair(
            rest[i],
            rest_pairs[i],
        ) by {
            assert(escapes_pair(written[i + 1], pairs[i + 1]));
        }
        lemma_query_pieces(rest, rest_pairs);
        lemma_first_cut(q, query_part(written[0]), '&', query_of(rest));
    }
    assert(pieces(q, '&') =~= query_parts(written));
}

/// The parts of a query set what they were made of.
proof fn lemma_query_parameters(
    written: Seq<(Seq<char>, Seq<char>)>,
    pairs: Seq<(Seq<char>, Seq<char>)>,
)
    requires
        written.len() == pairs.len(),
        forall|i: int| 0 <= i < pairs.len() ==> #[trigger] escapes_pair(written[i], pairs[i]),
    ensures
        parameters(query_parts(written)) == map_of(pairs),
    decreases written.len(),
{
    if written.len() > 0 {
        let front = written.drop_last();
        let front_pairs = pairs.drop_last();
        assert forall|i: int| 0 <= i < front_pairs.len() implies #[trigger] escapes_pair(
            front[i],
            front_pairs[i],
        ) by {
            assert(escapes_pair(written[i], pairs[i]));
        }
        lemma_query_parameters(front, front_pairs);
        let i = written.len() - 1;
        assert(escapes_pair(written[i], pairs[i]));
        lemma_query_part(written[i], pairs[i]);
        percent_encoding_reads_back(pairs[i].0, written[i].0);
        percent_encoding_reads_back(pairs[i].1, written[i].1);
        assert(query_parts(written).drop_last() =~= query_parts(front));
        assert(query_parts(written).last() == query_part(written[i]));
    }
}

/// A query gives back the parameters that it was made from, whatever characters are in them and
/// whichever case the digits of their escapes have; of two values for one name the later one
/// counts.
pub proof fn query_reads_back(
    pairs: Seq<(Seq<char>, Seq<char>)>,
    written: Seq<(Seq<char>, Seq<char>)>,
)
    requires
        written.len() == pairs.len(),
        forall|i: int| 0 <= i < pairs.len() ==> #[trigger] escapes_pair(written[i], pairs[i]),
    ensures
        query_parameters(query_of(written)) == map_of(pairs),
{
    if pairs.len() == 0 {
        let parts = pieces(query_of(written), '&');
        assert(parts.drop_last() =~= Seq::empty());
        assert(parameters(parts.drop_last()) == Map::<Seq<char>, Seq<char>>::empty());
    } else {
        lemma_query_pieces(written, pairs);
        lemma_query_parameters(written, pairs);
    }
}

/// Plus signs stand for spaces wherever and however often they occur, and without a percent sign
/// nothing else changes.
pub proof fn plus_signs_are_spaces(b: Seq<u8>)
    requires
        !b.contains(37),
    ensures
        percent_bytes(b).len() == b.len(),
        forall|i: int|
            0 <= i < b.len() ==> #[trigger] percent_bytes(b)[i] == if b[i] == 43 {
                32
            } else {
                b[i]
            },
    decreases b.len(),
{
    if b.len() > 0 {
        let rest = b.skip(1);
        assert(b.contains(b[0]));
        assert forall|i: int| 0 <= i < rest.len() implies rest[i] != 37 by {
            assert(b.contains(b[i + 1]));
        }
        plus_signs_are_spaces(rest);
        assert forall|i: int| 0 <= i < b.len() implies #[trigger] percent_bytes(b)[i] == if b[i]
            == 43 {
            32
        } else {
            b[i]
        } by {
            if i > 0 {
                assert(percent_bytes(b)[i] == percent_bytes(rest)[i - 1]);
            }
        }
    }
}

/// Bytes decode piece by piece, as long as they are not cut within an escape: what is decoded
/// does not depend on what stands before it or after it.
pub proof fn decoding_goes_piece_by_piece(a: Seq<u8>, b: Seq<u8>)
    requires
        a.len() >= 1 ==> a[a.len() - 1] != 37,
        a.len() >= 2 ==> a[a.len() - 2] != 37,
    ensures
        percent_bytes(a + b) == percent_bytes(a) + percent_bytes(b),
    decreases a.len(),
{
    let all = a + b;
    if a.len() == 0 {
        assert(all =~= b);
        assert(percent_bytes(a) + percent_bytes(b) =~= percent_bytes(b));
    } else if starts_with_escape(a) {
        decoding_goes_piece_by_piece(a.skip(3), b);
        assert(all.skip(3) =~= a.skip(3) + b);
        assert(percent_bytes(all) =~= percent_bytes(a) + percent_bytes(b));
    } else {
        decoding_goes_piece_by_piece(a.skip(1), b);
        assert(all.skip(1) =~= a.skip(1) + b);
        assert(!starts_with_escape(all));
        assert(percent_bytes(all) =~= percent_bytes(a) + percent_bytes(b));
    }
}

/// A percent sign and two hexadecimal digits, of either case, stand for the byte that the digits
/// write in base 16.
pub proof fn escapes_stand_for_their_byte(high: u8, low: u8, rest: Seq<u8>)
    requires
        48 <= high <= 57 || 65 <= high <= 70 || 97 <= high <= 102,
        48 <= low <= 57 || 65 <= low <= 70 || 97 <= low <= 102,
    ensures
        ({
            let value = |d: u8|
                if d <= 57 {
                    d - 48
                } else if d <= 70 {
                    d - 55
                } else {
                    d - 87
                };
            percent_bytes(seq![37u8, high, low] + rest) == seq![
                (16 * value(high) + value(low)) as u8,
            ] + percent_bytes(rest)
        }),
{
    let b = seq![37u8, high, low] + rest;
    assert(b[0] == 37 && b[1] == high && b[2] == low);
    assert(b.skip(3) =~= rest);
}

/// A percent sign without two hexadecimal digits after it stands for itself.
pub proof fn broken_escapes_stay(rest: Seq<u8>)
    requires
        rest.len() < 2 || !(48 <= rest[0] <= 57 || 65 <= rest[0] <= 70 || 97 <= rest[0] <= 102)
            || !(48 <= rest[1] <= 57 || 65 <= rest[1] <= 70 || 97 <= rest[1] <= 102),
    ensures
        percent_bytes(seq![37u8] + rest) == seq![37u8] + percent_bytes(rest),
{
    let b = seq![37u8] + rest;
    assert(b.skip(1) =~= rest);
    if b.len() >= 3 {
        assert(b[1] == rest[0] && b[2] == rest[1]);
    }
}

/// The digits that `hex` knows are the hexadecimal ones, of either case.
pub proof fn hexadecimal_digits(b: u8)
    ensures
        hex_value(b) is Some <==> 48 <= b <= 57 || 65 <= b <= 70 || 97 <= b <= 102,
        48 <= b <= 57 ==> hex_value(b)->0 == b - 48,
        65 <= b <= 70 ==> hex_value(b)->0 == b - 55,
        97 <= b <= 102 ==> hex_value(b)->0 == b - 87,
{
}

/// A decoded text has the decoded bytes as its encoding, if they are UTF-8; otherwise it is what
/// stands for them.
pub proof fn decoded_text_has_the_decoded_bytes(s: Seq<char>)
    ensures
        ({
            let bytes = percent_bytes(encode_utf8(s));
            &&& valid_utf8(bytes) ==> encode_utf8(percent_decoded(s)) == bytes
            &&& !valid_utf8(bytes) ==> percent_decoded(s) == lossy_utf8(bytes)
        }),
{
    let bytes = percent_bytes(encode_utf8(s));
    if valid_utf8(bytes) {
        decode_utf8_encode_utf8(bytes);
    }
}

/// What a map of strings holds is the text of each string.
pub proof fn text_maps_hold_everything(m: Map<Seq<char>, String>)
    ensures
        text_map(m).dom() == m.dom(),
        forall|k: Seq<char>| m.contains_key(k) ==> #[trigger] text_map(m)[k] == m[k]@,
{
    assert(text_map(m).dom() =~= m.dom());
}

/// The pieces of two texts with a separator between them.
proof fn lemma_joined_pieces(a: Seq<char>, b: Seq<char>, c: char)
    ensures
        pieces(a + seq![c] + b, c) == pieces(a, c) + pieces(b, c),
    decreases a.len(),
{
    let all = a + seq![c] + b;
    lemma_first_index(a, c);
    if a.contains(c) {
        let k = first_index(a, c);
        let (left, right) = (before_first(a, c), after_first(a, c));
        let rest = right + seq![c] + b;
        assert(a =~= left + seq![c] + right);
        assert forall|i: int| 0 <= i < left.len() implies left[i] != c by {
            assert(left[i] == a[i]);
        }
        assert(all =~= left + seq![c] + rest);
        lemma_first_cut(all, left, c, rest);
        lemma_joined_pieces(right, b, c);
        assert(pieces(all, c) =~= pieces(a, c) + pieces(b, c));
    } else {
        lemma_first_cut(all, a, c, b);
        assert(pieces(all, c) =~= pieces(a, c) + pieces(b, c));
    }
}

/// The parameters of two lists of parts.
proof fn lemma_joined_parameters(a: Seq<Seq<char>>, b: Seq<Seq<char>>)
    ensures
        parameters(a + b) == parameters(a).union_prefer_right(parameters(b)),
    decreases b.len(),
{
    if b.len() == 0 {
        assert(a + b =~= a);
        assert(parameters(a).union_prefer_right(parameters(b)) =~= parameters(a));
    } else {
        assert((a + b).drop_last() =~= a + b.drop_last());
        assert((a + b).last() == b.last());
        lemma_joined_parameters(a, b.drop_last());
        assert(parameters(a + b) =~= parameters(a).union_prefer_right(parameters(b)));
    }
}

/// Two queries with an ampersand between them set what each of them sets, the second one over the
/// first.
pub proof fn ampersands_join_queries(a: Seq<char>, b: Seq<char>)
    ensures
        query_parameters(a + seq!['&'] + b) == query_parameters(a).union_prefer_right(
            query_parameters(b),
        ),
{
    lemma_joined_pieces(a, b, '&');
    lemma_joined_parameters(pieces(a, '&'), pieces(b, '&'));
}

/// A query without ampersands sets one parameter: what stands before its first equals sign, to
/// what stands after it, or to nothing if there is none. An empty query sets none.
pub proof fn one_part_sets_one_parameter(name: Seq<char>, value: Seq<char>)
    requires
        !name.contains('&'),
        !name.contains('='),
        !value.contains('&'),
    ensures
        query_parameters(name + seq!['='] + value) == Map::<Seq<char>, Seq<char>>::empty().insert(
            percent_decoded(name),
            percent_decoded(value),
        ),
        name.len() > 0 ==> query_parameters(name) == Map::<Seq<char>, Seq<char>>::empty().insert(
            percent_decoded(name),
            Seq::empty(),
        ),
        name.len() == 0 ==> query_parameters(name) == Map::<Seq<char>, Seq<char>>::empty(),
{
    let part = name + seq!['='] + value;
    assert forall|i: int| 0 <= i < part.len() implies part[i] != '&' by {
        if i < name.len() {
            assert(name.contains(name[i]));
        } else if i > name.len() {
            assert(value.contains(value[i - name.len() - 1]));
        }
    }
    lemma_first_cut(part, name, '=', value);
    lemma_single_piece(part);
    lemma_single_piece(name);
    lemma_first_index(name, '=');
    assert(name.take(name.len() as int) =~= name);
    assert(encode_utf8(Seq::<char>::empty()) =~= Seq::<u8>::empty());
    plain_text_is_kept(Seq::empty());
}

/// A query without ampersands is one part.
proof fn lemma_single_piece(part: Seq<char>)
    requires
        !part.contains('&'),
    ensures
        query_parameters(part) == if part.len() == 0 {
            Map::empty()
        } else {
            Map::<Seq<char>, Seq<char>>::empty().insert(
                percent_decoded(before_first(part, '=')),
                percent_decoded(after_first(part, '=')),
            )
        },
{
    lemma_first_index(part, '&');
    let parts = pieces(part, '&');
    assert(parts == seq![part]);
    assert(parts.drop_last() =~= Seq::empty());
    assert(parameters(parts.drop_last()) == Map::<Seq<char>, Seq<char>>::empty());
}

/// The first separator cuts a text: what stands before it holds none, and text, separator and
/// rest make the whole. Without a separator all of it stands before.
pub proof fn texts_are_cut_at_the_first_separator(s: Seq<char>, c: char)
    ensures
        !before_first(s, c).contains(c),
        s.contains(c) ==> s == before_first(s, c) + seq![c] + after_first(s, c),
        !s.contains(c) ==> before_first(s, c) == s && after_first(s, c).len() == 0,
{
    lemma_first_index(s, c);
    let k = first_index(s, c);
    let left = before_first(s, c);
    assert forall|i: int| 0 <= i < left.len() implies left[i] != c by {
        assert(left[i] == s[i]);
    }
    if s.contains(c) {
        assert(s =~= left + seq![c] + after_first(s, c));
    } else {
        assert(left =~= s);
    }
}

} // verus!
