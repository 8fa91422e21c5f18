//! Text helpers: UTF-8, decimal numbers, white space and splitting.
use vstd::arithmetic::power::pow;
use vstd::prelude::*;
use vstd::slice::slice_subrange;
use vstd::utf8::{char_is_scalar, decode_utf8, encode_scalar, encode_utf8, valid_utf8};

verus! {

/// `String::from_utf8`: the text that `bytes` encode, if they are UTF-8 at all.
///
/// Trusted: the call succeeds on exactly the byte sequences that are valid UTF-8, and the
/// string holds the characters that they encode.
#[verifier::external_body]
pub(crate) fn string_from_utf8(bytes: Vec<u8>) -> (r: Option<String>)
    ensures
        r is Some <==> valid_utf8(bytes@),
        r matches Some(s) ==> s@ == decode_utf8(bytes@),
{
    String::from_utf8(bytes).ok()
}

/// What `String::from_utf8_lossy` makes of `bytes`.
pub uninterp spec fn lossy_utf8(bytes: Seq<u8>) -> Seq<char>;

/// `String::from_utf8_lossy`: the text of `bytes`, with a replacement character for what is
/// not UTF-8.
///
/// Trusted: the result depends on the bytes alone, and valid UTF-8 comes out as the characters
/// that it encodes. How many replacement characters stand for an invalid run is left to the
/// name.
#[verifier::external_body]
pub(crate) fn string_from_utf8_lossy(bytes: &[u8]) -> (s: String)
    ensures
        s@ == lossy_utf8(bytes@),
        valid_utf8(bytes@) ==> s@ == decode_utf8(bytes@),
{
    String::from_utf8_lossy(bytes).to_string()
}

/// The text of `bytes`: the characters that they encode, or what stands for them if they are
/// not UTF-8.
pub open spec fn lossy_text(bytes: Seq<u8>) -> Seq<char> {
    if valid_utf8(bytes) {
        decode_utf8(bytes)
    } else {
        lossy_utf8(bytes)
    }
}

/// The characters of `s`.
pub fn char_vec(s: &str) -> (v: Vec<char>)
    ensures
        v@ == s@,
{
    let mut v: Vec<char> = Vec::new();
    for c in it: s.chars()
        invariant
            it.seq() == s@,
            v@ == s@.take(it.index() as int),
    {
        v.push(c);
        assert(v@ =~= s@.take(it.index() as int + 1));
    }
    assert(v@ =~= s@);
    v
}

/// Whether `a` and `b` are the same text.
pub fn same_text(a: &str, b: &str) -> (r: bool)
    ensures
        r == (a@ == b@),
{
    a.to_owned() == b.to_owned()
}

/// Index of the first `c` in `s`, counted in characters.
pub fn find_char(s: &str, c: char) -> (r: Option<usize>)
    ensures
        match r {
            Some(i) => i < s@.len() && s@[i as int] == c && !s@.take(i as int).contains(c),
            None => !s@.contains(c),
        },
{
    let chars: Vec<char> = char_vec(s);
    let mut i: usize = 0;
    while i < chars.len()
        invariant
            i <= chars@.len(),
            chars@ == s@,
            forall|j: int| 0 <= j < i ==> s@[j] != c,
        decreases chars@.len() - i,
    {
        if chars[i] == c {
            return Some(i);
        }
        i = i + 1;
    }
    None
}

/// `s` cut at the first `c`, which is in neither part; `None` if there is no `c`.
pub fn split_once(s: &str, c: char) -> (r: Option<(String, String)>)
    ensures
        match r {
            Some((left, right)) => s@ == left@ + seq![c] + right@ && !left@.contains(c),
            None => !s@.contains(c),
        },
{
    match find_char(s, c) {
        Some(i) => {
            let left: String = s.substring_char(0, i).to_owned();
            let total: usize = s.unicode_len();
            let right: String = s.substring_char(i + 1, total).to_owned();
            assert(left@ =~= s@.take(i as int));
            assert(s@ =~= left@ + seq![c] + right@);
            Some((left, right))
        },
        None => None,
    }
}

/// The decimal digit of `d`.
pub open spec fn digit(d: nat) -> char {
    (d + 48) as char
}

/// `n` in decimal, without leading zeros.
pub open spec fn decimal(n: nat) -> Seq<char>
    decreases n,
{
    if n < 10 {
        seq![digit(n)]
    } else {
        decimal(n / 10).push(digit(n % 10))
    }
}

/// Whether `s` is made of decimal digits.
pub open spec fn all_digits(s: Seq<char>) -> bool {
    forall|i: int| 0 <= i < s.len() ==> '0' <= #[trigger] s[i] <= '9'
}

/// The number that decimal digits stand for.
pub open spec fn decimal_value(s: Seq<char>) -> nat
    decreases s.len(),
{
    if s.len() == 0 {
        0
    } else {
        (decimal_value(s.drop_last()) * 10 + (s.last() as int - 48)) as nat
    }
}

/// `s` without a plus sign at its start.
pub open spec fn unsigned_digits(s: Seq<char>) -> Seq<char> {
    if s.len() > 0 && s[0] == '+' {
        s.drop_first()
    } else {
        s
    }
}

/// The number that `s` writes, however large: an optional plus sign, then decimal digits, at
/// least one.
pub open spec fn written_decimal(s: Seq<char>) -> Option<nat> {
    let digits = unsigned_digits(s);
    if digits.len() > 0 && all_digits(digits) {
        Some(decimal_value(digits))
    } else {
        None
    }
}

/// The number that `s` writes, if it is at most `max`.
pub open spec fn parsed_decimal(s: Seq<char>, max: nat) -> Option<nat> {
    match written_decimal(s) {
        Some(n) => if n <= max {
            Some(n)
        } else {
            None
        },
        None => None,
    }
}

/// One digit as text.
fn digit_text(d: usize) -> (s: &'static str)
    requires
        d < 10,
    ensures
        s@ == seq![digit(d as nat)],
{
    proof {
        reveal_strlit("0");
        reveal_strlit("1");
        reveal_strlit("2");
        reveal_strlit("3");
        reveal_strlit("4");
        reveal_strlit("5");
        reveal_strlit("6");
        reveal_strlit("7");
        reveal_strlit("8");
        reveal_strlit("9");
    }
    let s: &'static str = match d {
        0 => "0",
        1 => "1",
        2 => "2",
        3 => "3",
        4 => "4",
        5 => "5",
        6 => "6",
        7 => "7",
        8 => "8",
        _ => "9",
    };
    assert(s@ =~= seq![digit(d as nat)]);
    s
}

/// Appends `n` in decimal.
pub fn push_decimal(out: &mut String, n: usize)
    ensures
        final(out)@ == old(out)@ + decimal(n as nat),
    decreases n,
{
    if n >= 10 {
        push_decimal(out, n / 10);
    }
    out.append(digit_text(n % 10));
    assert(out@ =~= old(out)@ + decimal(n as nat));
}

/// More digits never make a number smaller.
proof fn lemma_decimal_value_prefix(s: Seq<char>, n: int)
    requires
        0 <= n <= s.len(),
        all_digits(s),
    ensures
        decimal_value(s.take(n)) <= decimal_value(s),
    decreases s.len(),
{
    if n == s.len() {
        assert(s.take(n) =~= s);
    } else {
        let front = s.drop_last();
        assert(front.take(n) =~= s.take(n));
        assert forall|i: int| 0 <= i < front.len() implies '0' <= #[trigger] front[i] <= '9' by {
            assert(front[i] == s[i]);
        }
        lemma_decimal_value_prefix(front, n);
        assert(s[s.len() - 1] >= '0');
    }
}

/// Reads a decimal number that is at most `max`.
pub fn parse_decimal(s: &[char], max: usize) -> (r: Option<usize>)
    ensures
        match r {
            Some(n) => parsed_decimal(s@, max as nat) == Some(n as nat),
            None => parsed_decimal(s@, max as nat) is None,
        },
{
    let from: usize = if s.len() > 0 && s[0] == '+' { 1 } else { 0 };
    let ghost digits = unsigned_digits(s@);
    assert(digits =~= s@.subrange(from as int, s@.len() as int));
    if from == s.len() {
        return None;
    }
    let mut i: usize = from;
    let mut value: usize = 0;
    assert(digits.take(0) =~= Seq::empty());
    while i < s.len()
        invariant
            from <= i <= s.len() == s@.len(),
            digits == s@.subrange(from as int, s@.len() as int),
            digits == unsigned_digits(s@),
            digits.len() > 0,
            value == decimal_value(digits.take(i - from)),
            value <= max,
            forall|j: int| 0 <= j < i - from ==> '0' <= #[trigger] digits[j] <= '9',
        decreases s@.len() - i,
    {
        let c: char = s[i];
        assert(c == digits[i - from]);
        if c < '0' || c > '9' {
            return None;
        }
        let d: usize = c as usize - 48;
        proof {
            assert(digits.take(i - from + 1).drop_last() =~= digits.take(i - from));
            if all_digits(digits) {
                lemma_decimal_value_prefix(digits, i - from + 1);
            }
        }
        if d > max || value > (max - d) / 10 {
            return None;
        }
        value = value * 10 + d;
        i = i + 1;
    }
    assert(digits.take(i - from) =~= digits);
    Some(value)
}

/// Whether `s` writes a decimal number, however large.
pub fn is_decimal(s: &[char]) -> (r: bool)
    ensures
        r == written_decimal(s@) is Some,
{
    let from: usize = if s.len() > 0 && s[0] == '+' { 1 } else { 0 };
    let ghost digits = unsigned_digits(s@);
    assert(digits =~= s@.subrange(from as int, s@.len() as int));
    let mut i: usize = from;
    while i < s.len()
        invariant
            from <= i <= s.len() == s@.len(),
            digits == s@.subrange(from as int, s@.len() as int),
            digits == unsigned_digits(s@),
            forall|j: int| 0 <= j < i - from ==> '0' <= #[trigger] digits[j] <= '9',
        decreases s@.len() - i,
    {
        let c: char = s[i];
        assert(c == digits[i - from]);
        if c < '0' || c > '9' {
            return false;
        }
        i = i + 1;
    }
    from < s.len()
}

/// The decimal digits of a number stand for that number.
pub proof fn decimal_reads_back(n: nat)
    ensures
        decimal(n).len() > 0,
        all_digits(decimal(n)),
        decimal_value(decimal(n)) == n,
        parsed_decimal(decimal(n), n) == Some(n),
    decreases n,
{
    if n >= 10 {
        decimal_reads_back(n / 10);
        assert(decimal(n).drop_last() =~= decimal(n / 10));
        assert forall|i: int| 0 <= i < decimal(n).len() implies '0' <= #[trigger] decimal(n)[i]
            <= '9' by {
            if i < decimal(n / 10).len() {
                assert(decimal(n)[i] == decimal(n / 10)[i]);
            }
        }
    } else {
        assert(decimal(n).drop_last() =~= Seq::empty());
        assert(decimal_value(Seq::empty()) == 0);
    }
    assert(decimal(n).last() == digit(n % 10));
    assert(digit(n % 10) as int - 48 == n % 10);
    assert('0' <= decimal(n)[0] <= '9');
}

/// Whether `c` has the Unicode property White_Space.
pub open spec fn white_space(c: char) -> bool {
    ||| '\u{9}' <= c <= '\u{d}'
    ||| c == '\u{20}'
    ||| c == '\u{85}'
    ||| c == '\u{a0}'
    ||| c == '\u{1680}'
    ||| '\u{2000}' <= c <= '\u{200a}'
    ||| c == '\u{2028}'
    ||| c == '\u{2029}'
    ||| c == '\u{202f}'
    ||| c == '\u{205f}'
    ||| c == '\u{3000}'
}

/// Whether `c` has the Unicode property White_Space.
fn is_white_space(c: char) -> (r: bool)
    ensures
        r == white_space(c),
{
    ('\u{9}' <= c && c <= '\u{d}') || c == '\u{20}' || c == '\u{85}' || c == '\u{a0}' || c
        == '\u{1680}' || ('\u{2000}' <= c && c <= '\u{200a}') || c == '\u{2028}' || c
        == '\u{2029}' || c == '\u{202f}' || c == '\u{205f}' || c == '\u{3000}'
}

/// `s` without its leading and trailing white space.
pub open spec fn trimmed(s: Seq<char>) -> Seq<char>
    decreases s.len(),
{
    if s.len() > 0 && white_space(s[0]) {
        trimmed(s.drop_first())
    } else if s.len() > 0 && white_space(s.last()) {
        trimmed(s.drop_last())
    } else {
        s
    }
}

/// `s` without its leading and trailing white space.
pub fn trim(s: &[char]) -> (t: &[char])
    ensures
        t@ == trimmed(s@),
{
    let mut from: usize = 0;
    let mut to: usize = s.len();
    assert(s@.subrange(0, s@.len() as int) =~= s@);
    while from < to && is_white_space(s[from])
        invariant
            from <= to == s@.len(),
            trimmed(s@) == trimmed(s@.subrange(from as int, to as int)),
        decreases to - from,
    {
        let ghost rest = s@.subrange(from as int, to as int);
        assert(rest.drop_first() =~= s@.subrange(from + 1, to as int));
        from = from + 1;
    }
    while from < to && is_white_space(s[to - 1])
        invariant
            from <= to <= s@.len(),
            from < to ==> !white_space(s@[from as int]),
            trimmed(s@) == trimmed(s@.subrange(from as int, to as int)),
        decreases to - from,
    {
        let ghost rest = s@.subrange(from as int, to as int);
        assert(rest.drop_last() =~= s@.subrange(from as int, to - 1));
        to = to - 1;
    }
    slice_subrange(s, from, to)
}

/// `c` in ASCII lower case.
pub open spec fn ascii_lower(c: char) -> char {
    if 'A' <= c <= 'Z' {
        (c as int + 32) as char
    } else {
        c
    }
}

/// Whether `a` and `b` only differ in the case of ASCII letters.
pub open spec fn same_ignoring_case(a: Seq<char>, b: Seq<char>) -> bool {
    &&& a.len() == b.len()
    &&& forall|i: int| 0 <= i < a.len() ==> ascii_lower(#[trigger] a[i]) == ascii_lower(b[i])
}

/// `c` in ASCII lower case.
fn to_ascii_lower(c: char) -> (r: char)
    ensures
        r == ascii_lower(c),
{
    if 'A' <= c && c <= 'Z' {
        (c as u8 + 32) as char
    } else {
        c
    }
}

/// Whether `a` and `b` only differ in the case of ASCII letters.
pub fn eq_ignore_ascii_case(a: &str, b: &str) -> (r: bool)
    ensures
        r == same_ignoring_case(a@, b@),
{
    let left: Vec<char> = char_vec(a);
    let right: Vec<char> = char_vec(b);
    if left.len() != right.len() {
        return false;
    }
    let mut i: usize = 0;
    while i < left.len()
        invariant
            i <= left@.len() == right@.len(),
            left@ == a@,
            right@ == b@,
            forall|j: int| 0 <= j < i ==> ascii_lower(#[trigger] a@[j]) == ascii_lower(b@[j]),
        decreases left@.len() - i,
    {
        if to_ascii_lower(left[i]) != to_ascii_lower(right[i]) {
            return false;
        }
        i = i + 1;
    }
    true
}

/// The encoding of a character is the character itself or has no ASCII byte.
proof fn lemma_encoded_bytes(c: char)
    ensures
        forall|i: int|
            0 <= i < encode_scalar(c as u32).len() ==> #[trigger] encode_scalar(c as u32)[i] >= 0x80
                || encode_scalar(c as u32)[i] == c as int,
{
    let u = c as u32;
    char_is_scalar(c);
    assert(u <= 0x7f ==> (u & 0x7f) as u8 == u) by (bit_vector);
    assert(0xC0u8 | ((u >> 6) & 0x1F) as u8 >= 0x80) by (bit_vector);
    assert(0xE0u8 | ((u >> 12) & 0x0F) as u8 >= 0x80) by (bit_vector);
    assert(0xF0u8 | ((u >> 18) & 0x7) as u8 >= 0x80) by (bit_vector);
    assert(0x80u8 | (u & 0x3F) as u8 >= 0x80) by (bit_vector);
    assert(0x80u8 | ((u >> 6) & 0x3F) as u8 >= 0x80) by (bit_vector);
    assert(0x80u8 | ((u >> 12) & 0x3F) as u8 >= 0x80) by (bit_vector);
}

/// An ASCII character that is not in a text is not in its encoding.
pub proof fn lemma_absent_byte(text: Seq<char>, c: char)
    requires
        c < '\u{80}',
        !text.contains(c),
    ensures
        !encode_utf8(text).contains(c as u8),
    decreases text.len(),
{
    if text.len() > 0 {
        let rest = text.drop_first();
        assert(text[0] != c);
        assert forall|i: int| 0 <= i < rest.len() implies rest[i] != c by {
            assert(rest[i] == text[i + 1]);
        }
        lemma_absent_byte(rest, c);
        let head: char = text[0];
        lemma_encoded_bytes(head);
        let first = encode_scalar(head as u32);
        assert forall|i: int| 0 <= i < encode_utf8(text).len() implies encode_utf8(text)[i]
            != c as u8 by {
            if i < first.len() {
                assert(encode_utf8(text)[i] == first[i]);
                assert(first[i] >= 0x80 || first[i] == head as int);
            } else {
                let j = i - first.len();
                assert(encode_utf8(text)[i] == encode_utf8(rest)[j]);
                assert(encode_utf8(rest).contains(encode_utf8(rest)[j]));
            }
        }
    }
}

/// The encoding of two texts one after the other is their encodings one after the other.
pub proof fn lemma_encode_concat(a: Seq<char>, b: Seq<char>)
    ensures
        encode_utf8(a + b) == encode_utf8(a) + encode_utf8(b),
    decreases a.len(),
{
    if a.len() == 0 {
        assert(a + b =~= b);
        assert(encode_utf8(a) + encode_utf8(b) =~= encode_utf8(b));
    } else {
        lemma_encode_concat(a.drop_first(), b);
        assert((a + b).drop_first() =~= a.drop_first() + b);
        assert(encode_utf8(a + b) =~= encode_utf8(a) + encode_utf8(b));
    }
}

/// Decimal digits count by their place: what follows moves the digits before it up by one power
/// of ten for each character, and a single digit counts as much as it says.
pub proof fn digits_have_their_place_value(a: Seq<char>, b: Seq<char>)
    requires
        forall|i: int| 0 <= i < a.len() ==> 48 <= #[trigger] a[i] as int <= 57,
        forall|i: int| 0 <= i < b.len() ==> 48 <= #[trigger] b[i] as int <= 57,
    ensures
        decimal_value(a + b) == decimal_value(a) * pow(10, b.len()) + decimal_value(b),
        b.len() == 0 ==> decimal_value(b) == 0,
        b.len() == 1 ==> decimal_value(b) == b[0] as int - 48,
    decreases b.len(),
{
    reveal(pow);
    if b.len() == 0 {
        assert(a + b =~= a);
        assert(decimal_value(a) * 1 == decimal_value(a));
    } else {
        let front = b.drop_last();
        assert((a + b).drop_last() =~= a + front);
        assert forall|i: int| 0 <= i < front.len() implies 48 <= #[trigger] front[i] as int
            <= 57 by {
            assert(front[i] == b[i]);
        }
        digits_have_their_place_value(a, front);
        assert(48 <= b[b.len() - 1] as int <= 57);
        let (v, p) = (decimal_value(a) as int, pow(10, front.len()));
        assert(pow(10, b.len()) == 10 * p);
        assert((v * p) * 10 == v * (10 * p)) by (nonlinear_arith);
    }
}

/// A number is written in decimal digits that stand for it, without a leading zero.
pub proof fn decimal_has_no_leading_zero(n: nat)
    ensures
        decimal_value(decimal(n)) == n,
        decimal(n).len() > 0,
        n > 0 ==> decimal(n)[0] != '0',
        n == 0 ==> decimal(n).len() == 1,
        forall|i: int| 0 <= i < decimal(n).len() ==> 48 <= #[trigger] decimal(n)[i] as int <= 57,
    decreases n,
{
    decimal_reads_back(n);
    if n >= 10 {
        decimal_has_no_leading_zero(n / 10);
        assert(decimal(n)[0] == decimal(n / 10)[0]);
    } else {
        assert(digit(n) as int == n + 48);
    }
    assert forall|i: int| 0 <= i < decimal(n).len() implies 48 <= #[trigger] decimal(n)[i] as int
        <= 57 by {
        assert('0' <= decimal(n)[i] <= '9');
    }
}

/// A text writes a number exactly if it is decimal digits, at least one, with a plus sign before
/// them or not; the sign changes nothing.
pub proof fn numbers_are_digits(digits: Seq<char>)
    requires
        digits.len() > 0 ==> digits[0] != '+',
    ensures
        written_decimal(digits) == if digits.len() > 0 && forall|i: int|
            0 <= i < digits.len() ==> 48 <= #[trigger] digits[i] as int <= 57 {
            Some(decimal_value(digits))
        } else {
            None
        },
        written_decimal(seq!['+'] + digits) == written_decimal(digits),
        written_decimal(seq!['+'] + (seq!['+'] + digits)) is None,
{
    assert((seq!['+'] + digits).drop_first() =~= digits);
    let twice = seq!['+'] + (seq!['+'] + digits);
    assert(twice.drop_first() =~= seq!['+'] + digits);
    assert((seq!['+'] + digits)[0] == '+');
    if all_digits(digits) {
        assert forall|i: int| 0 <= i < digits.len() implies 48 <= #[trigger] digits[i] as int
            <= 57 by {
            assert('0' <= digits[i] <= '9');
        }
    }
}

/// Numbers up to the limit are read as what they are, and none above it.
pub proof fn numbers_are_limited(s: Seq<char>, max: nat)
    ensures
        parsed_decimal(s, max) is Some <==> written_decimal(s) is Some && written_decimal(s)->0
            <= max,
        parsed_decimal(s, max) is Some ==> parsed_decimal(s, max) == written_decimal(s),
{
}

/// Trimming takes off the white space around a text and nothing of the text.
pub proof fn trimming_leaves_the_text(before: Seq<char>, text: Seq<char>, after: Seq<char>)
    requires
        forall|i: int| 0 <= i < before.len() ==> white_space(#[trigger] before[i]),
        forall|i: int| 0 <= i < after.len() ==> white_space(#[trigger] after[i]),
        text.len() > 0 ==> !white_space(text[0]) && !white_space(text.last()),
    ensures
        trimmed(before + text + after) == text,
    decreases before.len() + after.len(),
{
    let s = before + text + after;
    if before.len() > 0 {
        assert(white_space(before[0]));
        let rest = before.drop_first();
        assert(s.drop_first() =~= rest + text + after);
        trimming_leaves_the_text(rest, text, after);
    } else if after.len() > 0 {
        let rest = after.drop_last();
        assert(white_space(after[after.len() - 1]));
        if text.len() == 0 {
            assert(white_space(after[0]));
            let tail = after.drop_first();
            assert(s.drop_first() =~= before + text + tail);
            trimming_leaves_the_text(before, text, tail);
        } else {
            assert(s[0] == text[0]);
            assert(s.drop_last() =~= before + text + rest);
            trimming_leaves_the_text(before, text, rest);
        }
    } else {
        assert(s =~= text);
    }
}

/// Two texts are the same but for case exactly if they are as long and agree character by
/// character, where a capital ASCII letter agrees with the letter 32 places after it.
pub proof fn case_is_all_that_is_ignored(a: Seq<char>, b: Seq<char>)
    ensures
        same_ignoring_case(a, b) <==> a.len() == b.len() && forall|i: int|
            0 <= i < a.len() ==> {
                let (x, y) = (#[trigger] a[i] as int, b[i] as int);
                x == y || (65 <= x <= 90 && y == x + 32) || (65 <= y <= 90 && x == y + 32)
            },
{
    assert forall|i: int| 0 <= i < a.len() && i < b.len() implies (ascii_lower(#[trigger] a[i])
        == ascii_lower(b[i])) == {
        let (x, y) = (a[i] as int, b[i] as int);
        x == y || (65 <= x <= 90 && y == x + 32) || (65 <= y <= 90 && x == y + 32)
    } by {
        lemma_lower(a[i], b[i]);
    }
}

/// When two characters have the same lower case.
proof fn lemma_lower(a: char, b: char)
    ensures
        (ascii_lower(a) == ascii_lower(b)) == {
            let (x, y) = (a as int, b as int);
            x == y || (65 <= x <= 90 && y == x + 32) || (65 <= y <= 90 && x == y + 32)
        },
{
}

} // verus!
