//! Big-endian integers and concatenation on byte sequences.
use vstd::prelude::*;
use vstd::slice::slice_subrange;

verus! {

/// The two-byte big-endian number at `at`.
pub open spec fn be16(b: Seq<u8>, at: int) -> nat {
    (b[at] * 0x100 + b[at + 1]) as nat
}

/// The four-byte big-endian number at `at`.
pub open spec fn be32(b: Seq<u8>, at: int) -> nat {
    (b[at] * 0x100_0000 + b[at + 1] * 0x1_0000 + b[at + 2] * 0x100 + b[at + 3]) as nat
}

/// `n` as two big-endian bytes.
pub open spec fn be16_bytes(n: nat) -> Seq<u8> {
    seq![(n / 0x100) as u8, (n % 0x100) as u8]
}

/// `n` as four big-endian bytes.
pub open spec fn be32_bytes(n: nat) -> Seq<u8> {
    seq![
        (n / 0x100_0000) as u8,
        (n / 0x1_0000 % 0x100) as u8,
        (n / 0x100 % 0x100) as u8,
        (n % 0x100) as u8,
    ]
}

/// All parts one after the other.
pub open spec fn concat(parts: Seq<Seq<u8>>) -> Seq<u8>
    decreases parts.len(),
{
    if parts.len() == 0 {
        Seq::empty()
    } else {
        concat(parts.drop_last()) + parts.last()
    }
}

/// The lengths of all parts, four big-endian bytes each.
pub open spec fn length_table(parts: Seq<Seq<u8>>) -> Seq<u8>
    decreases parts.len(),
{
    if parts.len() == 0 {
        Seq::empty()
    } else {
        length_table(parts.drop_last()) + be32_bytes(parts.last().len())
    }
}

/// What the vectors hold.
pub open spec fn views(parts: Seq<Vec<u8>>) -> Seq<Seq<u8>> {
    Seq::new(parts.len(), |i: int| parts[i]@)
}

/// Two big-endian bytes hold a number below 65536 and give it back.
pub proof fn lemma_be16_round_trip(n: nat)
    requires
        n < 0x1_0000,
    ensures
        be16_bytes(n).len() == 2,
        be16(be16_bytes(n), 0) == n,
{
}

/// Four big-endian bytes hold a number below 2^32 and give it back.
pub proof fn lemma_be32_round_trip(n: nat)
    requires
        n < 0x1_0000_0000,
    ensures
        be32_bytes(n).len() == 4,
        be32(be32_bytes(n), 0) == n,
{
    let (a, b, c, d) = (
        n / 0x100_0000,
        n / 0x1_0000 % 0x100,
        n / 0x100 % 0x100,
        n % 0x100,
    );
    assert(a < 0x100);
    assert(n == a * 0x100_0000 + b * 0x1_0000 + c * 0x100 + d);
}

/// The bytes of a four-byte number are its base-256 digits.
proof fn lemma_digits(a: int, b: int, c: int, d: int, n: int)
    requires
        0 <= a < 0x100,
        0 <= b < 0x100,
        0 <= c < 0x100,
        0 <= d < 0x100,
        n == a * 0x100_0000 + b * 0x1_0000 + c * 0x100 + d,
    ensures
        0 <= n < 0x1_0000_0000,
        n / 0x100_0000 == a,
        n / 0x1_0000 % 0x100 == b,
        n / 0x100 % 0x100 == c,
        n % 0x100 == d,
{
    assert(n / 0x1_0000 == a * 0x100 + b);
    assert(n / 0x100 == (a * 0x100 + b) * 0x100 + c);
}

/// Writing the number that two bytes hold gives the same two bytes.
pub proof fn lemma_be16_bytes_of(b: Seq<u8>, at: int)
    requires
        0 <= at,
        at + 2 <= b.len(),
    ensures
        be16(b, at) < 0x1_0000,
        be16_bytes(be16(b, at)) == b.subrange(at, at + 2),
{
    assert(be16_bytes(be16(b, at)) =~= b.subrange(at, at + 2));
}

/// Writing the number that four bytes hold gives the same four bytes.
pub proof fn lemma_be32_bytes_of(b: Seq<u8>, at: int)
    requires
        0 <= at,
        at + 4 <= b.len(),
    ensures
        be32(b, at) < 0x1_0000_0000,
        be32_bytes(be32(b, at)) == b.subrange(at, at + 4),
{
    lemma_digits(
        b[at] as int,
        b[at + 1] as int,
        b[at + 2] as int,
        b[at + 3] as int,
        be32(b, at) as int,
    );
    let s = be32_bytes(be32(b, at));
    let t = b.subrange(at, at + 4);
    assert(s[0] == t[0] && s[1] == t[1] && s[2] == t[2] && s[3] == t[3]);
    assert(s =~= t);
}

/// The number at `at` only depends on the bytes there.
pub proof fn lemma_be_at(b: Seq<u8>, at: int, part: Seq<u8>)
    requires
        0 <= at,
        at + part.len() <= b.len(),
        b.subrange(at, at + part.len()) == part,
    ensures
        part.len() == 2 ==> be16(b, at) == be16(part, 0),
        part.len() == 4 ==> be32(b, at) == be32(part, 0),
{
    assert forall|i: int| 0 <= i < part.len() implies b[at + i] == part[i] by {
        assert(b.subrange(at, at + part.len())[i] == b[at + i]);
    }
    if part.len() == 4 {
        assert(b[at + 0] == part[0] && b[at + 1] == part[1] && b[at + 2] == part[2] && b[at + 3]
            == part[3]);
    }
    if part.len() == 2 {
        assert(b[at + 0] == part[0] && b[at + 1] == part[1]);
    }
}

/// Each length takes four bytes of the table.
pub proof fn lemma_length_table_len(parts: Seq<Seq<u8>>)
    ensures
        length_table(parts).len() == 4 * parts.len(),
    decreases parts.len(),
{
    if parts.len() > 0 {
        lemma_length_table_len(parts.drop_last());
    }
}

/// Entry `i` of the table is the length of part `i`.
pub proof fn lemma_length_table_entry(parts: Seq<Seq<u8>>, i: int)
    requires
        0 <= i < parts.len(),
    ensures
        length_table(parts).len() == 4 * parts.len(),
        length_table(parts).subrange(4 * i, 4 * i + 4) == be32_bytes(parts[i].len()),
    decreases parts.len(),
{
    lemma_length_table_len(parts);
    let front = parts.drop_last();
    lemma_length_table_len(front);
    let table = length_table(parts);
    if i == parts.len() - 1 {
        assert(table.subrange(4 * i, 4 * i + 4) =~= be32_bytes(parts[i].len()));
    } else {
        lemma_length_table_entry(front, i);
        assert(table.subrange(4 * i, 4 * i + 4) =~= length_table(front).subrange(4 * i, 4 * i + 4));
        assert(front[i] == parts[i]);
    }
}

/// Parts of known lengths can be told apart in their concatenation.
pub proof fn lemma_concat_injective(a: Seq<Seq<u8>>, b: Seq<Seq<u8>>)
    requires
        a.len() == b.len(),
        forall|i: int| 0 <= i < a.len() ==> #[trigger] a[i].len() == b[i].len(),
        concat(a) == concat(b),
    ensures
        a == b,
    decreases a.len(),
{
    if a.len() > 0 {
        let (fa, fb) = (a.drop_last(), b.drop_last());
        let n = concat(a).len() - a.last().len();
        assert(a[a.len() - 1].len() == b[a.len() - 1].len());
        assert(concat(fa) =~= concat(a).subrange(0, n));
        assert(concat(fb) =~= concat(b).subrange(0, n));
        assert(a.last() =~= concat(a).subrange(n, concat(a).len() as int));
        assert(b.last() =~= concat(b).subrange(n, concat(b).len() as int));
        assert forall|i: int| 0 <= i < fa.len() implies #[trigger] fa[i].len() == fb[i].len() by {
            assert(a[i].len() == b[i].len());
        }
        lemma_concat_injective(fa, fb);
        assert(a =~= fa.push(a.last()));
        assert(b =~= fb.push(b.last()));
    } else {
        assert(a =~= b);
    }
}

/// Reads the two-byte big-endian number at `at`.
pub fn read_be16(b: &[u8], at: usize) -> (n: usize)
    requires
        at + 2 <= b@.len(),
    ensures
        n == be16(b@, at as int),
        n == b@[at as int] * 256 + b@[at + 1],
        n < 0x1_0000,
{
    b[at] as usize * 0x100 + b[at + 1] as usize
}

/// Reads the four-byte big-endian number at `at`.
pub fn read_be32(b: &[u8], at: usize) -> (n: u32)
    requires
        at + 4 <= b@.len(),
    ensures
        n == be32(b@, at as int),
        n == b@[at as int] * 16777216 + b@[at + 1] * 65536 + b@[at + 2] * 256 + b@[at + 3],
{
    b[at] as u32 * 0x100_0000 + b[at + 1] as u32 * 0x1_0000 + b[at + 2] as u32 * 0x100 + b[at
        + 3] as u32
}

/// Appends `n` as four big-endian bytes.
pub fn push_be32(out: &mut Vec<u8>, n: u32)
    ensures
        final(out)@ == old(out)@ + be32_bytes(n as nat),
{
    out.push((n / 0x100_0000) as u8);
    out.push((n / 0x1_0000 % 0x100) as u8);
    out.push((n / 0x100 % 0x100) as u8);
    out.push((n % 0x100) as u8);
    assert(out@ =~= old(out)@ + be32_bytes(n as nat));
}

/// Appends a copy of `part`.
pub fn push_all(out: &mut Vec<u8>, part: &[u8])
    ensures
        final(out)@ == old(out)@ + part@,
{
    out.extend_from_slice(part);
    assert(out@ =~= old(out)@ + part@);
}

/// A copy of `b[from..to]`.
pub fn copy_range(b: &[u8], from: usize, to: usize) -> (part: Vec<u8>)
    requires
        from <= to <= b@.len(),
    ensures
        part@ == b@.subrange(from as int, to as int),
{
    let mut part: Vec<u8> = Vec::new();
    push_all(&mut part, slice_subrange(b, from, to));
    assert(part@ =~= b@.subrange(from as int, to as int));
    part
}

/// Two bytes hold the number that they write in base 256, the first byte counting most.
pub proof fn two_bytes_are_big_endian(b: Seq<u8>, at: int)
    requires
        0 <= at,
        at + 2 <= b.len(),
    ensures
        be16(b, at) == b[at] * 256 + b[at + 1],
{
}

/// Four bytes hold the number that they write in base 256, the first byte counting most.
pub proof fn four_bytes_are_big_endian(b: Seq<u8>, at: int)
    requires
        0 <= at,
        at + 4 <= b.len(),
    ensures
        be32(b, at) == b[at] * 16777216 + b[at + 1] * 65536 + b[at + 2] * 256 + b[at + 3],
{
}

/// The bytes that are written for a number below 65536 have that number as their value in base
/// 256, the first byte counting most.
pub proof fn written_two_bytes_are_big_endian(n: nat)
    requires
        n < 65536,
    ensures
        be16_bytes(n).len() == 2,
        be16_bytes(n)[0] * 256 + be16_bytes(n)[1] == n,
{
}

/// The bytes that are written for a number below 2^32 have that number as their value in base
/// 256, the first byte counting most.
pub proof fn written_four_bytes_are_big_endian(n: nat)
    requires
        n < 4294967296,
    ensures
        be32_bytes(n).len() == 4,
        be32_bytes(n)[0] * 16777216 + be32_bytes(n)[1] * 65536 + be32_bytes(n)[2] * 256
            + be32_bytes(n)[3] == n,
{
    lemma_be32_round_trip(n);
    four_bytes_are_big_endian(be32_bytes(n), 0);
}

/// Parts one after the other are the flattened sequence of the parts.
pub proof fn parts_follow_one_another(parts: Seq<Seq<u8>>)
    ensures
        concat(parts) == parts.flatten(),
    decreases parts.len(),
{
    parts.lemma_flatten_and_flatten_alt_are_equivalent();
    if parts.len() > 0 {
        parts_follow_one_another(parts.drop_last());
        parts.drop_last().lemma_flatten_and_flatten_alt_are_equivalent();
    }
}

/// A length table has four bytes for each part, and they hold its length.
pub proof fn tables_hold_the_lengths(parts: Seq<Seq<u8>>, i: int)
    requires
        0 <= i < parts.len(),
        parts[i].len() < 4294967296,
    ensures
        ({
            let table = length_table(parts);
            &&& table.len() == 4 * parts.len()
            &&& table[4 * i] * 16777216 + table[4 * i + 1] * 65536 + table[4 * i + 2] * 256
                + table[4 * i + 3] == parts[i].len()
        }),
{
    let table = length_table(parts);
    let entry = table.subrange(4 * i, 4 * i + 4);
    lemma_length_table_entry(parts, i);
    written_four_bytes_are_big_endian(parts[i].len());
    assert(entry[0] == table[4 * i] && entry[1] == table[4 * i + 1] && entry[2] == table[4 * i + 2]
        && entry[3] == table[4 * i + 3]);
}

/// The views of vectors are what each of them holds, in order.
pub proof fn views_hold_everything(parts: Seq<Vec<u8>>)
    ensures
        views(parts).len() == parts.len(),
        forall|i: int| 0 <= i < parts.len() ==> #[trigger] views(parts)[i] == parts[i]@,
{
}

} // verus!
