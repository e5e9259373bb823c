//! Fixed-width integers as bytes, and text as UTF-8.

use vstd::prelude::*;
use vstd::utf8::*;

verus! {

/// The four bytes of a number, least significant first.
pub open spec fn u32_le(x: u32) -> Seq<u8> {
    seq![x as u8, (x >> 8) as u8, (x >> 16) as u8, (x >> 24) as u8]
}

/// The number whose four bytes are given, least significant first.
pub open spec fn u32_from_le(b: Seq<u8>) -> u32 {
    b[0] as u32 | (b[1] as u32) << 8 | (b[2] as u32) << 16 | (b[3] as u32) << 24
}

/// The four bytes of a number, most significant first.
pub open spec fn u32_be(x: u32) -> Seq<u8> {
    seq![(x >> 24) as u8, (x >> 16) as u8, (x >> 8) as u8, x as u8]
}

/// The number whose four bytes are given, most significant first.
pub open spec fn u32_from_be(b: Seq<u8>) -> u32 {
    (b[0] as u32) << 24 | (b[1] as u32) << 16 | (b[2] as u32) << 8 | b[3] as u32
}

/// The eight bytes of a number, most significant first.
pub open spec fn u64_be(x: u64) -> Seq<u8> {
    seq![
        (x >> 56) as u8,
        (x >> 48) as u8,
        (x >> 40) as u8,
        (x >> 32) as u8,
        (x >> 24) as u8,
        (x >> 16) as u8,
        (x >> 8) as u8,
        x as u8,
    ]
}

/// The number whose eight bytes are given, most significant first.
pub open spec fn u64_from_be(b: Seq<u8>) -> u64 {
    (b[0] as u64) << 56 | (b[1] as u64) << 48 | (b[2] as u64) << 40 | (b[3] as u64) << 32 | (
    b[4] as u64) << 24 | (b[5] as u64) << 16 | (b[6] as u64) << 8 | b[7] as u64
}

/// Reading a number back from its little-endian bytes gives the number.
pub proof fn lemma_u32_le_roundtrip(x: u32)
    ensures
        u32_from_le(u32_le(x)) == x,
{
    assert((x as u8) as u32 | ((x >> 8) as u8 as u32) << 8 | ((x >> 16) as u8 as u32) << 16 | ((x
        >> 24) as u8 as u32) << 24 == x) by (bit_vector);
}

/// Reading a number back from its four big-endian bytes gives the number.
pub proof fn lemma_u32_be_roundtrip(x: u32)
    ensures
        u32_from_be(u32_be(x)) == x,
{
    assert(((x >> 24) as u8 as u32) << 24 | ((x >> 16) as u8 as u32) << 16 | ((x >> 8) as u8
        as u32) << 8 | (x as u8) as u32 == x) by (bit_vector);
}

/// Reading a number back from its eight big-endian bytes gives the number.
pub proof fn lemma_u64_be_roundtrip(x: u64)
    ensures
        u64_from_be(u64_be(x)) == x,
{
    assert(((x >> 56) as u8 as u64) << 56 | ((x >> 48) as u8 as u64) << 48 | ((x >> 40) as u8
        as u64) << 40 | ((x >> 32) as u8 as u64) << 32 | ((x >> 24) as u8 as u64) << 24 | ((x
        >> 16) as u8 as u64) << 16 | ((x >> 8) as u8 as u64) << 8 | (x as u8) as u64 == x)
        by (bit_vector);
}

/// The little-endian bytes of a number are its digits to base 256, the lowest first, and reading
/// four bytes weighs them accordingly.
pub proof fn law_u32_le_digits(x: u32, b: Seq<u8>)
    ensures
        u32_le(x).len() == 4,
        x == u32_le(x)[0] + 0x100 * u32_le(x)[1] + 0x1_0000 * u32_le(x)[2] + 0x100_0000 * u32_le(
            x,
        )[3],
        u32_from_le(b) == b[0] + 0x100 * b[1] + 0x1_0000 * b[2] + 0x100_0000 * b[3],
{
    lemma_u32_weights(b[3], b[2], b[1], b[0]);
    lemma_u32_le_roundtrip(x);
    lemma_u32_weights(u32_le(x)[3], u32_le(x)[2], u32_le(x)[1], u32_le(x)[0]);
}

/// The big-endian bytes of a number are its digits to base 256, the highest first, and reading
/// four bytes weighs them accordingly.
pub proof fn law_u32_be_digits(x: u32, b: Seq<u8>)
    ensures
        u32_be(x).len() == 4,
        x == 0x100_0000 * u32_be(x)[0] + 0x1_0000 * u32_be(x)[1] + 0x100 * u32_be(x)[2] + u32_be(
            x,
        )[3],
        u32_from_be(b) == 0x100_0000 * b[0] + 0x1_0000 * b[1] + 0x100 * b[2] + b[3],
{
    lemma_u32_weights(b[0], b[1], b[2], b[3]);
    lemma_u32_be_roundtrip(x);
    lemma_u32_weights(u32_be(x)[0], u32_be(x)[1], u32_be(x)[2], u32_be(x)[3]);
}

/// The eight big-endian bytes of a number are its digits to base 256, the highest first, and
/// reading eight bytes weighs them accordingly.
pub proof fn law_u64_be_digits(x: u64, b: Seq<u8>)
    ensures
        u64_be(x).len() == 8,
        x == 0x1_0000_0000 * u32_from_be(u64_be(x).subrange(0, 4)) + u32_from_be(
            u64_be(x).subrange(4, 8),
        ),
        b.len() == 8 ==> u64_from_be(b) == 0x1_0000_0000 * u32_from_be(b.subrange(0, 4))
            + u32_from_be(b.subrange(4, 8)),
{
    let y = u64_be(x);
    lemma_u64_be_roundtrip(x);
    lemma_u64_weights(y[0], y[1], y[2], y[3], y[4], y[5], y[6], y[7]);
    lemma_u64_weights(b[0], b[1], b[2], b[3], b[4], b[5], b[6], b[7]);
}

/// What four bytes weigh when they are shifted into place.
proof fn lemma_u32_weights(b3: u8, b2: u8, b1: u8, b0: u8)
    ensures
        (b3 as u32) << 24 | (b2 as u32) << 16 | (b1 as u32) << 8 | b0 as u32 == 0x100_0000 * b3
            + 0x1_0000 * b2 + 0x100 * b1 + b0,
        b0 as u32 | (b1 as u32) << 8 | (b2 as u32) << 16 | (b3 as u32) << 24 == 0x100_0000 * b3
            + 0x1_0000 * b2 + 0x100 * b1 + b0,
{
    assert((b3 as u32) << 24 | (b2 as u32) << 16 | (b1 as u32) << 8 | b0 as u32 == 0x100_0000 * b3
        + 0x1_0000 * b2 + 0x100 * b1 + b0) by (bit_vector);
    assert(b0 as u32 | (b1 as u32) << 8 | (b2 as u32) << 16 | (b3 as u32) << 24 == 0x100_0000 * b3
        + 0x1_0000 * b2 + 0x100 * b1 + b0) by (bit_vector);
}

/// What eight bytes weigh when they are shifted into place.
proof fn lemma_u64_weights(b7: u8, b6: u8, b5: u8, b4: u8, b3: u8, b2: u8, b1: u8, b0: u8)
    ensures
        (b7 as u64) << 56 | (b6 as u64) << 48 | (b5 as u64) << 40 | (b4 as u64) << 32 | (b3 as u64)
            << 24 | (b2 as u64) << 16 | (b1 as u64) << 8 | b0 as u64 == 0x1_0000_0000 * ((b7 as u32)
            << 24 | (b6 as u32) << 16 | (b5 as u32) << 8 | b4 as u32) + ((b3 as u32) << 24 | (
        b2 as u32) << 16 | (b1 as u32) << 8 | b0 as u32),
{
    assert((b7 as u64) << 56 | (b6 as u64) << 48 | (b5 as u64) << 40 | (b4 as u64) << 32 | (
    b3 as u64) << 24 | (b2 as u64) << 16 | (b1 as u64) << 8 | b0 as u64 == 0x1_0000_0000 * ((
    b7 as u32) << 24 | (b6 as u32) << 16 | (b5 as u32) << 8 | b4 as u32) + ((b3 as u32) << 24 | (
    b2 as u32) << 16 | (b1 as u32) << 8 | b0 as u32)) by (bit_vector);
}

/// Appends the little-endian bytes of a number.
pub fn put_u32_le(out: &mut Vec<u8>, x: u32)
    ensures
        final(out)@ == old(out)@ + u32_le(x),
{
    out.push(x as u8);
    out.push((x >> 8) as u8);
    out.push((x >> 16) as u8);
    out.push((x >> 24) as u8);
    assert(out@ =~= old(out)@ + u32_le(x));
}

/// Appends the four big-endian bytes of a number.
pub fn put_u32_be(out: &mut Vec<u8>, x: u32)
    ensures
        final(out)@ == old(out)@ + u32_be(x),
{
    out.push((x >> 24) as u8);
    out.push((x >> 16) as u8);
    out.push((x >> 8) as u8);
    out.push(x as u8);
    assert(out@ =~= old(out)@ + u32_be(x));
}

/// Appends the eight big-endian bytes of a number.
pub fn put_u64_be(out: &mut Vec<u8>, x: u64)
    ensures
        final(out)@ == old(out)@ + u64_be(x),
{
    out.push((x >> 56) as u8);
    out.push((x >> 48) as u8);
    out.push((x >> 40) as u8);
    out.push((x >> 32) as u8);
    out.push((x >> 24) as u8);
    out.push((x >> 16) as u8);
    out.push((x >> 8) as u8);
    out.push(x as u8);
    assert(out@ =~= old(out)@ + u64_be(x));
}

/// Reads four little-endian bytes at `at`.
pub fn get_u32_le(b: &[u8], at: usize) -> (r: u32)
    requires
        at + 4 <= b@.len(),
    ensures
        r == u32_from_le(b@.subrange(at as int, at + 4)),
{
    b[at] as u32 | (b[at + 1] as u32) << 8 | (b[at + 2] as u32) << 16 | (b[at + 3] as u32) << 24
}

/// Reads four big-endian bytes at `at`.
pub fn get_u32_be(b: &[u8], at: usize) -> (r: u32)
    requires
        at + 4 <= b@.len(),
    ensures
        r == u32_from_be(b@.subrange(at as int, at + 4)),
{
    (b[at] as u32) << 24 | (b[at + 1] as u32) << 16 | (b[at + 2] as u32) << 8 | b[at + 3] as u32
}

/// Reads eight big-endian bytes at `at`.
pub fn get_u64_be(b: &[u8], at: usize) -> (r: u64)
    requires
        at + 8 <= b@.len(),
    ensures
        r == u64_from_be(b@.subrange(at as int, at + 8)),
{
    (b[at] as u64) << 56 | (b[at + 1] as u64) << 48 | (b[at + 2] as u64) << 40 | (b[at + 3] as u64)
        << 32 | (b[at + 4] as u64) << 24 | (b[at + 5] as u64) << 16 | (b[at + 6] as u64) << 8
        | b[at + 7] as u64
}

/// The message of `std::string::FromUtf8Error` on bytes that are not UTF-8.
pub uninterp spec fn utf8_error_text(bytes: Seq<u8>) -> Seq<char>;

/// What `String::from_utf8_lossy` makes of bytes.
pub uninterp spec fn utf8_lossy(bytes: Seq<u8>) -> Seq<char>;

/// `String::from_utf8`: succeeds on valid UTF-8 and on nothing else, and then yields the
/// characters that the bytes encode. The error is handed on as its message.
#[verifier::external_body]
pub(crate) fn string_from_utf8(bytes: Vec<u8>) -> (r: Result<String, String>)
    ensures
        match r {
            Ok(text) => valid_utf8(bytes@) && text@ == decode_utf8(bytes@),
            Err(message) => !valid_utf8(bytes@) && message@ == utf8_error_text(bytes@),
        },
{
    String::from_utf8(bytes).map_err(|e| e.to_string())
}

/// `String::from_utf8_lossy`: the text depends on the bytes alone, and is what they encode
/// where they are valid UTF-8. Elsewhere replacement characters stand for invalid sequences;
/// where exactly they stand is left to the name.
#[verifier::external_body]
pub(crate) fn string_from_utf8_lossy(bytes: &[u8]) -> (r: String)
    ensures
        r@ == utf8_lossy(bytes@),
        valid_utf8(bytes@) ==> r@ == decode_utf8(bytes@),
{
    String::from_utf8_lossy(bytes).into_owned()
}

} // verus!
