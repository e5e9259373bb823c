//! Universally unique identifiers.

use vstd::prelude::*;

use crate::text;

verus! {

/// A UUID as its sixteen bytes, in the order in which it is written.
#[derive(Clone, Copy, Debug, PartialEq, Eq)]
pub struct Uuid {
    pub bytes: [u8; 16],
}

impl View for Uuid {
    type V = Seq<u8>;

    open spec fn view(&self) -> Seq<u8> {
        self.bytes@
    }
}

/// The mixed-endian layout of a UUID: its first three fields are little-endian.
pub open spec fn mixed_endian(b: Seq<u8>) -> Seq<u8> {
    seq![
        b[3],
        b[2],
        b[1],
        b[0],
        b[5],
        b[4],
        b[7],
        b[6],
        b[8],
        b[9],
        b[10],
        b[11],
        b[12],
        b[13],
        b[14],
        b[15],
    ]
}

/// Two lower-case hexadecimal digits for each byte.
pub open spec fn hex_bytes(b: Seq<u8>) -> Seq<char>
    decreases b.len(),
{
    if b.len() == 0 {
        Seq::empty()
    } else {
        hex_bytes(b.drop_last()) + text::hex(b.last() as nat, 2)
    }
}

/// The written form of a UUID: five groups of hexadecimal digits, joined by hyphens.
pub open spec fn hyphenated_text(b: Seq<u8>) -> Seq<char> {
    hex_bytes(b.subrange(0, 4)) + seq!['-'] + hex_bytes(b.subrange(4, 6)) + seq!['-'] + hex_bytes(
        b.subrange(6, 8),
    ) + seq!['-'] + hex_bytes(b.subrange(8, 10)) + seq!['-'] + hex_bytes(b.subrange(10, 16))
}

/// `uuid::Uuid::to_bytes_le`: the first three fields come out with their bytes reversed.
#[verifier::external_body]
fn outside_to_bytes_le(bytes: [u8; 16]) -> (r: [u8; 16])
    ensures
        r@ == mixed_endian(bytes@),
{
    uuid::Uuid::from_bytes(bytes).to_bytes_le()
}

/// `uuid::Uuid::hyphenated`: the lower-case written form with hyphens.
#[verifier::external_body]
fn outside_hyphenated(bytes: [u8; 16]) -> (r: String)
    ensures
        r@ == hyphenated_text(bytes@),
{
    uuid::Uuid::from_bytes(bytes).hyphenated().to_string()
}

/// `uuid::Uuid::new_v4`: random, but for the version and variant bits, which mark it as
/// version 4 of the standard layout. Of the other bits nothing is stated. It panics only where
/// the system has no source of randomness.
#[verifier::external_body]
fn outside_new_v4() -> (r: [u8; 16])
    ensures
        r@[6] & 0xf0 == 0x40,
        r@[8] & 0xc0 == 0x80,
{
    uuid::Uuid::new_v4().into_bytes()
}

impl Uuid {
    /// The UUID whose bytes are all zero.
    pub fn nil() -> (r: Uuid)
        ensures
            r@ == Seq::new(16, |i: int| 0u8),
    {
        let r = Uuid { bytes: [0;16] };
        assert(r@ =~= Seq::new(16, |i: int| 0u8));
        r
    }

    /// A random UUID of version 4.
    pub fn new_v4() -> (r: Uuid)
        ensures
            r@[6] & 0xf0 == 0x40,
            r@[8] & 0xc0 == 0x80,
    {
        Uuid { bytes: outside_new_v4() }
    }

    /// The bytes with the first three fields in little-endian order.
    pub fn to_bytes_le(&self) -> (r: [u8; 16])
        ensures
            r@ == mixed_endian(self@),
    {
        outside_to_bytes_le(self.bytes)
    }

    /// The written form with hyphens.
    pub fn hyphenated(&self) -> (r: String)
        ensures
            r@ == hyphenated_text(self@),
    {
        outside_hyphenated(self.bytes)
    }
}

} // verus!
