//! Message digests, and a comparison that takes the same time wherever two values differ.

use hmac::Mac;
use md5::Digest;
use subtle::ConstantTimeEq;
use vstd::prelude::*;

verus! {

/// The MD5 digest of bytes.
pub uninterp spec fn md5_digest(bytes: Seq<u8>) -> Seq<u8>;

/// Length of the blocks that MD5 works on.
pub const BLOCK_LEN: usize = 64;

/// A key as long as a block: digested first if it is longer, then filled up with zeros.
pub open spec fn block_key(key: Seq<u8>) -> Seq<u8> {
    let short = if key.len() <= BLOCK_LEN {
        key
    } else {
        md5_digest(key)
    };
    Seq::new(
        BLOCK_LEN as nat,
        |i: int|
            if i < short.len() {
                short[i]
            } else {
                0u8
            },
    )
}

/// A sequence with every byte combined with another byte.
pub open spec fn masked(s: Seq<u8>, mask: u8) -> Seq<u8> {
    s.map_values(|b: u8| b ^ mask)
}

/// The HMAC-MD5 tag of bytes under a key.
pub open spec fn hmac_md5_tag(key: Seq<u8>, bytes: Seq<u8>) -> Seq<u8> {
    let k = block_key(key);
    md5_digest(masked(k, 0x5c) + md5_digest(masked(k, 0x36) + bytes))
}

/// `md5::Md5::digest`: the digest depends on the bytes alone.
#[verifier::external_body]
pub(crate) fn md5(bytes: &[u8]) -> (r: [u8; 16])
    ensures
        r@ == md5_digest(bytes@),
{
    md5::Md5::digest(bytes).into()
}

/// `hmac::Hmac` over `md5::Md5`, keyed, fed and finalized in one go: the tag is the digest of the
/// outer key and the digest of the inner key and the bytes. A key of any length is taken.
#[verifier::external_body]
pub(crate) fn hmac_md5(key: &[u8], bytes: &[u8]) -> (r: [u8; 16])
    ensures
        r@ == hmac_md5_tag(key@, bytes@),
{
    hmac::Hmac::<md5::Md5>::new_from_slice(key)
        .expect("a key of any length is valid")
        .chain_update(bytes)
        .finalize()
        .into_bytes()
        .into()
}

/// `subtle::ConstantTimeEq::ct_eq` on byte slices: whether they hold the same bytes.
#[verifier::external_body]
pub(crate) fn same_bytes(a: &[u8], b: &[u8]) -> (r: bool)
    ensures
        r == (a@ == b@),
{
    a.ct_eq(b).into()
}

/// The tag under a key that fits in a block: the digest of the key filled up with zeros and
/// combined with 0x5c throughout, and of the digest of the key combined with 0x36 and the bytes.
pub proof fn law_hmac_of_short_key(key: Seq<u8>, bytes: Seq<u8>, outer: Seq<u8>, inner: Seq<u8>)
    requires
        key.len() <= 64,
        outer.len() == 64,
        inner.len() == 64,
        forall|i: int|
            0 <= i < 64 ==> #[trigger] outer[i] == (if i < key.len() {
                key[i]
            } else {
                0u8
            }) ^ 0x5cu8,
        forall|i: int|
            0 <= i < 64 ==> #[trigger] inner[i] == (if i < key.len() {
                key[i]
            } else {
                0u8
            }) ^ 0x36u8,
    ensures
        hmac_md5_tag(key, bytes) == md5_digest(outer + md5_digest(inner + bytes)),
{
    assert(masked(block_key(key), 0x5c) =~= outer);
    assert(masked(block_key(key), 0x36) =~= inner);
}

} // verus!
