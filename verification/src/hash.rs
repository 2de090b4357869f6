//! Identifiers and the hash that gives a value its key.

use vstd::prelude::*;

use crate::bytes::{be_value, both_orders_spell_alike, low_bytes_decide, u128_from_be_prefix};

verus! {

/// The number of bytes of an identifier; at most 16.
pub const ID_BYTES: usize = 4;

/// The number of bits of an identifier.
pub const ID_BITS: usize = 32;

/// The bits that an identifier may have set.
pub const ID_MASK: u128 = 0xffff_ffff;

/// A number cut down to the bits of an identifier.
pub open spec fn cut(n: nat) -> u128 {
    (n % 0x1_0000_0000) as u128
}

/// Clearing the bits outside `ID_MASK` cuts a number down.
pub proof fn mask_cuts(x: u128)
    ensures
        x & ID_MASK == cut(x as nat),
        x & ID_MASK <= ID_MASK,
        x <= ID_MASK ==> x & ID_MASK == x,
{
    assert(x & 0xffff_ffff == x % 0x1_0000_0000) by (bit_vector);
}

/// The BLAKE3 digest of a byte string.
pub uninterp spec fn blake3_digest(input: Seq<u8>) -> Seq<u8>;

/// Calls `blake3::hash`. Trusted: the digest is a function of the input alone. That it has
/// 32 bytes is in its type.
#[verifier::external_body]
fn blake3_hash(input: &[u8]) -> (digest: [u8; 32])
    ensures
        digest@ == blake3_digest(input@),
{
    *blake3::hash(input).as_bytes()
}

/// The key that a digest stands for: the number in its first 16 bytes, most significant byte
/// first, cut down to an identifier.
pub open spec fn digest_key(digest: Seq<u8>) -> u128 {
    cut(be_value(digest.take(16)))
}

/// The key of a value: what its digest stands for.
pub open spec fn value_key(value: Seq<u8>) -> u128 {
    digest_key(blake3_digest(value))
}

/// The key that a digest stands for.
pub fn key_of_digest(digest: &[u8]) -> (key: u128)
    requires
        digest@.len() >= 16,
    ensures
        key == digest_key(digest@),
        key <= ID_MASK,
{
    let number: u128 = u128_from_be_prefix(digest);
    proof {
        mask_cuts(number);
    }
    number & ID_MASK
}

/// The key under which a value is stored.
pub fn key_hash(value: &[u8]) -> (key: u128)
    ensures
        key == value_key(value@),
        key <= ID_MASK,
{
    let digest: [u8; 32] = blake3_hash(value);
    key_of_digest(digest.as_slice())
}

/// The key that a digest stands for is spelled by four of its bytes, the last of its first 16.
pub proof fn a_key_is_four_bytes_of_the_digest(digest: Seq<u8>)
    requires
        digest.len() >= 16,
    ensures
        digest_key(digest) == 0x100_0000 * digest[12] + 0x1_0000 * digest[13] + 0x100 * digest[14]
            + digest[15],
        digest_key(digest) <= 0xffff_ffff,
{
    let first = digest.take(16);
    both_orders_spell_alike(first);
    low_bytes_decide(first.reverse());
    assert(first.reverse()[0] == digest[15]);
    assert(first.reverse()[1] == digest[14]);
    assert(first.reverse()[2] == digest[13]);
    assert(first.reverse()[3] == digest[12]);
}

/// The key of a value is made of its BLAKE3 digest and nothing else.
pub proof fn equal_digests_give_equal_keys(a: Seq<u8>, b: Seq<u8>)
    requires
        blake3_digest(a) == blake3_digest(b),
        blake3_digest(a).len() >= 16,
    ensures
        value_key(a) == value_key(b),
        value_key(a) == 0x100_0000 * blake3_digest(a)[12] + 0x1_0000 * blake3_digest(a)[13] + 0x100
            * blake3_digest(a)[14] + blake3_digest(a)[15],
{
    a_key_is_four_bytes_of_the_digest(blake3_digest(a));
}

} // verus!
