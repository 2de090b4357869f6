use tokad::bytes::{copy_bytes, u128_from_be_prefix, u128_from_le, u128_to_bytes};
use tokad::hash::{key_hash, key_of_digest, ID_BITS, ID_BYTES, ID_MASK};

#[test]
fn keys_come_from_the_digest() {
    assert_eq!(key_hash(b""), 0x36dcc949);
    assert_eq!(key_hash(b"abc"), 0x273a8db5);
}

#[test]
fn a_key_is_the_low_end_of_the_first_sixteen_bytes() {
    let mut digest = [0u8; 32];
    digest[12] = 1;
    digest[13] = 2;
    digest[14] = 3;
    digest[15] = 4;
    digest[0] = 9;
    digest[16] = 9;
    assert_eq!(key_of_digest(&digest), 0x01020304);
}

#[test]
fn identifiers_have_thirty_two_bits() {
    assert_eq!(ID_BYTES * 8, ID_BITS);
    assert_eq!(ID_MASK, u128::MAX >> (128 - ID_BITS));
}

#[test]
fn numbers_come_back_from_their_bytes() {
    for x in [0u128, 1, 0x0102_0304, u128::MAX, 1 << 127] {
        assert_eq!(u128_to_bytes(x), x.to_le_bytes().to_vec());
        assert_eq!(u128_from_le(&u128_to_bytes(x)), x);
        assert_eq!(u128_from_be_prefix(&x.to_be_bytes()), x);
    }
    assert_eq!(copy_bytes(&[1, 2, 3]), vec![1, 2, 3]);
}
