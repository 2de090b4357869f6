//! Numbers as byte strings.

use vstd::arithmetic::div_mod::lemma_div_denominator;
use vstd::arithmetic::power::{lemma_pow0, lemma_pow_positive, pow};
use vstd::prelude::*;

verus! {

/// The number that `s` spells in base 256, least significant byte first.
pub open spec fn le_value(s: Seq<u8>) -> nat
    decreases s.len(),
{
    if s.len() == 0 {
        0
    } else {
        s[0] as nat + 256 * le_value(s.drop_first())
    }
}

/// The `n` least significant base-256 digits of `x`, least significant first.
pub open spec fn le_bytes(x: nat, n: nat) -> Seq<u8>
    decreases n,
{
    if n == 0 {
        Seq::empty()
    } else {
        seq![(x % 256) as u8] + le_bytes(x / 256, (n - 1) as nat)
    }
}

/// The number that `s` spells in base 256, most significant byte first.
pub open spec fn be_value(s: Seq<u8>) -> nat
    decreases s.len(),
{
    if s.len() == 0 {
        0
    } else {
        256 * be_value(s.drop_last()) + s.last() as nat
    }
}

/// The number of byte strings of length `n`.
pub open spec fn byte_range(n: nat) -> nat
    decreases n,
{
    if n == 0 {
        1
    } else {
        256 * byte_range((n - 1) as nat)
    }
}

proof fn lemma_byte_range_of_u128()
    ensures
        byte_range(16) == u128::MAX + 1,
{
    reveal_with_fuel(byte_range, 17);
}

proof fn lemma_byte_range_grows(i: nat, j: nat)
    requires
        i <= j,
    ensures
        byte_range(i) <= byte_range(j),
    decreases j,
{
    if i < j {
        lemma_byte_range_grows(i, (j - 1) as nat);
    }
}

proof fn lemma_le_value_bound(s: Seq<u8>)
    ensures
        le_value(s) < byte_range(s.len()),
    decreases s.len(),
{
    if s.len() > 0 {
        lemma_le_value_bound(s.drop_first());
    }
}

proof fn lemma_be_value_bound(s: Seq<u8>)
    ensures
        be_value(s) < byte_range(s.len()),
    decreases s.len(),
{
    if s.len() > 0 {
        lemma_be_value_bound(s.drop_last());
    }
}

/// Reading back what was written gives the number, provided that it fits.
pub proof fn le_bytes_read_back(x: nat, n: nat)
    requires
        x < byte_range(n),
    ensures
        le_bytes(x, n).len() == n,
        le_value(le_bytes(x, n)) == x,
    decreases n,
{
    if n > 0 {
        let rest = le_bytes(x / 256, (n - 1) as nat);
        le_bytes_read_back(x / 256, (n - 1) as nat);
        assert(le_bytes(x, n).drop_first() =~= rest);
    }
}

/// Any 128-bit number is written in 16 bytes and read back from them.
pub proof fn u128_bytes_read_back(x: u128)
    ensures
        le_bytes(x as nat, 16).len() == 16,
        le_value(le_bytes(x as nat, 16)) == x,
{
    lemma_byte_range_of_u128();
    le_bytes_read_back(x as nat, 16);
}

/// The 16 bytes of `x`, least significant first.
pub fn u128_to_bytes(x: u128) -> (bytes: Vec<u8>)
    ensures
        bytes@ == le_bytes(x as nat, 16),
{
    let mut bytes: Vec<u8> = Vec::new();
    let mut rest: u128 = x;
    let mut i: usize = 0;
    assert(bytes@ + le_bytes(rest as nat, 16) =~= le_bytes(x as nat, 16));
    while i < 16
        invariant
            i <= 16,
            bytes@ + le_bytes(rest as nat, (16 - i) as nat) == le_bytes(x as nat, 16),
        decreases 16 - i,
    {
        let ghost before = bytes@;
        let ghost tail = le_bytes(rest as nat, (16 - i) as nat);
        bytes.push((rest % 256) as u8);
        rest = rest / 256;
        i = i + 1;
        assert(bytes@ + le_bytes(rest as nat, (16 - i) as nat) =~= before + tail);
    }
    assert(bytes@ =~= le_bytes(x as nat, 16));
    bytes
}

/// The number spelled by 16 bytes, least significant first.
pub fn u128_from_le(bytes: &[u8]) -> (x: u128)
    requires
        bytes@.len() == 16,
    ensures
        x == le_value(bytes@),
{
    let mut x: u128 = 0;
    let mut i: usize = 16;
    proof {
        lemma_byte_range_of_u128();
    }
    while i > 0
        invariant
            i <= 16,
            bytes@.len() == 16,
            byte_range(16) == u128::MAX + 1,
            x == le_value(bytes@.skip(i as int)),
        decreases i,
    {
        i = i - 1;
        proof {
            let s = bytes@.skip(i as int);
            assert(s.drop_first() =~= bytes@.skip(i + 1));
            lemma_le_value_bound(s);
            lemma_byte_range_grows(s.len(), 16);
        }
        x = bytes[i] as u128 + 256 * x;
    }
    assert(bytes@.skip(0) =~= bytes@);
    x
}

/// The number spelled by the first 16 bytes, most significant first.
pub fn u128_from_be_prefix(bytes: &[u8]) -> (x: u128)
    requires
        bytes@.len() >= 16,
    ensures
        x == be_value(bytes@.take(16)),
{
    let mut x: u128 = 0;
    let mut i: usize = 0;
    proof {
        lemma_byte_range_of_u128();
    }
    while i < 16
        invariant
            i <= 16,
            bytes@.len() >= 16,
            byte_range(16) == u128::MAX + 1,
            x == be_value(bytes@.take(i as int)),
        decreases 16 - i,
    {
        proof {
            let s = bytes@.take(i + 1);
            assert(s.drop_last() =~= bytes@.take(i as int));
            lemma_be_value_bound(s);
            lemma_byte_range_grows(s.len(), 16);
        }
        x = 256 * x + bytes[i] as u128;
        i = i + 1;
    }
    x
}

/// A copy of a byte string.
pub fn copy_bytes(bytes: &[u8]) -> (copy: Vec<u8>)
    ensures
        copy@ == bytes@,
{
    let mut copy: Vec<u8> = Vec::new();
    let mut i: usize = 0;
    while i < bytes.len()
        invariant
            i <= bytes@.len(),
            copy@ == bytes@.take(i as int),
        decreases bytes@.len() - i,
    {
        copy.push(bytes[i]);
        i = i + 1;
        assert(bytes@.take(i as int) =~= bytes@.take(i - 1).push(bytes@[i - 1]));
    }
    assert(bytes@.take(bytes@.len() as int) =~= bytes@);
    copy
}

/// The bytes of a number are its base-256 digits, the lowest first: the byte at place `i` is the
/// number divided by 256 as often as `i` says, and of that what is left over by 256.
pub proof fn bytes_are_digits(x: nat, n: nat, i: int)
    requires
        0 <= i < n,
    ensures
        le_bytes(x, n).len() == n,
        le_bytes(x, n)[i] == (x as int / pow(256, i as nat)) % 256,
    decreases n,
{
    lemma_le_bytes_len(x, n);
    if i == 0 {
        lemma_pow0(256);
        assert(x as int / 1 == x);
    } else {
        bytes_are_digits(x / 256, (n - 1) as nat, i - 1);
        lemma_pow_positive(256, (i - 1) as nat);
        reveal(pow);
        lemma_div_denominator(x as int, 256, pow(256, (i - 1) as nat));
        assert(le_bytes(x, n)[i] == le_bytes(x / 256, (n - 1) as nat)[i - 1]);
    }
}

proof fn lemma_le_bytes_len(x: nat, n: nat)
    ensures
        le_bytes(x, n).len() == n,
    decreases n,
{
    if n > 0 {
        lemma_le_bytes_len(x / 256, (n - 1) as nat);
    }
}

/// A byte string spells the same number, most significant byte first, as its reverse does, least
/// significant byte first.
pub proof fn both_orders_spell_alike(s: Seq<u8>)
    ensures
        be_value(s) == le_value(s.reverse()),
    decreases s.len(),
{
    if s.len() > 0 {
        both_orders_spell_alike(s.drop_last());
        assert(s.reverse()[0] == s.last());
        assert(s.reverse().drop_first() =~= s.drop_last().reverse());
    }
}

/// The low four bytes of a number decide what is left of it by two to the power of 32.
pub proof fn low_bytes_decide(s: Seq<u8>)
    requires
        s.len() >= 4,
    ensures
        le_value(s) % 0x1_0000_0000 == s[0] + 0x100 * s[1] + 0x1_0000 * s[2] + 0x100_0000 * s[3],
{
    reveal_with_fuel(le_value, 5);
    let a = s.drop_first();
    let b = a.drop_first();
    let c = b.drop_first();
    let rest = le_value(c.drop_first());
    assert(a[0] == s[1] && b[0] == s[2] && c[0] == s[3]);
    assert(le_value(c) == c[0] as nat + 256 * rest);
    assert(le_value(b) == b[0] as nat + 256 * le_value(c));
    assert(le_value(a) == a[0] as nat + 256 * le_value(b));
    assert(le_value(s) == s[0] as nat + 256 * le_value(a));
    let low: int = s[0] + 0x100 * s[1] + 0x1_0000 * s[2] + 0x100_0000 * s[3];
    assert(le_value(s) == low + 0x1_0000_0000 * rest);
    assert((low + 0x1_0000_0000 * rest) % 0x1_0000_0000 == low) by (nonlinear_arith)
        requires
            0 <= low < 0x1_0000_0000,
            rest >= 0,
    ;
}

} // verus!
