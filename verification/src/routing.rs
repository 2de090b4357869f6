//! The metric of the identifier space and its division into buckets.

use vstd::arithmetic::div_mod::lemma_div_denominator;
use vstd::arithmetic::power2::{lemma2_to64, lemma_pow2_pos, lemma_pow2_unfold, pow2};
use vstd::bits::lemma_u128_shr_is_div;
use vstd::prelude::*;

use crate::hash::{ID_BITS, ID_MASK};

verus! {

/// The number of binary digits of `x`.
pub open spec fn bit_len(x: nat) -> nat
    decreases x,
{
    if x == 0 {
        0
    } else {
        1 + bit_len(x / 2)
    }
}

/// The bucket of a distance: how many of the leading bits of an identifier are clear in it.
pub open spec fn distance_bucket(distance: u128) -> int {
    ID_BITS - bit_len(distance as nat)
}

/// The bucket in which a node with identifier `id` keeps the identifier `other`.
pub open spec fn bucket_of(id: u128, other: u128) -> int {
    distance_bucket(id ^ other)
}

proof fn lemma_bit_len_bound(x: nat, n: nat)
    requires
        x < pow2(n),
    ensures
        bit_len(x) <= n,
    decreases n,
{
    if n == 0 {
        lemma2_to64();
    } else {
        lemma_pow2_unfold(n);
        lemma_bit_len_bound(x / 2, (n - 1) as nat);
    }
}

proof fn lemma_bit_len_exact(x: nat, s: nat)
    ensures
        x / pow2(s) == 1 <==> bit_len(x) == s + 1,
    decreases s,
{
    reveal_with_fuel(bit_len, 2);
    if s == 0 {
        lemma2_to64();
        if x > 0 {
            assert(bit_len(x / 2) == 0 <==> x / 2 == 0);
        }
    } else {
        lemma_pow2_unfold(s);
        lemma_pow2_pos((s - 1) as nat);
        lemma_div_denominator(x as int, 2, pow2((s - 1) as nat) as int);
        lemma_bit_len_exact(x / 2, (s - 1) as nat);
        if x == 0 {
            lemma_pow2_pos(s);
            assert(0nat / pow2(s) == 0) by (nonlinear_arith)
                requires
                    pow2(s) > 0,
            ;
        }
    }
}

/// The distance of two identifiers in range is in range, and it is zero for equal ones only.
pub proof fn distance_range(a: u128, b: u128)
    requires
        a <= ID_MASK,
        b <= ID_MASK,
    ensures
        a ^ b <= ID_MASK,
        a ^ b == b ^ a,
        a ^ b == 0 <==> a == b,
{
    assert(a <= 0xffff_ffff && b <= 0xffff_ffff ==> a ^ b <= 0xffff_ffff) by (bit_vector);
    assert(a ^ b == b ^ a) by (bit_vector);
    assert(a ^ b == 0 <==> a == b) by (bit_vector);
}

/// At a given distance from a key there is one identifier at most.
pub proof fn distance_injective(a: u128, b: u128, key: u128)
    ensures
        a ^ key == b ^ key <==> a == b,
{
    assert(a ^ key == b ^ key <==> a == b) by (bit_vector);
}

/// Every distance in range but zero belongs to one of the buckets.
pub proof fn bucket_in_range(distance: u128)
    requires
        0 < distance <= ID_MASK,
    ensures
        0 <= distance_bucket(distance) < ID_BITS,
{
    lemma2_to64();
    lemma_bit_len_bound(distance as nat, 32);
}

/// The bucket of a distance; `ID_BITS` for the distance zero.
pub fn bucket_index(distance: u128) -> (bid: usize)
    requires
        distance <= ID_MASK,
    ensures
        bid == distance_bucket(distance),
        bid <= ID_BITS,
        bid == ID_BITS <==> distance == 0,
{
    let mut len: usize = 0;
    let mut rest: u128 = distance;
    proof {
        lemma2_to64();
        lemma_bit_len_bound(distance as nat, 32);
    }
    while rest > 0
        invariant
            bit_len(distance as nat) <= 32,
            bit_len(distance as nat) == len + bit_len(rest as nat),
        decreases rest,
    {
        rest = rest / 2;
        len = len + 1;
    }
    ID_BITS - len
}

proof fn lemma_bucket_first(id: u128, keep_mask: u128, s: u128)
    by (bit_vector)
    requires
        s < 32,
        id <= 0xffff_ffff,
        keep_mask == (if s == 31 {
            0u128
        } else {
            !0u128 << ((s + 1) as u128)
        }),
    ensures
        (id & keep_mask) | (!id & (1u128 << s)) == ((id >> s) ^ 1) << s,
{
}

proof fn lemma_bucket_block(id: u128, key: u128, s: u128)
    by (bit_vector)
    requires
        s < 32,
        id <= 0xffff_ffff,
    ensures
        ({
            let first = ((id >> s) ^ 1) << s;
            let last = first | (0xffff_ffffu128 >> ((32 - s) as u128));
            &&& first <= last <= 0xffff_ffff
            &&& (first <= key <= last) <==> (key <= 0xffff_ffff && (id ^ key) >> s == 1)
        }),
{
}

/// The first and the last identifier that a node with identifier `id` keeps in bucket `bid`.
pub fn bucket_range(id: u128, bid: usize) -> (range: (u128, u128))
    requires
        id <= ID_MASK,
        bid < ID_BITS,
    ensures
        range.0 <= range.1 <= ID_MASK,
        forall|key: u128|
            range.0 <= key <= range.1 <==> key <= ID_MASK && #[trigger] bucket_of(id, key) == bid,
{
    let keep_mask: u128 = if bid == 0 {
        0
    } else {
        !0u128 << (ID_BITS - bid)
    };
    let flip_mask: u128 = 1u128 << (ID_BITS - 1 - bid);
    let first: u128 = (id & keep_mask) | (!id & flip_mask);
    let last: u128 = if bid == ID_BITS - 1 {
        first
    } else {
        first | (ID_MASK >> (bid + 1))
    };
    proof {
        let s = (ID_BITS - 1 - bid) as u128;
        let low = ID_MASK >> ((32 - s) as u128);
        lemma_bucket_first(id, keep_mask, s);
        assert(first == ((id >> s) ^ 1) << s);
        if bid == ID_BITS - 1 {
            assert(0xffff_ffffu128 >> 32u128 == 0) by (bit_vector);
            assert(first | 0 == first) by (bit_vector);
        }
        assert(last == first | low);
        assert forall|key: u128|
            first <= key <= last <==> key <= ID_MASK && #[trigger] bucket_of(id, key) == bid by {
            lemma_bucket_block(id, key, s);
            lemma_u128_shr_is_div(id ^ key, s);
            lemma_bit_len_exact((id ^ key) as nat, s as nat);
        }
        lemma_bucket_block(id, first, s);
    }
    (first, last)
}

proof fn lemma_bit_len_spans(x: nat)
    requires
        x > 0,
    ensures
        bit_len(x) > 0,
        pow2((bit_len(x) - 1) as nat) <= x < pow2(bit_len(x)),
    decreases x,
{
    lemma2_to64();
    if x == 1 {
        reveal_with_fuel(bit_len, 2);
    } else {
        lemma_bit_len_spans(x / 2);
        let n = bit_len(x / 2);
        assert(bit_len(x) == n + 1);
        lemma_pow2_unfold(n + 1);
        lemma_pow2_unfold(n);
    }
}

/// A bucket holds the identifiers at a distance from half its span up to its span: the first
/// bucket those that differ in the highest bit, and each next one those at half the distance.
pub proof fn a_bucket_spans_a_doubling(id: u128, other: u128)
    requires
        id <= ID_MASK,
        other <= ID_MASK,
        id != other,
    ensures
        ({
            let b = bucket_of(id, other);
            &&& 0 <= b < 32
            &&& pow2((31 - b) as nat) <= (id ^ other) < pow2((32 - b) as nat)
        }),
        bucket_of(id, other) == bucket_of(other, id),
{
    distance_range(id, other);
    distance_range(other, id);
    assert(id ^ other == other ^ id) by (bit_vector);
    bucket_in_range(id ^ other);
    lemma_bit_len_spans((id ^ other) as nat);
}

} // verus!
