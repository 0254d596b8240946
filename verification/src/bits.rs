//! Single bits of a byte. Bit `0` is the least significant one.

use vstd::prelude::*;

verus! {

/// Whether bit number `bit` of `byte` is set.
pub open spec fn bit_is_set(byte: u8, bit: u8) -> bool {
    byte & (1u8 << bit) != 0
}

/// `byte` with bit number `bit` set (`on`) or cleared.
pub open spec fn with_bit(byte: u8, bit: u8, on: bool) -> u8 {
    if on {
        byte | (1u8 << bit)
    } else {
        byte & !(1u8 << bit)
    }
}

/// Writing one bit of a byte changes that bit and no other.
pub proof fn lemma_with_bit(byte: u8, bit: u8, on: bool, other: u8)
    requires
        bit < 8,
        other < 8,
    ensures
        bit_is_set(with_bit(byte, bit, on), other) == (if other == bit {
            on
        } else {
            bit_is_set(byte, other)
        }),
{
    assert((byte | (1u8 << bit)) & (1u8 << bit) != 0) by (bit_vector)
        requires
            bit < 8,
    ;
    assert((byte & !(1u8 << bit)) & (1u8 << bit) == 0) by (bit_vector)
        requires
            bit < 8,
    ;
    if other != bit {
        assert((byte | (1u8 << bit)) & (1u8 << other) == byte & (1u8 << other)) by (bit_vector)
            requires
                bit < 8,
                other < 8,
                other != bit,
        ;
        assert((byte & !(1u8 << bit)) & (1u8 << other) == byte & (1u8 << other)) by (bit_vector)
            requires
                bit < 8,
                other < 8,
                other != bit,
        ;
    }
}

/// No bit of the zero byte is set.
pub proof fn lemma_zero_has_no_bit(bit: u8)
    requires
        bit < 8,
    ensures
        !bit_is_set(0u8, bit),
{
    assert(0u8 & (1u8 << bit) == 0) by (bit_vector);
}

/// The byte whose bit `k` is set exactly when `bits(k)` holds, for the `n`
/// lowest bits; the bits from `n` up are clear.
pub open spec fn packed(bits: spec_fn(int) -> bool, n: nat) -> u8
    decreases n,
{
    if n == 0 {
        0u8
    } else {
        packed(bits, (n - 1) as nat) | (if bits(n - 1) {
            1u8 << ((n - 1) as u8)
        } else {
            0u8
        })
    }
}

/// Bit `k` of a packed byte is `bits(k)` below `n`, and clear from `n` up.
pub proof fn lemma_packed_bit(bits: spec_fn(int) -> bool, n: nat, k: u8)
    requires
        n <= 8,
        k < 8,
    ensures
        bit_is_set(packed(bits, n), k) == (k < n && bits(k as int)),
    decreases n,
{
    if n == 0 {
        assert(0u8 & (1u8 << k) == 0) by (bit_vector);
    } else {
        let before = packed(bits, (n - 1) as nat);
        let last = (n - 1) as u8;
        lemma_packed_bit(bits, (n - 1) as nat, k);
        if bits(n - 1) {
            assert((before | (1u8 << last)) & (1u8 << k) != 0 <==> (before & (1u8 << k) != 0 || k
                == last)) by (bit_vector)
                requires
                    k < 8,
                    last < 8,
            ;
        } else {
            assert((before | 0u8) == before) by (bit_vector);
        }
    }
}

/// Two bytes with the same eight bits are the same byte.
pub proof fn lemma_same_bits(a: u8, b: u8)
    requires
        forall|k: u8| k < 8 ==> bit_is_set(a, k) == bit_is_set(b, k),
    ensures
        a == b,
{
    assert(bit_is_set(a, 0) == bit_is_set(b, 0));
    assert(bit_is_set(a, 1) == bit_is_set(b, 1));
    assert(bit_is_set(a, 2) == bit_is_set(b, 2));
    assert(bit_is_set(a, 3) == bit_is_set(b, 3));
    assert(bit_is_set(a, 4) == bit_is_set(b, 4));
    assert(bit_is_set(a, 5) == bit_is_set(b, 5));
    assert(bit_is_set(a, 6) == bit_is_set(b, 6));
    assert(bit_is_set(a, 7) == bit_is_set(b, 7));
    assert(a == b) by (bit_vector)
        requires
            (a & (1u8 << 0u8) != 0) == (b & (1u8 << 0u8) != 0),
            (a & (1u8 << 1u8) != 0) == (b & (1u8 << 1u8) != 0),
            (a & (1u8 << 2u8) != 0) == (b & (1u8 << 2u8) != 0),
            (a & (1u8 << 3u8) != 0) == (b & (1u8 << 3u8) != 0),
            (a & (1u8 << 4u8) != 0) == (b & (1u8 << 4u8) != 0),
            (a & (1u8 << 5u8) != 0) == (b & (1u8 << 5u8) != 0),
            (a & (1u8 << 6u8) != 0) == (b & (1u8 << 6u8) != 0),
            (a & (1u8 << 7u8) != 0) == (b & (1u8 << 7u8) != 0),
    ;
}

} // verus!
