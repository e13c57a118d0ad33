//! The byte-level obfuscation used before any key material is agreed:
//! XOR with a key byte, then reverse the order of the bits.
use vstd::prelude::*;

verus! {

/// Bit `i` of `b` is set.
pub open spec fn bit(b: u8, i: u8) -> bool {
    (b >> i) & 1u8 == 1u8
}

/// Bit `i` of `r` is bit `7 - i` of `b`, for each of the eight bits.
pub open spec fn reverses_bits(r: u8, b: u8) -> bool {
    forall|i: u8| i < 8 ==> #[trigger] bit(r, i) == bit(b, (7 - i) as u8)
}

/// The byte whose bit `i` is bit `7 - i` of `b`.
pub open spec fn bit_rev(b: u8) -> u8 {
    choose|r: u8| reverses_bits(r, b)
}

/// One way to compute the reversal, with shifts and masks.
spec fn reversal_formula(b: u8) -> u8 {
    ((b & 1) << 7u8) | ((b & 2) << 5u8) | ((b & 4) << 3u8) | ((b & 8) << 1u8) | ((b & 16) >> 1u8)
        | ((b & 32) >> 3u8) | ((b & 64) >> 5u8) | ((b & 128) >> 7u8)
}

/// Two bytes that agree on all eight bits are equal.
proof fn lemma_bits_equal(c: u8, r: u8)
    requires
        forall|i: u8| i < 8 ==> #[trigger] bit(c, i) == bit(r, i),
    ensures
        c == r,
{
    assert(bit(c, 0) == bit(r, 0) && bit(c, 1) == bit(r, 1) && bit(c, 2) == bit(r, 2) && bit(c, 3)
        == bit(r, 3) && bit(c, 4) == bit(r, 4) && bit(c, 5) == bit(r, 5) && bit(c, 6) == bit(r, 6)
        && bit(c, 7) == bit(r, 7));
    assert(c == r) by (bit_vector)
        requires
            ((c >> 0u8) & 1u8 == 1u8) == ((r >> 0u8) & 1u8 == 1u8),
            ((c >> 1u8) & 1u8 == 1u8) == ((r >> 1u8) & 1u8 == 1u8),
            ((c >> 2u8) & 1u8 == 1u8) == ((r >> 2u8) & 1u8 == 1u8),
            ((c >> 3u8) & 1u8 == 1u8) == ((r >> 3u8) & 1u8 == 1u8),
            ((c >> 4u8) & 1u8 == 1u8) == ((r >> 4u8) & 1u8 == 1u8),
            ((c >> 5u8) & 1u8 == 1u8) == ((r >> 5u8) & 1u8 == 1u8),
            ((c >> 6u8) & 1u8 == 1u8) == ((r >> 6u8) & 1u8 == 1u8),
            ((c >> 7u8) & 1u8 == 1u8) == ((r >> 7u8) & 1u8 == 1u8),
    ;
}

/// The formula reverses the bits, so it is the reversal.
proof fn lemma_bit_rev_formula(b: u8)
    ensures
        bit_rev(b) == reversal_formula(b),
{
    let r = reversal_formula(b);
    assert forall|i: u8| i < 8 implies #[trigger] bit(r, i) == bit(b, (7 - i) as u8) by {
        assert(((r >> i) & 1u8 == 1u8) == ((b >> ((7 - i) as u8)) & 1u8 == 1u8)) by (bit_vector)
            requires
                r == ((b & 1) << 7u8) | ((b & 2) << 5u8) | ((b & 4) << 3u8) | ((b & 8) << 1u8) | ((
                b & 16) >> 1u8) | ((b & 32) >> 3u8) | ((b & 64) >> 5u8) | ((b & 128) >> 7u8),
                i < 8,
        ;
    }
    assert(reverses_bits(r, b));
    let c = bit_rev(b);
    assert(reverses_bits(c, b));
    assert forall|i: u8| i < 8 implies #[trigger] bit(c, i) == bit(r, i) by {
        assert(bit(c, i) == bit(b, (7 - i) as u8));
        assert(bit(r, i) == bit(b, (7 - i) as u8));
    }
    lemma_bits_equal(c, r);
}

/// The obfuscation of one byte under a key byte.
pub open spec fn obf(b: u8, k: u8) -> u8 {
    bit_rev(b ^ k)
}

/// The inverse of `obf` for the same key byte.
pub open spec fn deobf(x: u8, k: u8) -> u8 {
    bit_rev(x) ^ k
}

pub proof fn lemma_bit_rev_involutive(b: u8)
    ensures
        bit_rev(bit_rev(b)) == b,
{
    lemma_bit_rev_formula(b);
    lemma_bit_rev_formula(reversal_formula(b));
    let r = reversal_formula(b);
    assert(reversal_formula(r) == b) by (bit_vector)
        requires
            r == ((b & 1) << 7u8) | ((b & 2) << 5u8) | ((b & 4) << 3u8) | ((b & 8) << 1u8) | ((b
                & 16) >> 1u8) | ((b & 32) >> 3u8) | ((b & 64) >> 5u8) | ((b & 128) >> 7u8),
    ;
}

/// Deobfuscating under the key that obfuscated gives the byte back.
pub proof fn lemma_deobf_obf(b: u8, k: u8)
    ensures
        deobf(obf(b, k), k) == b,
{
    lemma_bit_rev_involutive(b ^ k);
    assert((b ^ k) ^ k == b) by (bit_vector);
}

/// Deobfuscation is one to one for a fixed key byte.
pub proof fn lemma_deobf_injective(x: u8, y: u8, k: u8)
    ensures
        deobf(x, k) == deobf(y, k) ==> x == y,
{
    lemma_bit_rev_involutive(x);
    lemma_bit_rev_involutive(y);
    assert(deobf(x, k) == deobf(y, k) ==> bit_rev(x) == bit_rev(y)) by (bit_vector)
        requires
            deobf(x, k) == bit_rev(x) ^ k,
            deobf(y, k) == bit_rev(y) ^ k,
    ;
}

/// Deobfuscating one byte under two different key bytes gives two
/// different bytes.
pub proof fn lemma_deobf_key_injective(x: u8, k1: u8, k2: u8)
    ensures
        deobf(x, k1) == deobf(x, k2) ==> k1 == k2,
{
    let r = bit_rev(x);
    assert((r ^ k1) == (r ^ k2) ==> k1 == k2) by (bit_vector);
}

/// Reverses the order of the bits of a byte.
pub fn reverse_bits(b: u8) -> (r: u8)
    ensures
        r == bit_rev(b),
{
    proof {
        lemma_bit_rev_formula(b);
    }
    ((b & 1) << 7u8) | ((b & 2) << 5u8) | ((b & 4) << 3u8) | ((b & 8) << 1u8) | ((b & 16) >> 1u8)
        | ((b & 32) >> 3u8) | ((b & 64) >> 5u8) | ((b & 128) >> 7u8)
}

/// XOR with the key byte, then reverse the bits.
pub fn obfuscate(b: u8, k: u8) -> (r: u8)
    ensures
        r == obf(b, k),
{
    reverse_bits(b ^ k)
}

/// Reverse the bits, then XOR with the key byte.
pub fn deobfuscate(x: u8, k: u8) -> (r: u8)
    ensures
        r == deobf(x, k),
{
    reverse_bits(x) ^ k
}

} // verus!
