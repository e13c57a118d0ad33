//! Unsigned LEB128: little-endian groups of seven bits, the high bit of each
//! byte set when more bytes follow.
use vstd::prelude::*;

verus! {

/// What reading an unsigned LEB128 value from the front of a buffer gives.
#[derive(Clone, Copy, Debug, PartialEq, Eq, Structural)]
pub enum LebRead {
    /// The value and the number of bytes it took.
    Value(u64, usize),
    /// The buffer ends before the last byte of the value.
    Incomplete,
    /// The value does not fit in 64 bits.
    Overflow,
}

/// The encoding of `v`.
pub open spec fn uleb_encode(v: nat) -> Seq<u8>
    decreases v,
{
    if v < 128 {
        seq![v as u8]
    } else {
        seq![(v % 128 + 128) as u8] + uleb_encode(v / 128)
    }
}

/// Reading a value from the front of `s`, where `s[0]` is byte number `k`
/// of the value. A tenth byte may hold one bit only.
pub open spec fn uleb_decode_at(s: Seq<u8>, k: nat) -> LebRead
    decreases s.len(),
{
    if s.len() == 0 {
        LebRead::Incomplete
    } else if k == 9 && s[0] > 1 {
        LebRead::Overflow
    } else if s[0] < 128 {
        LebRead::Value(s[0] as u64, 1)
    } else {
        match uleb_decode_at(s.drop_first(), k + 1) {
            LebRead::Value(v, n) => LebRead::Value(
                ((s[0] - 128) + 128 * v) as u64,
                (n + 1) as usize,
            ),
            other => other,
        }
    }
}

/// Reading a value from the front of `s`.
pub open spec fn uleb_decode(s: Seq<u8>) -> LebRead {
    uleb_decode_at(s, 0)
}

pub open spec fn pow128(n: nat) -> nat
    decreases n,
{
    if n == 0 {
        1
    } else {
        128 * pow128((n - 1) as nat)
    }
}

/// An encoding is never empty, and a value below `128^j` takes at most `j`
/// bytes.
pub proof fn lemma_encode_len(v: nat, j: nat)
    ensures
        uleb_encode(v).len() >= 1,
        j >= 1 && v < pow128(j) ==> uleb_encode(v).len() <= j,
    decreases v,
{
    if v >= 128 {
        if j > 0 {
            lemma_encode_len(v / 128, (j - 1) as nat);
            assert(v < 128 * pow128((j - 1) as nat) ==> v / 128 < pow128((j - 1) as nat))
                by (nonlinear_arith);
        } else {
            lemma_encode_len(v / 128, 0);
        }
    }
}

pub proof fn lemma_encode_len_small(v: nat)
    ensures
        1 <= uleb_encode(v).len(),
        v < 128 ==> uleb_encode(v).len() == 1,
        v < 0x20_0000 ==> uleb_encode(v).len() <= 3,
        v < 0x100_0000_0000_0000 ==> uleb_encode(v).len() <= 8,
{
    reveal_with_fuel(pow128, 9);
    lemma_encode_len(v, 3);
    lemma_encode_len(v, 8);
}

/// Reading an encoding, as byte number `k` on, gives back the value and the
/// encoding's length, whatever follows it.
pub proof fn lemma_decode_encode_at(v: nat, rest: Seq<u8>, k: nat)
    requires
        v * pow128(k) < 0x1_0000_0000_0000_0000,
    ensures
        uleb_decode_at(uleb_encode(v) + rest, k) == LebRead::Value(
            v as u64,
            uleb_encode(v).len() as usize,
        ),
        uleb_encode(v).len() + k <= 10 || v == 0,
    decreases v,
{
    let s = uleb_encode(v) + rest;
    let p = pow128(k);
    lemma_pow128_pos(k);
    assert(p >= 1 && v * p < 0x1_0000_0000_0000_0000 ==> v < 0x1_0000_0000_0000_0000)
        by (nonlinear_arith);
    if k >= 9 && v > 0 {
        lemma_pow128_bounds(k);
        assert(p >= 0x8000_0000_0000_0000 && v * p < 0x1_0000_0000_0000_0000 ==> v <= 1)
            by (nonlinear_arith);
        assert(k >= 10 ==> p >= 0x1_0000_0000_0000_0000);
        assert(v >= 1 && p >= 0x1_0000_0000_0000_0000 ==> v * p >= 0x1_0000_0000_0000_0000)
            by (nonlinear_arith);
    }
    if v >= 128 {
        lemma_encode_len(v / 128, 0);
        assert(s.drop_first() =~= uleb_encode(v / 128) + rest);
        assert(v >= 128 ==> (v / 128) * (128 * p) <= v * p) by (nonlinear_arith);
        lemma_decode_encode_at(v / 128, rest, k + 1);
        assert(((v % 128 + 128) as u8) - 128 == v % 128);
        assert(v % 128 + 128 * (v / 128) == v);
    }
}

/// Reading an encoding gives back the value and the encoding's length,
/// whatever follows it, for every value of 64 bits.
pub proof fn lemma_decode_encode(v: nat, rest: Seq<u8>)
    requires
        v < 0x1_0000_0000_0000_0000,
    ensures
        uleb_decode(uleb_encode(v) + rest) == LebRead::Value(
            v as u64,
            uleb_encode(v).len() as usize,
        ),
        uleb_encode(v).len() <= 10,
{
    assert(pow128(0) == 1);
    lemma_decode_encode_at(v, rest, 0);
}

proof fn lemma_pow128_pos(k: nat)
    ensures
        pow128(k) >= 1,
    decreases k,
{
    if k > 0 {
        lemma_pow128_pos((k - 1) as nat);
    }
}

proof fn lemma_pow128_bounds(k: nat)
    requires
        k >= 9,
    ensures
        pow128(k) >= 0x8000_0000_0000_0000,
        k >= 10 ==> pow128(k) >= 0x1_0000_0000_0000_0000,
    decreases k,
{
    if k <= 10 {
        reveal_with_fuel(pow128, 11);
    } else {
        lemma_pow128_bounds((k - 1) as nat);
    }
}

/// Every proper prefix of an encoding reads as incomplete.
pub proof fn lemma_decode_prefix(v: nat, m: nat, k: nat)
    requires
        m < uleb_encode(v).len(),
        k + uleb_encode(v).len() <= 9,
    ensures
        uleb_decode_at(uleb_encode(v).take(m as int), k) == LebRead::Incomplete,
    decreases v,
{
    if m > 0 {
        let s = uleb_encode(v).take(m as int);
        lemma_encode_len(v / 128, 0);
        assert(s.drop_first() =~= uleb_encode(v / 128).take(m - 1));
        lemma_decode_prefix(v / 128, (m - 1) as nat, k + 1);
    }
}

/// A complete read, or an overflow, is not changed by what follows it.
pub proof fn lemma_decode_extend(a: Seq<u8>, b: Seq<u8>, k: nat)
    requires
        k <= 9,
        !(uleb_decode_at(a, k) is Incomplete),
    ensures
        uleb_decode_at(a + b, k) == uleb_decode_at(a, k),
        uleb_decode_at(a, k) matches LebRead::Value(_, n) ==> 1 <= n <= a.len() && n + k <= 10,
    decreases a.len(),
{
    if a.len() > 0 && !(k == 9 && a[0] > 1) && a[0] >= 128 {
        assert((a + b).drop_first() =~= a.drop_first() + b);
        lemma_decode_extend(a.drop_first(), b, k + 1);
    }
}

/// Relies on nano_leb128's `ULEB128::write_into`, which writes the low seven
/// bits first and sets the high bit of every byte but the last. Ten bytes
/// hold any `u64`.
#[verifier::external_body]
pub(crate) fn uleb128_write(value: u64) -> (r: Vec<u8>)
    ensures
        r@ == uleb_encode(value as nat),
{
    let mut buf = [0u8; 10];
    let n = nano_leb128::ULEB128::from(value).write_into(&mut buf).unwrap_or(0);
    buf[..n].to_vec()
}

/// Relies on nano_leb128's `ULEB128::read_from`: it reads bytes until one
/// with the high bit clear, fails with `BufferOverflow` when the buffer ends
/// first and with `IntegerOverflow` when a tenth byte exceeds 1.
#[verifier::external_body]
pub(crate) fn uleb128_read(buf: &[u8]) -> (r: LebRead)
    ensures
        r == uleb_decode(buf@),
{
    match nano_leb128::ULEB128::read_from(buf) {
        Ok((v, n)) => LebRead::Value(u64::from(v), n),
        Err(nano_leb128::LEB128DecodeError::BufferOverflow) => LebRead::Incomplete,
        Err(nano_leb128::LEB128DecodeError::IntegerOverflow) => LebRead::Overflow,
    }
}

} // verus!
