//! The magic exchange: before any key material is agreed, the dialling side
//! proves that it speaks this protocol and that its message is fresh,
//! without a fixed signature on the wire.
//!
//! The sender draws a 16-byte epoch key and a magic key as long as the
//! token. On the wire, in this order:
//! - the epoch key, each byte obfuscated under 42, in reversed byte order;
//! - the little-endian timestamp, byte `i` obfuscated under epoch-key byte
//!   `i`, in reversed byte order;
//! - the magic key, byte `i` obfuscated under timestamp byte `i % 16`, in
//!   reversed byte order;
//! - the token, byte `i` obfuscated under magic-key byte `i`.
use vstd::prelude::*;
use rand::RngCore;
use vstd::string::StringSliceAdditionalSpecFns;
use crate::bits::{
    deobf, deobfuscate, lemma_deobf_injective, lemma_deobf_key_injective, lemma_deobf_obf, obf,
    obfuscate,
};

verus! {

/// The token both ends expect at the end of the magic exchange.
pub const MAGIC_INITIALIZER: &'static str = "4c7a1e0f-xenon-b93d-tunnel-62e8a5f1";

/// The bytes of the token.
pub open spec fn magic_token() -> Seq<u8> {
    MAGIC_INITIALIZER.spec_bytes()
}

/// The token is 35 ASCII bytes.
pub proof fn lemma_magic_token_len()
    ensures
        magic_token().len() == 35,
{
    reveal_strlit("4c7a1e0f-xenon-b93d-tunnel-62e8a5f1");
    assert(MAGIC_INITIALIZER == "4c7a1e0f-xenon-b93d-tunnel-62e8a5f1");
    assert(vstd::string::is_ascii(MAGIC_INITIALIZER));
    vstd::string::is_ascii_spec_bytes(MAGIC_INITIALIZER);
    assert(MAGIC_INITIALIZER.spec_bytes().len() == 35);
}

/// Bytes in the timestamp and in the epoch key.
pub const EPOCH_LEN: usize = 16;

/// The key byte that the epoch key is sent under.
pub const EPOCH_KEY_KEY: u8 = 42;

/// How far, in nanoseconds, local time may be past the sender's timestamp.
pub const FRESHNESS_NANOS: u128 = 5_000_000_000;

pub open spec fn pow256(n: nat) -> nat
    decreases n,
{
    if n == 0 {
        1
    } else {
        256 * pow256((n - 1) as nat)
    }
}

/// The number that the bytes `s` give, least significant first.
pub open spec fn le_value(s: Seq<u8>) -> nat
    decreases s.len(),
{
    if s.len() == 0 {
        0
    } else {
        s[0] as nat + 256 * le_value(s.drop_first())
    }
}

/// The `n` least significant bytes of `v`, least significant first.
pub open spec fn le_bytes(v: nat, n: nat) -> Seq<u8>
    decreases n,
{
    if n == 0 {
        Seq::empty()
    } else {
        seq![(v % 256) as u8] + le_bytes(v / 256, (n - 1) as nat)
    }
}

pub proof fn lemma_le_bytes(v: nat, n: nat)
    ensures
        le_bytes(v, n).len() == n,
        v < pow256(n) ==> le_value(le_bytes(v, n)) == v,
    decreases n,
{
    if n > 0 {
        lemma_le_bytes(v / 256, (n - 1) as nat);
        assert(le_bytes(v, n).drop_first() =~= le_bytes(v / 256, (n - 1) as nat));
        assert(v < 256 * pow256((n - 1) as nat) ==> v / 256 < pow256((n - 1) as nat))
            by (nonlinear_arith);
    }
}

pub proof fn lemma_le_value_bound(s: Seq<u8>)
    ensures
        le_value(s) < pow256(s.len()),
    decreases s.len(),
{
    if s.len() > 0 {
        lemma_le_value_bound(s.drop_first());
        let a = s[0] as nat;
        let b = le_value(s.drop_first());
        let p = pow256((s.len() - 1) as nat);
        assert(a < 256 && b < p ==> a + 256 * b < 256 * p) by (nonlinear_arith);
    }
}

proof fn lemma_pow256_16()
    ensures
        pow256(16) == 0x1_0000_0000_0000_0000_0000_0000_0000_0000,
{
    reveal_with_fuel(pow256, 17);
}

/// The sixteen bytes of `v`, least significant first.
pub fn u128_to_le(v: u128) -> (r: Vec<u8>)
    ensures
        r@ == le_bytes(v as nat, EPOCH_LEN as nat),
{
    let mut r: Vec<u8> = Vec::with_capacity(EPOCH_LEN);
    let mut x: u128 = v;
    let mut i: usize = 0;
    while i < EPOCH_LEN
        invariant
            i <= EPOCH_LEN,
            r@ + le_bytes(x as nat, (EPOCH_LEN - i) as nat) =~= le_bytes(v as nat, EPOCH_LEN as nat),
        decreases EPOCH_LEN - i,
    {
        let ghost before = x;
        r.push((x % 256) as u8);
        x = x / 256;
        i += 1;
        assert(le_bytes(before as nat, (EPOCH_LEN - i + 1) as nat) =~= seq![(before % 256) as u8]
            + le_bytes(x as nat, (EPOCH_LEN - i) as nat));
    }
    r
}

/// The number that sixteen bytes give, least significant first.
pub fn u128_from_le(s: &[u8]) -> (r: u128)
    requires
        s@.len() == EPOCH_LEN,
    ensures
        r as nat == le_value(s@),
{
    let mut acc: u128 = 0;
    let mut i: usize = EPOCH_LEN;
    while i > 0
        invariant
            s@.len() == EPOCH_LEN,
            i <= EPOCH_LEN,
            acc as nat == le_value(s@.skip(i as int)),
        decreases i,
    {
        let ghost tail = s@.skip(i as int);
        i -= 1;
        proof {
            assert(s@.skip(i as int).drop_first() =~= tail);
            lemma_le_value_bound(s@.skip(i as int));
            lemma_le_value_bound(tail);
            reveal_with_fuel(pow256, 17);
            assert(pow256(tail.len()) <= pow256(15));
        }
        acc = s[i] as u128 + 256 * acc;
    }
    assert(s@.skip(0) =~= s@);
    acc
}

/// Epoch-key byte `i`, recovered from the wire `w`.
pub open spec fn recovered_epoch_key(w: Seq<u8>, i: int) -> u8 {
    deobf(w[15 - i], EPOCH_KEY_KEY)
}

/// Timestamp byte `i`, recovered from the wire `w`.
pub open spec fn recovered_epoch(w: Seq<u8>, i: int) -> u8 {
    deobf(w[31 - i], recovered_epoch_key(w, i))
}

/// Magic-key byte `i`, recovered from the wire `w` for a token of `n` bytes.
pub open spec fn recovered_magic_key(w: Seq<u8>, n: int, i: int) -> u8 {
    deobf(w[32 + n - 1 - i], recovered_epoch(w, i % 16))
}

/// Token byte `i`, recovered from the wire `w` for a token of `n` bytes.
pub open spec fn recovered_token_byte(w: Seq<u8>, n: int, i: int) -> u8 {
    deobf(w[32 + n + i], recovered_magic_key(w, n, i))
}

pub open spec fn recovered_timestamp(w: Seq<u8>) -> nat {
    le_value(Seq::new(16, |i: int| recovered_epoch(w, i)))
}

pub open spec fn recovered_token(w: Seq<u8>, n: int) -> Seq<u8> {
    Seq::new(n as nat, |i: int| recovered_token_byte(w, n, i))
}

/// The length of a magic exchange for a token of `n` bytes.
pub open spec fn magic_wire_len(n: nat) -> nat {
    32 + 2 * n
}

/// The bytes a sender puts on the wire.
pub open spec fn magic_wire(token: Seq<u8>, epoch: nat, ek: Seq<u8>, mk: Seq<u8>) -> Seq<u8> {
    let e = le_bytes(epoch, 16);
    let n = token.len() as int;
    Seq::new(16, |i: int| obf(ek[15 - i], EPOCH_KEY_KEY))
        + Seq::new(16, |i: int| obf(e[15 - i], ek[15 - i]))
        + Seq::new(n as nat, |i: int| obf(mk[n - 1 - i], e[(n - 1 - i) % 16]))
        + Seq::new(n as nat, |i: int| obf(token[i], mk[i]))
}

/// A receiver accepts the wire `w` at local time `now` when it has the
/// right length, the token comes back, and `now` is at most five seconds
/// past the timestamp.
pub open spec fn magic_accepts(token: Seq<u8>, w: Seq<u8>, now: nat) -> bool {
    &&& w.len() == magic_wire_len(token.len())
    &&& now <= recovered_timestamp(w) + FRESHNESS_NANOS
    &&& recovered_token(w, token.len() as int) == token
}

/// The wire bytes of a magic exchange for `token` at time `epoch`, under
/// the keys `epoch_key` and `magic_key`.
pub fn encode_magic(token: &[u8], epoch: u128, epoch_key: &[u8], magic_key: &[u8]) -> (r: Vec<u8>)
    requires
        epoch_key@.len() == EPOCH_LEN,
        magic_key@.len() == token@.len(),
    ensures
        r@ == magic_wire(token@, epoch as nat, epoch_key@, magic_key@),
{
    let n = token.len();
    let e = u128_to_le(epoch);
    proof {
        lemma_le_bytes(epoch as nat, 16);
    }
    let mut w: Vec<u8> = Vec::new();
    let mut i: usize = 0;
    while i < EPOCH_LEN
        invariant
            epoch_key@.len() == EPOCH_LEN,
            i <= EPOCH_LEN,
            w@ =~= Seq::new(i as nat, |j: int| obf(epoch_key@[15 - j], EPOCH_KEY_KEY)),
        decreases EPOCH_LEN - i,
    {
        w.push(obfuscate(epoch_key[15 - i], EPOCH_KEY_KEY));
        i += 1;
    }
    let ghost with_key = w@;
    i = 0;
    while i < EPOCH_LEN
        invariant
            epoch_key@.len() == EPOCH_LEN,
            e@.len() == EPOCH_LEN,
            i <= EPOCH_LEN,
            w@ =~= with_key + Seq::new(i as nat, |j: int| obf(e@[15 - j], epoch_key@[15 - j])),
        decreases EPOCH_LEN - i,
    {
        w.push(obfuscate(e[15 - i], epoch_key[15 - i]));
        i += 1;
    }
    let ghost with_epoch = w@;
    i = 0;
    while i < n
        invariant
            n == token@.len(),
            magic_key@.len() == n,
            e@.len() == EPOCH_LEN,
            i <= n,
            w@ =~= with_epoch + Seq::new(
                i as nat,
                |j: int| obf(magic_key@[n - 1 - j], e@[(n - 1 - j) % 16]),
            ),
        decreases n - i,
    {
        w.push(obfuscate(magic_key[n - 1 - i], e[(n - 1 - i) % 16]));
        i += 1;
    }
    let ghost with_magic_key = w@;
    i = 0;
    while i < n
        invariant
            n == token@.len(),
            magic_key@.len() == n,
            i <= n,
            w@ =~= with_magic_key + Seq::new(i as nat, |j: int| obf(token@[j], magic_key@[j])),
        decreases n - i,
    {
        w.push(obfuscate(token[i], magic_key[i]));
        i += 1;
    }
    assert(w@ =~= magic_wire(token@, epoch as nat, epoch_key@, magic_key@));
    w
}

/// Checks the bytes `wire` of a magic exchange against `token` at local
/// time `now` (nanoseconds since the Unix epoch).
pub fn read_magic(token: &[u8], wire: &[u8], now: u128) -> (r: bool)
    ensures
        r == magic_accepts(token@, wire@, now as nat),
{
    let n = token.len();
    if wire.len() < 32 || (wire.len() - 32) % 2 != 0 || (wire.len() - 32) / 2 != n {
        return false;
    }
    let mut ek: Vec<u8> = Vec::with_capacity(EPOCH_LEN);
    let mut i: usize = 0;
    while i < EPOCH_LEN
        invariant
            wire.len() == 32 + 2 * n,
            i <= EPOCH_LEN,
            ek@.len() == i,
            forall|j: int| 0 <= j < i ==> ek@[j] == recovered_epoch_key(wire@, j),
        decreases EPOCH_LEN - i,
    {
        ek.push(deobfuscate(wire[15 - i], EPOCH_KEY_KEY));
        i += 1;
    }
    let mut e: Vec<u8> = Vec::with_capacity(EPOCH_LEN);
    i = 0;
    while i < EPOCH_LEN
        invariant
            wire.len() == 32 + 2 * n,
            i <= EPOCH_LEN,
            ek@.len() == EPOCH_LEN,
            forall|j: int| 0 <= j < 16 ==> ek@[j] == recovered_epoch_key(wire@, j),
            e@.len() == i,
            forall|j: int| 0 <= j < i ==> e@[j] == recovered_epoch(wire@, j),
        decreases EPOCH_LEN - i,
    {
        e.push(deobfuscate(wire[31 - i], ek[i]));
        i += 1;
    }
    assert(e@ =~= Seq::new(16, |j: int| recovered_epoch(wire@, j)));
    let epoch = u128_from_le(e.as_slice());
    assert(epoch as nat == recovered_timestamp(wire@));
    if now > epoch && now - epoch > FRESHNESS_NANOS {
        return false;
    }
    i = 0;
    while i < n
        invariant
            wire.len() == 32 + 2 * n,
            n == token@.len(),
            i <= n,
            e@.len() == EPOCH_LEN,
            forall|j: int| 0 <= j < 16 ==> e@[j] == recovered_epoch(wire@, j),
            forall|j: int| 0 <= j < i ==> recovered_token_byte(wire@, n as int, j) == token@[j],
        decreases n - i,
    {
        let mk = deobfuscate(wire[32 + n - 1 - i], e[i % 16]);
        if deobfuscate(wire[32 + n + i], mk) != token[i] {
            assert(recovered_token(wire@, n as int)[i as int] != token@[i as int]);
            return false;
        }
        i += 1;
    }
    assert(recovered_token(wire@, n as int) =~= token@);
    true
}

/// Relies on rand's `thread_rng().fill_bytes`, which fills the whole
/// buffer; the bytes themselves are random.
#[verifier::external_body]
fn random_bytes(n: usize) -> (r: Vec<u8>)
    ensures
        r@.len() == n,
{
    let mut buf = vec![0u8; n];
    rand::thread_rng().fill_bytes(&mut buf);
    buf
}

/// The wire bytes of a magic exchange for `token` at time `epoch`, under
/// freshly drawn keys.
pub fn write_magic(token: &[u8], epoch: u128) -> (r: Vec<u8>)
    ensures
        exists|ek: Seq<u8>, mk: Seq<u8>|
            ek.len() == EPOCH_LEN && mk.len() == token@.len() && r@ == magic_wire(
                token@,
                epoch as nat,
                ek,
                mk,
            ),
{
    let epoch_key = random_bytes(EPOCH_LEN);
    let magic_key = random_bytes(token.len());
    let r = encode_magic(token, epoch, epoch_key.as_slice(), magic_key.as_slice());
    assert(r@ == magic_wire(token@, epoch as nat, epoch_key@, magic_key@));
    r
}

/// Every field of a sender's wire comes back at the receiver.
proof fn lemma_magic_recovers(token: Seq<u8>, epoch: nat, ek: Seq<u8>, mk: Seq<u8>)
    requires
        epoch < pow256(16),
        ek.len() == EPOCH_LEN,
        mk.len() == token.len(),
    ensures
        magic_wire(token, epoch, ek, mk).len() == magic_wire_len(token.len()),
        forall|i: int|
            0 <= i < 16 ==> #[trigger] recovered_epoch(magic_wire(token, epoch, ek, mk), i)
                == le_bytes(epoch, 16)[i],
        forall|i: int|
            0 <= i < token.len() ==> #[trigger] recovered_magic_key(
                magic_wire(token, epoch, ek, mk),
                token.len() as int,
                i,
            ) == mk[i],
        recovered_timestamp(magic_wire(token, epoch, ek, mk)) == epoch,
        recovered_token(magic_wire(token, epoch, ek, mk), token.len() as int) == token,
{
    let w = magic_wire(token, epoch, ek, mk);
    let e = le_bytes(epoch, 16);
    let n = token.len() as int;
    lemma_le_bytes(epoch, 16);
    assert forall|i: int| 0 <= i < 16 implies #[trigger] recovered_epoch(w, i) == e[i] by {
        lemma_deobf_obf(ek[i], EPOCH_KEY_KEY);
        assert(recovered_epoch_key(w, i) == ek[i]);
        assert(w[31 - i] == obf(e[i], ek[i]));
        lemma_deobf_obf(e[i], ek[i]);
    }
    assert(Seq::new(16, |i: int| recovered_epoch(w, i)) =~= e);
    assert forall|i: int| 0 <= i < n implies #[trigger] recovered_magic_key(w, n, i) == mk[i] by {
        assert(w[32 + n - 1 - i] == obf(mk[i], e[i % 16]));
        lemma_deobf_obf(mk[i], e[i % 16]);
    }
    assert forall|i: int| 0 <= i < n implies #[trigger] recovered_token_byte(w, n, i)
        == token[i] by {
        assert(recovered_magic_key(w, n, i) == mk[i]);
        lemma_deobf_obf(token[i], mk[i]);
    }
    assert(recovered_token(w, n) =~= token);
}

/// A receiver accepts what a sender wrote for the same token, under any
/// keys, when the sender's timestamp lies within the five seconds up to
/// local time.
pub proof fn lemma_magic_round_trip(token: Seq<u8>, epoch: u128, ek: Seq<u8>, mk: Seq<u8>, now: nat)
    requires
        ek.len() == EPOCH_LEN,
        mk.len() == token.len(),
        now - FRESHNESS_NANOS <= epoch <= now,
    ensures
        magic_accepts(token, magic_wire(token, epoch as nat, ek, mk), now),
{
    lemma_pow256_16();
    lemma_magic_recovers(token, epoch as nat, ek, mk);
}

/// A receiver rejects a wire whose timestamp is more than five seconds
/// before local time.
pub proof fn lemma_magic_stale(token: Seq<u8>, epoch: u128, ek: Seq<u8>, mk: Seq<u8>, now: nat)
    requires
        ek.len() == EPOCH_LEN,
        mk.len() == token.len(),
        now > epoch + FRESHNESS_NANOS,
    ensures
        !magic_accepts(token, magic_wire(token, epoch as nat, ek, mk), now),
{
    lemma_pow256_16();
    lemma_magic_recovers(token, epoch as nat, ek, mk);
}

/// For a token of at least sixteen bytes, changing any one byte of a
/// sender's wire makes the receiver reject it, at any local time.
pub proof fn lemma_magic_tamper(
    token: Seq<u8>,
    epoch: u128,
    ek: Seq<u8>,
    mk: Seq<u8>,
    now: nat,
    pos: int,
    byte: u8,
)
    requires
        ek.len() == EPOCH_LEN,
        mk.len() == token.len(),
        token.len() >= 16,
        0 <= pos < magic_wire_len(token.len()),
        byte != magic_wire(token, epoch as nat, ek, mk)[pos],
    ensures
        !magic_accepts(token, magic_wire(token, epoch as nat, ek, mk).update(pos, byte), now),
{
    lemma_pow256_16();
    lemma_magic_recovers(token, epoch as nat, ek, mk);
    let w = magic_wire(token, epoch as nat, ek, mk);
    let t = w.update(pos, byte);
    let n = token.len() as int;
    // The index of the token byte that the change reaches.
    let i: int = if pos < 16 {
        15 - pos
    } else if pos < 32 {
        31 - pos
    } else if pos < 32 + n {
        n - 1 - (pos - 32)
    } else {
        pos - 32 - n
    };
    if pos < 32 + n {
        if pos < 32 {
            let j = if pos < 16 { 15 - pos } else { 31 - pos };
            assert(j == i && i % 16 == i);
            if pos < 16 {
                lemma_deobf_injective(t[pos], w[pos], EPOCH_KEY_KEY);
                lemma_deobf_key_injective(w[31 - j], recovered_epoch_key(t, j), recovered_epoch_key(w, j));
            } else {
                lemma_deobf_injective(t[pos], w[pos], recovered_epoch_key(w, j));
            }
            assert(recovered_epoch(t, j) != recovered_epoch(w, j));
            lemma_deobf_key_injective(w[32 + n - 1 - i], recovered_epoch(t, j), recovered_epoch(w, j));
        } else {
            lemma_deobf_injective(t[pos], w[pos], recovered_epoch(w, i % 16));
        }
        assert(recovered_magic_key(t, n, i) != recovered_magic_key(w, n, i));
        lemma_deobf_key_injective(w[32 + n + i], recovered_magic_key(t, n, i), recovered_magic_key(w, n, i));
    } else {
        assert(recovered_magic_key(t, n, i) == recovered_magic_key(w, n, i));
        lemma_deobf_injective(t[pos], w[pos], recovered_magic_key(w, n, i));
    }
    assert(recovered_token_byte(t, n, i) != recovered_token_byte(w, n, i));
    assert(recovered_token(t, n)[i] != token[i]);
}

} // verus!
