//! Length-prefixed plaintext messages, used only while the key exchange
//! runs. The length is an unsigned LEB128 value of at most eight bytes, and
//! each of its bytes is obfuscated under the key byte 42; the message bytes
//! follow as they are.
use vstd::prelude::*;
use crate::bits::{deobf, deobfuscate, lemma_deobf_obf, obf, obfuscate};
use crate::leb128::{
    lemma_decode_encode, lemma_decode_extend, lemma_decode_prefix, lemma_encode_len_small,
    uleb128_read, uleb128_write, uleb_decode, uleb_decode_at, uleb_encode, LebRead,
};
use crate::SIZE_LIMIT;

verus! {

/// The key byte of the length header.
pub const HEADER_KEY: u8 = 42;

/// The most bytes a length header may take.
pub const MAX_HEADER_LEN: usize = 8;

/// What the bytes of a length header read so far say.
#[derive(Clone, Copy, Debug, PartialEq, Eq, Structural)]
pub enum SizeRead {
    /// The header goes on: read another byte.
    NeedMore,
    /// The header is malformed, or gives a length of 0 or over the limit.
    Invalid,
    /// The message length, and the number of header bytes.
    Size(usize, usize),
}

/// What a buffer that starts with a length-prefixed message holds.
#[derive(Debug, PartialEq, Eq)]
pub enum MessageRead {
    NeedMore,
    Invalid,
    /// The message, and the number of bytes it took with its header.
    Message(Vec<u8>, usize),
}

pub open spec fn obf_seq(s: Seq<u8>, k: u8) -> Seq<u8> {
    Seq::new(s.len(), |i: int| obf(s[i], k))
}

pub open spec fn deobf_seq(s: Seq<u8>, k: u8) -> Seq<u8> {
    Seq::new(s.len(), |i: int| deobf(s[i], k))
}

/// The header sent before a message of `size` bytes.
pub open spec fn size_header(size: nat) -> Seq<u8> {
    obf_seq(uleb_encode(size), HEADER_KEY)
}

pub open spec fn min_nat(a: nat, b: nat) -> nat {
    if a <= b { a } else { b }
}

/// What the header bytes `h` read so far say: the first eight of them are
/// recovered and read as LEB128; a length must be from 1 to the limit.
pub open spec fn size_read(h: Seq<u8>) -> SizeRead {
    let d = deobf_seq(h.take(min_nat(h.len(), MAX_HEADER_LEN as nat) as int), HEADER_KEY);
    match uleb_decode(d) {
        LebRead::Value(v, n) => if 1 <= v <= SIZE_LIMIT {
            SizeRead::Size(v as usize, n)
        } else {
            SizeRead::Invalid
        },
        LebRead::Incomplete => if h.len() >= MAX_HEADER_LEN {
            SizeRead::Invalid
        } else {
            SizeRead::NeedMore
        },
        LebRead::Overflow => SizeRead::Invalid,
    }
}

/// Obfuscates each byte of `s` under the key byte `k`.
fn obfuscate_all(s: &[u8], k: u8) -> (r: Vec<u8>)
    ensures
        r@ == obf_seq(s@, k),
{
    let mut r: Vec<u8> = Vec::with_capacity(s.len());
    let mut i: usize = 0;
    while i < s.len()
        invariant
            i <= s.len(),
            r@ =~= obf_seq(s@.take(i as int), k),
        decreases s.len() - i,
    {
        r.push(obfuscate(s[i], k));
        i += 1;
        assert(r@ =~= obf_seq(s@.take(i as int), k));
    }
    assert(s@.take(i as int) =~= s@);
    r
}

/// The header for a message of `size` bytes; `None` above the limit.
pub fn send_size(size: usize) -> (r: Option<Vec<u8>>)
    ensures
        size > SIZE_LIMIT ==> r is None,
        size <= SIZE_LIMIT ==> (r matches Some(h) && h@ == size_header(size as nat) && 1 <= h@.len() <= 3),
{
    if size > SIZE_LIMIT {
        return None;
    }
    proof {
        lemma_encode_len_small(size as nat);
    }
    let encoded = uleb128_write(size as u64);
    Some(obfuscate_all(encoded.as_slice(), HEADER_KEY))
}

/// Reads the length header of a message from the bytes `header` received
/// so far. A caller reads one byte at a time until the answer is not
/// `NeedMore`.
pub fn recv_size(header: &[u8]) -> (r: SizeRead)
    ensures
        r == size_read(header@),
{
    let n: usize = if header.len() < MAX_HEADER_LEN { header.len() } else { MAX_HEADER_LEN };
    let mut d: Vec<u8> = Vec::with_capacity(n);
    let mut i: usize = 0;
    while i < n
        invariant
            n <= header.len(),
            n == min_nat(header@.len(), MAX_HEADER_LEN as nat),
            i <= n,
            d@ =~= deobf_seq(header@.take(i as int), HEADER_KEY),
        decreases n - i,
    {
        d.push(deobfuscate(header[i], HEADER_KEY));
        i += 1;
        assert(d@ =~= deobf_seq(header@.take(i as int), HEADER_KEY));
    }
    match uleb128_read(d.as_slice()) {
        LebRead::Value(v, len) => if 1 <= v && v <= SIZE_LIMIT as u64 {
            SizeRead::Size(v as usize, len)
        } else {
            SizeRead::Invalid
        },
        LebRead::Incomplete => if header.len() >= MAX_HEADER_LEN {
            SizeRead::Invalid
        } else {
            SizeRead::NeedMore
        },
        LebRead::Overflow => SizeRead::Invalid,
    }
}

/// Recovering a header gives back the LEB128 encoding.
proof fn lemma_deobf_header(size: nat)
    ensures
        deobf_seq(size_header(size), HEADER_KEY) =~= uleb_encode(size),
{
    assert forall|i: int| 0 <= i < uleb_encode(size).len() implies deobf_seq(
        size_header(size),
        HEADER_KEY,
    )[i] == uleb_encode(size)[i] by {
        lemma_deobf_obf(uleb_encode(size)[i], HEADER_KEY);
    }
}

/// A header, whatever follows it, reads as the size it was made for; every
/// proper prefix of it asks for more.
pub proof fn lemma_size_round_trip(size: nat, rest: Seq<u8>)
    requires
        1 <= size <= SIZE_LIMIT,
    ensures
        size_read(size_header(size) + rest) == SizeRead::Size(
            size as usize,
            size_header(size).len() as usize,
        ),
        forall|m: int|
            0 <= m < size_header(size).len() ==> #[trigger] size_read(size_header(size).take(m))
                == SizeRead::NeedMore,
{
    let h = size_header(size);
    let enc = uleb_encode(size);
    lemma_encode_len_small(size);
    lemma_deobf_header(size);
    let s = h + rest;
    let t = s.take(min_nat(s.len(), MAX_HEADER_LEN as nat) as int);
    let d = deobf_seq(t, HEADER_KEY);
    let tail = d.skip(enc.len() as int);
    assert(d =~= enc + tail);
    lemma_decode_encode(size, tail);
    assert forall|m: int| 0 <= m < h.len() implies #[trigger] size_read(h.take(m))
        == SizeRead::NeedMore by {
        let hm = h.take(m);
        assert(hm.take(min_nat(hm.len(), MAX_HEADER_LEN as nat) as int) =~= hm);
        assert(deobf_seq(hm, HEADER_KEY) =~= enc.take(m));
        lemma_decode_prefix(size, m as nat, 0);
    }
}

/// The bytes that carry a message: its length header, then the message.
/// `None` when the message is over the limit.
pub fn write_msg(msg: &[u8]) -> (r: Option<Vec<u8>>)
    ensures
        msg@.len() > SIZE_LIMIT ==> r is None,
        msg@.len() <= SIZE_LIMIT ==> (r matches Some(out) && out@ == size_header(msg@.len()) + msg@),
{
    match send_size(msg.len()) {
        None => None,
        Some(mut out) => {
            let mut i: usize = 0;
            let ghost h = out@;
            while i < msg.len()
                invariant
                    i <= msg.len(),
                    out@ =~= h + msg@.take(i as int),
                decreases msg.len() - i,
            {
                out.push(msg[i]);
                i += 1;
                assert(out@ =~= h + msg@.take(i as int));
            }
            assert(msg@.take(i as int) =~= msg@);
            Some(out)
        },
    }
}

/// Reads one length-prefixed message from the front of `buf`.
pub fn read_msg(buf: &[u8]) -> (r: MessageRead)
    ensures
        size_read(buf@) is NeedMore ==> r is NeedMore,
        size_read(buf@) is Invalid ==> r is Invalid,
        size_read(buf@) matches SizeRead::Size(size, n) ==> {
            &&& buf@.len() < n + size ==> r is NeedMore
            &&& buf@.len() >= n + size ==> (r matches MessageRead::Message(m, used) && used == n
                + size && m@ == buf@.subrange(n as int, n + size))
        },
{
    match recv_size(buf) {
        SizeRead::NeedMore => MessageRead::NeedMore,
        SizeRead::Invalid => MessageRead::Invalid,
        SizeRead::Size(size, n) => {
            proof {
                size_read_bounds(buf@);
            }
            if buf.len() - n < size {
                MessageRead::NeedMore
            } else {
                let mut m: Vec<u8> = Vec::with_capacity(size);
                let mut i: usize = 0;
                while i < size
                    invariant
                        n + size <= buf.len(),
                        i <= size,
                        m@ =~= buf@.subrange(n as int, n + i),
                    decreases size - i,
                {
                    m.push(buf[n + i]);
                    i += 1;
                    assert(m@ =~= buf@.subrange(n as int, n + i));
                }
                MessageRead::Message(m, n + size)
            }
        },
    }
}

/// A header that gives a size took from one to eight bytes of the buffer.
pub proof fn size_read_bounds(h: Seq<u8>)
    ensures
        size_read(h) matches SizeRead::Size(size, n) ==> 1 <= n <= h.len() && n <= MAX_HEADER_LEN
            && 1 <= size <= SIZE_LIMIT,
{
    let d = deobf_seq(h.take(min_nat(h.len(), MAX_HEADER_LEN as nat) as int), HEADER_KEY);
    if uleb_decode(d) is Value {
        lemma_decode_extend(d, Seq::empty(), 0);
    }
}

} // verus!
