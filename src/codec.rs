//! The frame codec of an established tunnel.
//!
//! A message of `L` bytes becomes an inner record, the LEB128 encoding of
//! `L` followed by the LZ4 block compression of the message; the record is
//! encrypted under the sending half of the transport cipher, which appends
//! a 16-byte tag; the ciphertext goes on the wire after its own LEB128
//! length. Decoding is the inverse, and takes a buffer that may hold less
//! than one frame: then it asks for more and changes nothing.
use vstd::prelude::*;
use vstd::slice::slice_subrange;
use crate::leb128::{
    lemma_decode_encode, lemma_decode_extend, lemma_decode_prefix,
    lemma_encode_len_small, uleb128_read, uleb128_write, uleb_decode, uleb_decode_at, uleb_encode,
    LebRead,
};
use crate::SIZE_LIMIT;

verus! {

/// Bytes that the cipher adds to each record.
pub const TAG_LEN: usize = 16;

/// Why a frame could not be made or read.
#[derive(Clone, Copy, Debug, PartialEq, Eq, Structural)]
pub enum CodecError {
    /// A frame's length field is zero, at or over the limit, or does not
    /// fit in 64 bits.
    InvalidLength,
    /// The cipher refused: the frame was corrupted or tampered with, or the
    /// cipher's nonces ran out.
    Crypto,
    /// A decrypted record is malformed or does not decompress to the length
    /// it declares.
    InvalidRecord,
    /// The message is too large for one frame.
    TooLarge,
}

/// Where the next frame of a buffer stands.
#[derive(Clone, Copy, Debug, PartialEq, Eq, Structural)]
pub enum FrameSplit {
    /// The buffer does not yet hold a whole frame.
    NeedMore,
    /// The length field is invalid.
    Invalid,
    /// The ciphertext starts at the first offset and has the second length.
    Frame(usize, usize),
}

/// What one step of decoding gives.
#[derive(Debug, PartialEq, Eq)]
pub enum Decoded {
    NeedMore,
    /// A message, and the number of buffer bytes its frame took.
    Message(Vec<u8>, usize),
}

/// The LZ4 block compression of `s`.
pub uninterp spec fn lz4_of(s: Seq<u8>) -> Seq<u8>;

/// Relies on lz4_flex's `compress`: an LZ4 block holding all of the input.
#[verifier::external_body]
fn lz4_compress(input: &[u8]) -> (r: Vec<u8>)
    ensures
        r@ == lz4_of(input@),
{
    lz4_flex::compress(input)
}

/// Relies on lz4_flex's `decompress` with its default checked decoder:
/// output never exceeds `size` (an error instead), and a block made by
/// `compress` decompresses to the bytes it was made from.
#[verifier::external_body]
fn lz4_decompress(input: &[u8], size: usize) -> (r: Option<Vec<u8>>)
    ensures
        r matches Some(v) ==> v@.len() <= size,
        forall|p: Seq<u8>|
            #[trigger] lz4_of(p) == input@ && p.len() <= size ==> r is Some && r->Some_0@ == p,
{
    lz4_flex::decompress(input, size).ok()
}

#[verifier::external_type_specification]
#[verifier::external_body]
pub struct ExTransportState(snow::TransportState);

#[verifier::external_type_specification]
#[verifier::external_body]
pub struct ExSnowError(snow::Error);

/// Relies on snow's `TransportState::write_message`: it refuses a payload
/// whose ciphertext would exceed 65535 bytes or the buffer, and otherwise
/// writes the payload's length plus the 16-byte tag, unless its nonces
/// have run out.
#[verifier::external_body]
fn transport_write(
    t: &mut snow::TransportState,
    payload: &[u8],
    message: &mut Vec<u8>,
) -> (r: Result<usize, snow::Error>)
    ensures
        final(message)@.len() == old(message)@.len(),
        r matches Ok(n) ==> n == payload@.len() + TAG_LEN,
        payload@.len() + TAG_LEN > SIZE_LIMIT || payload@.len() + TAG_LEN > old(message)@.len()
            ==> r is Err,
{
    t.write_message(payload, message.as_mut_slice())
}

/// Relies on snow's `TransportState::read_message`: it refuses a message
/// over 65535 bytes, shorter than the tag, or whose payload would not fit
/// the buffer, fails when the tag does not verify, and otherwise writes
/// the message's length less the tag.
#[verifier::external_body]
fn transport_read(
    t: &mut snow::TransportState,
    message: &[u8],
    payload: &mut Vec<u8>,
) -> (r: Result<usize, snow::Error>)
    ensures
        final(payload)@.len() == old(payload)@.len(),
        r matches Ok(n) ==> n + TAG_LEN == message@.len(),
        message@.len() > SIZE_LIMIT || message@.len() < TAG_LEN || old(payload)@.len()
            < message@.len() - TAG_LEN ==> r is Err,
{
    t.read_message(message, payload.as_mut_slice())
}

/// The inner record of the message `p`.
pub open spec fn record(p: Seq<u8>) -> Seq<u8> {
    uleb_encode(p.len()) + lz4_of(p)
}

/// A frame on the wire around the ciphertext `ct`.
pub open spec fn frame_of(ct: Seq<u8>) -> Seq<u8> {
    uleb_encode(ct.len()) + ct
}

/// Where the next frame of `s` stands.
pub open spec fn frame_split(s: Seq<u8>) -> FrameSplit {
    match uleb_decode(s) {
        LebRead::Incomplete => FrameSplit::NeedMore,
        LebRead::Overflow => FrameSplit::Invalid,
        LebRead::Value(len, off) => if len == 0 || len >= SIZE_LIMIT {
            FrameSplit::Invalid
        } else if s.len() < off + len {
            FrameSplit::NeedMore
        } else {
            FrameSplit::Frame(off, len as usize)
        },
    }
}

/// Appends `src` to `dst`.
fn append(dst: &mut Vec<u8>, src: &[u8])
    ensures
        final(dst)@ == old(dst)@ + src@,
{
    let ghost start = dst@;
    let mut i: usize = 0;
    while i < src.len()
        invariant
            i <= src.len(),
            dst@ =~= start + src@.take(i as int),
        decreases src.len() - i,
    {
        dst.push(src[i]);
        i += 1;
        assert(dst@ =~= start + src@.take(i as int));
    }
    assert(src@.take(i as int) =~= src@);
}

/// A buffer of `n` zero bytes.
pub(crate) fn zeroed(n: usize) -> (r: Vec<u8>)
    ensures
        r@.len() == n,
{
    let mut r: Vec<u8> = Vec::with_capacity(n);
    let mut i: usize = 0;
    while i < n
        invariant
            i <= n,
            r@.len() == i,
        decreases n - i,
    {
        r.push(0);
        i += 1;
    }
    r
}

/// `m` is what the decrypted record `q` opens to: the length `q` declares,
/// at most the limit, and the message that any record equal to `q` was
/// made from.
pub open spec fn opened(q: Seq<u8>, m: Seq<u8>) -> bool {
    &&& m.len() <= SIZE_LIMIT
    &&& uleb_decode(q) matches LebRead::Value(len, _) && len == m.len()
    &&& forall|p: Seq<u8>| p.len() <= SIZE_LIMIT && #[trigger] record(p) == q ==> m == p
}

/// No message of at most the limit has `q` as its record.
pub open spec fn rejected(q: Seq<u8>) -> bool {
    forall|p: Seq<u8>| p.len() <= SIZE_LIMIT ==> #[trigger] record(p) != q
}

/// The inner record of `item`: its length, then its compression.
pub fn seal_record(item: &[u8]) -> (r: Vec<u8>)
    ensures
        r@ == record(item@),
{
    let mut r = uleb128_write(item.len() as u64);
    let compressed = lz4_compress(item);
    append(&mut r, compressed.as_slice());
    r
}

/// The message that a decrypted record holds. A record made from a message
/// of at most the limit opens to that message.
pub fn open_record(plain: &[u8]) -> (r: Result<Vec<u8>, CodecError>)
    ensures
        forall|p: Seq<u8>|
            p.len() <= SIZE_LIMIT && #[trigger] record(p) == plain@ ==> (r matches Ok(v) && v@ == p),
        r matches Ok(v) ==> v@.len() <= SIZE_LIMIT && (uleb_decode(plain@) matches LebRead::Value(
            len,
            _,
        ) && len == v@.len()),
        r matches Err(e) ==> e == CodecError::InvalidRecord,
        r matches Ok(v) ==> opened(plain@, v@),
        r is Err ==> rejected(plain@),
        !(uleb_decode(plain@) matches LebRead::Value(len, _) && len <= SIZE_LIMIT) ==> r
            == Err::<Vec<u8>, CodecError>(CodecError::InvalidRecord),
{
    proof {
        assert forall|p: Seq<u8>| p.len() <= SIZE_LIMIT && #[trigger] record(p) == plain@ implies
            uleb_decode(plain@) == LebRead::Value(p.len() as u64, uleb_encode(p.len()).len() as usize)
            && plain@.subrange(uleb_encode(p.len()).len() as int, plain@.len() as int) == lz4_of(p)
        by {
            lemma_encode_len_small(p.len());
            lemma_decode_encode(p.len(), lz4_of(p));
            assert(plain@.subrange(uleb_encode(p.len()).len() as int, plain@.len() as int)
                =~= lz4_of(p));
        }
    }
    match uleb128_read(plain) {
        LebRead::Value(size, start) => {
            if size > SIZE_LIMIT as u64 {
                return Err(CodecError::InvalidRecord);
            }
            proof {
                lemma_decode_extend(plain@, Seq::empty(), 0);
            }
            let compressed = slice_subrange(plain, start, plain.len());
            match lz4_decompress(compressed, size as usize) {
                Some(v) => if v.len() == size as usize {
                    Ok(v)
                } else {
                    Err(CodecError::InvalidRecord)
                },
                None => Err(CodecError::InvalidRecord),
            }
        },
        _ => Err(CodecError::InvalidRecord),
    }
}

/// Appends to `dst` the frame around the ciphertext `ct`.
pub fn frame_ciphertext(ct: &[u8], dst: &mut Vec<u8>)
    ensures
        final(dst)@ == old(dst)@ + frame_of(ct@),
{
    let header = uleb128_write(ct.len() as u64);
    append(dst, header.as_slice());
    append(dst, ct);
    assert(final(dst)@ =~= old(dst)@ + frame_of(ct@));
}

/// Where the next frame of `src` stands.
pub fn split_frame(src: &[u8]) -> (r: FrameSplit)
    ensures
        r == frame_split(src@),
        r matches FrameSplit::Frame(off, len) ==> off + len <= src.len() && 1 <= len
            < SIZE_LIMIT,
{
    match uleb128_read(src) {
        LebRead::Incomplete => FrameSplit::NeedMore,
        LebRead::Overflow => FrameSplit::Invalid,
        LebRead::Value(len, off) => {
            proof {
                lemma_decode_extend(src@, Seq::empty(), 0);
            }
            if len == 0 || len >= SIZE_LIMIT as u64 {
                FrameSplit::Invalid
            } else if src.len() - off < len as usize {
                FrameSplit::NeedMore
            } else {
                FrameSplit::Frame(off, len as usize)
            }
        },
    }
}

/// One direction pair of an established tunnel's cipher, with the framing
/// around it.
pub struct SnowfallStream {
    snowfall: snow::TransportState,
}

impl SnowfallStream {
    pub fn new(snowfall: snow::TransportState) -> Self {
        SnowfallStream { snowfall }
    }

    /// Appends to `dst` the frame that carries `item`. A message whose
    /// record would not fit one frame is refused, and so is one the cipher
    /// refuses; then `dst` is unchanged.
    pub fn encode(&mut self, item: &[u8], dst: &mut Vec<u8>) -> (r: Result<(), CodecError>)
        ensures
            r is Err ==> final(dst)@ == old(dst)@,
            (r == Err::<(), CodecError>(CodecError::TooLarge)) <==> (item@.len() > SIZE_LIMIT
                || record(item@).len() + TAG_LEN >= SIZE_LIMIT),
            r == Err::<(), CodecError>(CodecError::TooLarge) ==> *final(self) == *old(self),
            r is Ok ==> exists|ct: Seq<u8>|
                ct.len() == record(item@).len() + TAG_LEN && ct.len() < SIZE_LIMIT && final(dst)@ == old(dst)@
                    + #[trigger] frame_of(ct),
            r is Err ==> r == Err::<(), CodecError>(CodecError::TooLarge) || r == Err::<
                (),
                CodecError,
            >(CodecError::Crypto),
    {
        if item.len() > SIZE_LIMIT {
            return Err(CodecError::TooLarge);
        }
        let rec = seal_record(item);
        if rec.len() >= SIZE_LIMIT - TAG_LEN {
            return Err(CodecError::TooLarge);
        }
        let mut sealed = zeroed(rec.len() + TAG_LEN);
        match transport_write(&mut self.snowfall, rec.as_slice(), &mut sealed) {
            Ok(n) => {
                frame_ciphertext(sealed.as_slice(), dst);
                assert(sealed@.len() == record(item@).len() + TAG_LEN);
                Ok(())
            },
            Err(_) => Err(CodecError::Crypto),
        }
    }

    /// Decodes the next frame at the front of `src`. With too few bytes, or
    /// an invalid length field, nothing is decrypted and the cipher is left
    /// as it was.
    pub fn decode(&mut self, src: &[u8]) -> (r: Result<Decoded, CodecError>)
        ensures
            frame_split(src@) is NeedMore ==> r == Ok::<Decoded, CodecError>(Decoded::NeedMore)
                && *final(self) == *old(self),
            frame_split(src@) is Invalid ==> r == Err::<Decoded, CodecError>(
                CodecError::InvalidLength,
            ) && *final(self) == *old(self),
            frame_split(src@) is Frame ==> (r is Ok ==> r->Ok_0 is Message),
            frame_split(src@) matches FrameSplit::Frame(off, len) ==> (r matches Ok(
                Decoded::Message(m, used),
            ) ==> used == off + len && m@.len() <= SIZE_LIMIT),
            frame_split(src@) matches FrameSplit::Frame(off, len) ==> (r matches Ok(
                Decoded::Message(m, used),
            ) ==> exists|q: Seq<u8>| q.len() + TAG_LEN == len && #[trigger] opened(q, m@)),
            frame_split(src@) matches FrameSplit::Frame(off, len) ==> (r matches Err(e) ==> e
                == CodecError::Crypto || (e == CodecError::InvalidRecord && exists|q: Seq<u8>|
                q.len() + TAG_LEN == len && #[trigger] rejected(q))),
    {
        match split_frame(src) {
            FrameSplit::NeedMore => Ok(Decoded::NeedMore),
            FrameSplit::Invalid => Err(CodecError::InvalidLength),
            FrameSplit::Frame(off, len) => {
                let ct = slice_subrange(src, off, off + len);
                let mut plain = zeroed(len);
                match transport_read(&mut self.snowfall, ct, &mut plain) {
                    Ok(n) => {
                        plain.truncate(n);
                        assert(plain@.len() + TAG_LEN == len);
                        match open_record(plain.as_slice()) {
                            Ok(m) => {
                                assert(opened(plain@, m@));
                                assert(exists|q: Seq<u8>| q.len() + TAG_LEN == len && #[trigger] opened(q, m@));
                                Ok(Decoded::Message(m, off + len))
                            },
                            Err(e) => {
                                assert(rejected(plain@));
                                assert(exists|q: Seq<u8>| q.len() + TAG_LEN == len && #[trigger] rejected(q));
                                Err(e)
                            },
                        }
                    },
                    Err(_) => Err(CodecError::Crypto),
                }
            },
        }
    }
}

/// The frames that `s` holds, in order: their ciphertexts, the bytes left
/// after the last whole frame, and whether an invalid length field stopped
/// the split there.
pub open spec fn frame_stream(s: Seq<u8>) -> (Seq<Seq<u8>>, Seq<u8>, bool)
    decreases s.len(),
{
    match frame_split(s) {
        FrameSplit::NeedMore => (Seq::empty(), s, false),
        FrameSplit::Invalid => (Seq::empty(), s, true),
        FrameSplit::Frame(off, len) => if 1 <= off + len <= s.len() {
            let t = frame_stream(s.skip(off + len));
            (seq![s.subrange(off as int, off + len)] + t.0, t.1, t.2)
        } else {
            (Seq::empty(), s, true)
        },
    }
}

/// Once a buffer holds a whole frame, or an invalid length field, more
/// bytes after it change nothing.
pub proof fn lemma_split_extend(a: Seq<u8>, b: Seq<u8>)
    requires
        !(frame_split(a) is NeedMore),
    ensures
        frame_split(a + b) == frame_split(a),
        frame_split(a) matches FrameSplit::Frame(off, len) ==> 1 <= len && off + len <= a.len(),
{
    lemma_decode_extend(a, b, 0);
}

/// A frame round trip: a frame around a ciphertext of 1 to 65534 bytes
/// splits back to that ciphertext, whatever follows it, and every proper
/// prefix of it asks for more bytes.
pub proof fn lemma_frame_round_trip(ct: Seq<u8>, rest: Seq<u8>)
    requires
        1 <= ct.len() < SIZE_LIMIT,
    ensures
        frame_split(frame_of(ct) + rest) == FrameSplit::Frame(
            uleb_encode(ct.len()).len() as usize,
            ct.len() as usize,
        ),
        frame_stream(frame_of(ct)) == (seq![ct], Seq::<u8>::empty(), false),
        forall|m: int|
            0 <= m < frame_of(ct).len() ==> #[trigger] frame_split(frame_of(ct).take(m))
                == FrameSplit::NeedMore,
{
    let enc = uleb_encode(ct.len());
    let f = frame_of(ct);
    lemma_encode_len_small(ct.len());
    assert(f + rest =~= enc + (ct + rest));
    lemma_decode_encode(ct.len(), ct + rest);
    lemma_decode_encode(ct.len(), ct);
    assert(f.subrange(enc.len() as int, f.len() as int) =~= ct);
    assert(f.skip(f.len() as int) =~= Seq::<u8>::empty());
    assert(frame_stream(Seq::<u8>::empty()) == (Seq::<Seq<u8>>::empty(), Seq::<u8>::empty(), false));
    assert(seq![ct] + Seq::<Seq<u8>>::empty() =~= seq![ct]);
    assert forall|m: int| 0 <= m < f.len() implies #[trigger] frame_split(f.take(m))
        == FrameSplit::NeedMore by {
        if m < enc.len() {
            assert(f.take(m) =~= enc.take(m));
            lemma_decode_prefix(ct.len(), m as nat, 0);
        } else {
            assert(f.take(m) =~= enc + ct.take(m - enc.len()));
            lemma_decode_encode(ct.len(), ct.take(m - enc.len()));
        }
    }
}

/// A length field of 65535 or more is invalid, whatever follows it.
pub proof fn lemma_oversize_rejected(len: u64, rest: Seq<u8>)
    requires
        len >= SIZE_LIMIT,
    ensures
        frame_split(uleb_encode(len as nat) + rest) == FrameSplit::Invalid,
{
    lemma_decode_encode(len as nat, rest);
}

/// Splitting is incremental: splitting `a + b` gives the frames of `a`,
/// then the frames of what `a` left over followed by `b`; after an invalid
/// length field nothing more is split. By induction, feeding the bytes in
/// chunks of any size gives the frames of the whole, in the same order.
pub proof fn lemma_frames_incremental(a: Seq<u8>, b: Seq<u8>)
    ensures
        frame_stream(a).2 ==> frame_stream(a + b) == (frame_stream(a).0, frame_stream(a).1 + b, true),
        !frame_stream(a).2 ==> frame_stream(a + b) == (
            frame_stream(a).0 + frame_stream(frame_stream(a).1 + b).0,
            frame_stream(frame_stream(a).1 + b).1,
            frame_stream(frame_stream(a).1 + b).2,
        ),
    decreases a.len(),
{
    let fa = frame_stream(a);
    match frame_split(a) {
        FrameSplit::NeedMore => {
            assert(Seq::<Seq<u8>>::empty() + frame_stream(a + b).0 =~= frame_stream(a + b).0);
        },
        FrameSplit::Invalid => {
            lemma_split_extend(a, b);
        },
        FrameSplit::Frame(off, len) => {
            lemma_split_extend(a, b);
            let n = off + len;
            assert((a + b).skip(n) =~= a.skip(n) + b);
            assert((a + b).subrange(off as int, n) =~= a.subrange(off as int, n));
            lemma_frames_incremental(a.skip(n), b);
            let t = frame_stream(a.skip(n));
            if !t.2 {
                let u = frame_stream(t.1 + b);
                assert(seq![a.subrange(off as int, n)] + t.0 + u.0 =~= seq![a.subrange(
                    off as int,
                    n,
                )] + (t.0 + u.0));
            }
        },
    }
}

} // verus!
