//! Framing of the greeter protocol: big-endian integers and strings that
//! carry their length in bytes in front of their UTF-16 payload.

use crate::utf16::{
    decode_payload, decode_utf16_be, encode_payload, encode_utf16_be, lemma_payload_roundtrip,
    PayloadError,
};
use vstd::prelude::*;
use vstd::slice::slice_subrange;

verus! {

/// The length word that stands for a string without payload.
pub const NULL_MARKER: u32 = 0xFFFF_FFFF;

/// The length word that announces an eight-byte length.
pub const EXTENDED_MARKER: u32 = 0xFFFF_FFFE;

/// Why bytes received from a greeter are no message of the protocol.
#[derive(Debug, Clone, Copy, PartialEq, Eq, Structural)]
pub enum ProtocolError {
    /// A string announces an odd number of payload bytes.
    OddLength,
    /// A string's payload holds a surrogate out of place.
    LoneSurrogate,
    /// The first message of a connection is not `Connect`; its code.
    UnexpectedFirstMessage(u32),
    /// A message code that the protocol does not know.
    UnknownMessage(u32),
    /// The stream ended inside a message.
    Truncated,
}

/// The four bytes of a 32-bit number, most significant first.
pub open spec fn be32(v: u32) -> Seq<u8> {
    seq![
        (v / 0x100_0000) as u8,
        ((v / 0x1_0000) % 0x100) as u8,
        ((v / 0x100) % 0x100) as u8,
        (v % 0x100) as u8,
    ]
}

/// The eight bytes of a 64-bit number, most significant first.
pub open spec fn be64(v: u64) -> Seq<u8> {
    be32((v / 0x1_0000_0000) as u32) + be32((v % 0x1_0000_0000) as u32)
}

/// The number that the four bytes from `at` on spell, most significant first.
pub open spec fn from_be32(b: Seq<u8>, at: int) -> u32 {
    (b[at] * 0x100_0000 + b[at + 1] * 0x1_0000 + b[at + 2] * 0x100 + b[at + 3]) as u32
}

/// The number that the eight bytes from `at` on spell, most significant first.
pub open spec fn from_be64(b: Seq<u8>, at: int) -> u64 {
    (from_be32(b, at) * 0x1_0000_0000 + from_be32(b, at + 4)) as u64
}

/// What stands in front of a payload of `n` bytes: the length in four bytes
/// where it is below the extended marker, else that marker and the length in
/// eight bytes.
pub open spec fn length_prefix(n: u64) -> Seq<u8> {
    if n < EXTENDED_MARKER {
        be32(n as u32)
    } else {
        be32(EXTENDED_MARKER) + be64(n)
    }
}

/// A string as it travels: the null marker alone for the empty text, else
/// the length prefix and the payload.
pub open spec fn string_frame(text: Seq<char>) -> Seq<u8> {
    let payload = encode_payload(text);
    if payload.len() == 0 {
        be32(NULL_MARKER)
    } else {
        length_prefix(payload.len() as u64) + payload
    }
}

/// Reading a string from the front of `buf`.
///
/// `Ok(Some((text, used)))`: the first `used` bytes are a whole string frame
/// that carries `text`. `Ok(None)`: the bytes so far are the beginning of a
/// frame and more are needed. `Err`: no frame begins like this.
#[verifier::opaque]
pub open spec fn parse_string(buf: Seq<u8>) -> Result<Option<(Seq<char>, int)>, ProtocolError> {
    if buf.len() < 4 {
        Ok(None)
    } else if from_be32(buf, 0) == NULL_MARKER {
        Ok(Some((Seq::empty(), 4)))
    } else if from_be32(buf, 0) == EXTENDED_MARKER {
        if buf.len() < 12 {
            Ok(None)
        } else {
            parse_payload(buf, 12, from_be64(buf, 4) as int)
        }
    } else {
        parse_payload(buf, 4, from_be32(buf, 0) as int)
    }
}

/// Reading the `len` payload bytes that follow a length prefix of `head`
/// bytes. An odd length is refused before the payload is looked at.
pub open spec fn parse_payload(buf: Seq<u8>, head: int, len: int) -> Result<
    Option<(Seq<char>, int)>,
    ProtocolError,
> {
    if len % 2 != 0 {
        Err(ProtocolError::OddLength)
    } else if buf.len() < head + len {
        Ok(None)
    } else {
        match decode_payload(buf.subrange(head, head + len)) {
            Some(text) => Ok(Some((text, head + len))),
            None => Err(ProtocolError::LoneSurrogate),
        }
    }
}

/// What a result of `recv_string` says, with the text by its characters.
pub open spec fn string_outcome(r: Result<Option<(String, usize)>, ProtocolError>) -> Result<
    Option<(Seq<char>, int)>,
    ProtocolError,
> {
    match r {
        Ok(Some((text, used))) => Ok(Some((text@, used as int))),
        Ok(None) => Ok(None),
        Err(e) => Err(e),
    }
}

/// The four bytes of a number, weighted by their place, add up to it.
pub proof fn lemma_be32_digits(v: u32)
    ensures
        be32(v).len() == 4,
        be32(v)[0] * 0x100_0000 + be32(v)[1] * 0x1_0000 + be32(v)[2] * 0x100 + be32(v)[3] == v,
{
    assert((v / 0x100_0000) * 0x100_0000 + ((v / 0x1_0000) % 0x100) * 0x1_0000 + ((v / 0x100)
        % 0x100) * 0x100 + v % 0x100 == v) by (bit_vector);
    assert(v / 0x100_0000 < 0x100);
}

/// Four bytes spell the number they were made from, wherever they stand.
pub proof fn lemma_be32_roundtrip(b: Seq<u8>, at: int, v: u32)
    requires
        0 <= at,
        at + 4 <= b.len(),
        b.subrange(at, at + 4) == be32(v),
    ensures
        from_be32(b, at) == v,
{
    lemma_be32_digits(v);
    let w = b.subrange(at, at + 4);
    assert(w[0] == b[at] && w[1] == b[at + 1] && w[2] == b[at + 2] && w[3] == b[at + 3]);
}

/// Eight bytes spell the number they were made from, wherever they stand.
pub proof fn lemma_be64_roundtrip(b: Seq<u8>, at: int, v: u64)
    requires
        0 <= at,
        at + 8 <= b.len(),
        b.subrange(at, at + 8) == be64(v),
    ensures
        from_be64(b, at) == v,
{
    let high = (v / 0x1_0000_0000) as u32;
    let low = (v % 0x1_0000_0000) as u32;
    let w = b.subrange(at, at + 8);
    assert(b.subrange(at, at + 4) =~= w.subrange(0, 4));
    assert(b.subrange(at + 4, at + 8) =~= w.subrange(4, 8));
    assert(w.subrange(0, 4) =~= be32(high));
    assert(w.subrange(4, 8) =~= be32(low));
    lemma_be32_roundtrip(b, at, high);
    lemma_be32_roundtrip(b, at + 4, low);
}

/// Payload bytes behind their length prefix are read back as the text that
/// they carry, whatever follows them.
pub proof fn lemma_prefixed_payload(payload: Seq<u8>, text: Seq<char>, tail: Seq<u8>)
    requires
        0 < payload.len() <= u64::MAX,
        decode_payload(payload) == Some(text),
    ensures
        parse_string(length_prefix(payload.len() as u64) + payload + tail) == Ok::<
            Option<(Seq<char>, int)>,
            ProtocolError,
        >(Some((text, (length_prefix(payload.len() as u64).len() + payload.len()) as int))),
{
    let n = payload.len() as u64;
    let buf = length_prefix(n) + payload + tail;
    reveal(parse_string);
    if n < EXTENDED_MARKER {
        assert(buf.subrange(0, 4) =~= be32(n as u32));
        lemma_be32_roundtrip(buf, 0, n as u32);
        assert(buf.subrange(4, 4 + n) =~= payload);
    } else {
        assert(be64(n).len() == 8);
        assert(buf.subrange(0, 4) =~= be32(EXTENDED_MARKER));
        lemma_be32_roundtrip(buf, 0, EXTENDED_MARKER);
        assert(buf.subrange(4, 12) =~= be64(n));
        lemma_be64_roundtrip(buf, 4, n);
        assert(buf.subrange(12, 12 + n) =~= payload);
    }
}

/// A string frame, whatever follows it, is read back as the text it was made
/// from, and reading stops at the frame's end.
pub proof fn lemma_string_frame_roundtrip(text: Seq<char>, tail: Seq<u8>)
    requires
        encode_payload(text).len() <= u64::MAX,
    ensures
        parse_string(string_frame(text) + tail) == Ok::<Option<(Seq<char>, int)>, ProtocolError>(
            Some((text, string_frame(text).len() as int)),
        ),
{
    let payload = encode_payload(text);
    lemma_payload_roundtrip(text);
    if payload.len() == 0 {
        reveal(parse_string);
        let buf = be32(NULL_MARKER) + tail;
        assert(buf.subrange(0, 4) =~= be32(NULL_MARKER));
        lemma_be32_roundtrip(buf, 0, NULL_MARKER);
        crate::utf16::lemma_empty_payload(text);
    } else {
        lemma_prefixed_payload(payload, text, tail);
    }
}

/// The length frame of a string: in front of a payload below the extended
/// marker stand exactly four bytes, the null marker for the empty payload
/// and the length for any other; in front of a longer payload stand the
/// extended marker and the length in eight bytes.
pub proof fn lemma_length_frame(text: Seq<char>)
    requires
        encode_payload(text).len() <= u64::MAX,
    ensures
        ({
            let payload = encode_payload(text);
            let frame = string_frame(text);
            &&& payload.len() < EXTENDED_MARKER ==> {
                &&& frame.len() == 4 + payload.len()
                &&& frame.skip(4) == payload
                &&& frame.take(4) == (if payload.len() == 0 {
                    be32(NULL_MARKER)
                } else {
                    be32(payload.len() as u32)
                })
            }
            &&& payload.len() >= EXTENDED_MARKER ==> {
                &&& frame.len() == 12 + payload.len()
                &&& frame.take(4) == be32(EXTENDED_MARKER)
                &&& frame.subrange(4, 12) == be64(payload.len() as u64)
                &&& frame.skip(12) == payload
            }
        }),
{
    let payload = encode_payload(text);
    let frame = string_frame(text);
    if payload.len() == 0 {
        assert(frame.skip(4) =~= payload);
        assert(frame.take(4) =~= be32(NULL_MARKER));
    } else if payload.len() < EXTENDED_MARKER {
        assert(frame.skip(4) =~= payload);
        assert(frame.take(4) =~= be32(payload.len() as u32));
    } else {
        assert(frame.take(4) =~= be32(EXTENDED_MARKER));
        assert(frame.subrange(4, 12) =~= be64(payload.len() as u64));
        assert(frame.skip(12) =~= payload);
    }
}

/// Appends the four bytes of `v`, most significant first.
pub fn put_u32(out: &mut Vec<u8>, v: u32)
    ensures
        final(out)@ == old(out)@ + be32(v),
{
    out.push((v / 0x100_0000) as u8);
    out.push(((v / 0x1_0000) % 0x100) as u8);
    out.push(((v / 0x100) % 0x100) as u8);
    out.push((v % 0x100) as u8);
    proof {
        assert(out@ =~= old(out)@ + be32(v));
    }
}

/// Appends the eight bytes of `v`, most significant first.
pub fn put_u64(out: &mut Vec<u8>, v: u64)
    ensures
        final(out)@ == old(out)@ + be64(v),
{
    put_u32(out, (v / 0x1_0000_0000) as u32);
    put_u32(out, (v % 0x1_0000_0000) as u32);
    proof {
        assert(out@ =~= old(out)@ + be64(v));
    }
}

/// The number in the four bytes of `buf` from `at` on.
pub fn get_u32(buf: &[u8], at: usize) -> (v: u32)
    requires
        at + 4 <= buf@.len(),
    ensures
        v == from_be32(buf@, at as int),
{
    proof {
        assert(buf@.len() == buf.len());
    }
    let b0: u32 = buf[at] as u32;
    let b1: u32 = buf[at + 1] as u32;
    let b2: u32 = buf[at + 2] as u32;
    let b3: u32 = buf[at + 3] as u32;
    b0 * 0x100_0000 + b1 * 0x1_0000 + b2 * 0x100 + b3
}

/// The number in the eight bytes of `buf` from `at` on.
pub fn get_u64(buf: &[u8], at: usize) -> (v: u64)
    requires
        at + 8 <= buf@.len(),
    ensures
        v == from_be64(buf@, at as int),
{
    proof {
        assert(buf@.len() == buf.len());
    }
    let high: u64 = get_u32(buf, at) as u64;
    let low: u64 = get_u32(buf, at + 4) as u64;
    high * 0x1_0000_0000 + low
}

/// Reads a message code from the front of `buf`: `None` where fewer than
/// four bytes are there.
pub fn recv_msg(buf: &[u8]) -> (code: Option<u32>)
    ensures
        code == (if buf@.len() < 4 {
            None
        } else {
            Some(from_be32(buf@, 0))
        }),
{
    proof {
        assert(buf@.len() == buf.len());
    }
    if buf.len() < 4 {
        None
    } else {
        Some(get_u32(buf, 0))
    }
}

/// Appends the length prefix of a payload of `n` bytes.
///
/// Below the extended marker the prefix is the length in exactly four bytes;
/// from the marker on it is twelve bytes, the marker and the length in eight.
pub fn put_length(out: &mut Vec<u8>, n: u64)
    ensures
        final(out)@ == old(out)@ + length_prefix(n),
        n < EXTENDED_MARKER ==> length_prefix(n) == be32(n as u32) && length_prefix(n).len() == 4,
        n >= EXTENDED_MARKER ==> length_prefix(n) == be32(EXTENDED_MARKER) + be64(n)
            && length_prefix(n).len() == 12,
{
    if n < EXTENDED_MARKER as u64 {
        put_u32(out, n as u32);
    } else {
        put_u32(out, EXTENDED_MARKER);
        put_u64(out, n);
        proof {
            assert(out@ =~= old(out)@ + (be32(EXTENDED_MARKER) + be64(n)));
        }
    }
}

/// Appends `val` as a string frame.
pub fn send_string(out: &mut Vec<u8>, val: &str)
    ensures
        final(out)@ == old(out)@ + string_frame(val@),
{
    let mut payload: Vec<u8> = Vec::new();
    encode_utf16_be(val, &mut payload);
    proof {
        assert(payload@ =~= encode_payload(val@));
    }
    if payload.len() == 0 {
        put_u32(out, NULL_MARKER);
    } else {
        put_length(out, payload.len() as u64);
        out.append(&mut payload);
        proof {
            let p = encode_payload(val@);
            assert(out@ =~= old(out)@ + (length_prefix(p.len() as u64) + p));
        }
    }
}

/// Reads a string frame from the front of `buf[start..]`.
///
/// Returns the text and the number of bytes the frame took, `Ok(None)` where
/// the frame is not all there yet, and the error where the bytes are no
/// frame.
pub fn recv_string(buf: &[u8], start: usize) -> (r: Result<Option<(String, usize)>, ProtocolError>)
    requires
        start <= buf@.len(),
    ensures
        string_outcome(r) == parse_string(buf@.skip(start as int)),
        r matches Ok(Some((_, used))) ==> start + used <= buf@.len(),
{
    proof {
        reveal(parse_string);
        assert(buf@.len() == buf.len());
    }
    let ghost rest = buf@.skip(start as int);
    let avail: usize = buf.len() - start;
    if avail < 4 {
        return Ok(None);
    }
    let word = get_u32(buf, start);
    proof {
        assert(from_be32(buf@, start as int) == from_be32(rest, 0));
    }
    if word == NULL_MARKER {
        return Ok(Some((String::new(), 4)));
    }
    let head: usize;
    let len: u64;
    if word == EXTENDED_MARKER {
        if avail < 12 {
            return Ok(None);
        }
        len = get_u64(buf, start + 4);
        head = 12;
        proof {
            assert(from_be32(buf@, start + 4) == from_be32(rest, 4));
            assert(from_be32(buf@, start + 8) == from_be32(rest, 8));
        }
    } else {
        len = word as u64;
        head = 4;
    }
    if len % 2 != 0 {
        return Err(ProtocolError::OddLength);
    }
    if len > (avail - head) as u64 {
        return Ok(None);
    }
    let from: usize = start + head;
    let to: usize = from + len as usize;
    let payload = slice_subrange(buf, from, to);
    proof {
        assert(payload@ =~= rest.subrange(head as int, head + len));
    }
    match decode_utf16_be(payload) {
        Ok(text) => Ok(Some((text, head + len as usize))),
        Err(PayloadError::OddLength) => Err(ProtocolError::OddLength),
        Err(PayloadError::LoneSurrogate) => Err(ProtocolError::LoneSurrogate),
    }
}

} // verus!
