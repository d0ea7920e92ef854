//! UTF-16 as the greeter protocol carries it: code units, big-endian on the
//! wire, surrogate pairs for scalars above the basic plane.

use crate::text::{allocatable, char_from_u32, push_char, string_with_capacity};
use vstd::prelude::*;

verus! {

/// A code unit from the leading half of a surrogate pair.
pub open spec fn is_high_surrogate(u: u16) -> bool {
    0xD800 <= u <= 0xDBFF
}

/// A code unit from the trailing half of a surrogate pair.
pub open spec fn is_low_surrogate(u: u16) -> bool {
    0xDC00 <= u <= 0xDFFF
}

/// The scalar that a surrogate pair stands for.
pub open spec fn pair_value(high: u16, low: u16) -> int {
    0x10000 + (high - 0xD800) * 0x400 + (low - 0xDC00)
}

/// The code units of one character: itself inside the basic plane, a
/// surrogate pair above it.
pub open spec fn char_units(c: char) -> Seq<u16> {
    let v = c as u32;
    if v < 0x10000 {
        seq![v as u16]
    } else {
        seq![
            (0xD800 + (v - 0x10000) / 0x400) as u16,
            (0xDC00 + (v - 0x10000) % 0x400) as u16,
        ]
    }
}

/// The code units of a text, character after character.
pub open spec fn encode_units(s: Seq<char>) -> Seq<u16>
    decreases s.len(),
{
    if s.len() == 0 {
        Seq::empty()
    } else {
        char_units(s[0]) + encode_units(s.drop_first())
    }
}

/// The text that a run of code units spells, or `None` where a surrogate
/// stands alone or out of order.
pub open spec fn decode_units(u: Seq<u16>) -> Option<Seq<char>>
    decreases u.len(),
{
    if u.len() == 0 {
        Some(Seq::empty())
    } else if !is_high_surrogate(u[0]) && !is_low_surrogate(u[0]) {
        match decode_units(u.skip(1)) {
            Some(rest) => Some(seq![u[0] as char] + rest),
            None => None,
        }
    } else if is_high_surrogate(u[0]) && u.len() >= 2 && is_low_surrogate(u[1]) {
        match decode_units(u.skip(2)) {
            Some(rest) => Some(seq![pair_value(u[0], u[1]) as char] + rest),
            None => None,
        }
    } else {
        None
    }
}

/// The two bytes of every code unit, most significant first.
pub open spec fn units_to_bytes(u: Seq<u16>) -> Seq<u8> {
    Seq::new(
        2 * u.len(),
        |i: int|
            if i % 2 == 0 {
                (u[i / 2] / 256) as u8
            } else {
                (u[i / 2] % 256) as u8
            },
    )
}

/// The code units that an even number of bytes holds, most significant byte
/// first.
pub open spec fn bytes_to_units(b: Seq<u8>) -> Seq<u16> {
    Seq::new(b.len() / 2, |i: int| (b[2 * i] * 256 + b[2 * i + 1]) as u16)
}

/// The bytes that carry a text on the wire.
pub open spec fn encode_payload(s: Seq<char>) -> Seq<u8> {
    units_to_bytes(encode_units(s))
}

/// The text that payload bytes carry: `None` for an odd number of bytes or a
/// surrogate out of place.
pub open spec fn decode_payload(b: Seq<u8>) -> Option<Seq<char>> {
    if b.len() % 2 != 0 {
        None
    } else {
        decode_units(bytes_to_units(b))
    }
}

/// Splitting a unit into bytes and joining them again gives the unit back.
pub proof fn lemma_units_bytes_roundtrip(u: Seq<u16>)
    ensures
        units_to_bytes(u).len() == 2 * u.len(),
        bytes_to_units(units_to_bytes(u)) == u,
{
    let b = units_to_bytes(u);
    assert(b.len() / 2 == u.len());
    assert forall|i: int| 0 <= i < u.len() implies bytes_to_units(b)[i] == u[i] by {
        assert((2 * i) % 2 == 0);
        assert((2 * i + 1) % 2 == 1);
        assert((2 * i) / 2 == i);
        assert((2 * i + 1) / 2 == i);
        let x = u[i];
        assert((x / 256) * 256 + x % 256 == x);
    }
    assert(bytes_to_units(b) =~= u);
}

/// Decoding what `encode_units` produced gives the text back.
pub proof fn lemma_units_roundtrip(s: Seq<char>)
    ensures
        decode_units(encode_units(s)) == Some(s),
    decreases s.len(),
{
    if s.len() == 0 {
        assert(encode_units(s) =~= Seq::<u16>::empty());
    } else {
        let c = s[0];
        let v = c as u32;
        let rest = s.drop_first();
        lemma_units_roundtrip(rest);
        vstd::utf8::char_is_scalar(c);
        vstd::utf8::char_u32_cast(c, v);
        let head = char_units(c);
        let all = encode_units(s);
        assert(all == head + encode_units(rest));
        if v < 0x10000 {
            assert(all[0] == v as u16);
            assert(all.skip(1) =~= encode_units(rest));
            assert(all[0] as u32 == v);
            assert((all[0] as char) == c);
            assert(seq![c] + rest =~= s);
        } else {
            let off = (v - 0x10000) as int;
            assert(0 <= off < 0x100000);
            assert(0 <= off / 0x400 < 0x400);
            assert(all[0] == (0xD800 + off / 0x400) as u16);
            assert(all[1] == (0xDC00 + off % 0x400) as u16);
            assert(all.skip(2) =~= encode_units(rest));
            assert(pair_value(all[0], all[1]) == v) by {
                assert((off / 0x400) * 0x400 + off % 0x400 == off);
            }
            assert((pair_value(all[0], all[1]) as char) == c);
            assert(seq![c] + rest =~= s);
        }
    }
}

/// Only the empty text has an empty payload.
pub proof fn lemma_empty_payload(s: Seq<char>)
    requires
        encode_payload(s).len() == 0,
    ensures
        s == Seq::<char>::empty(),
{
    if s.len() > 0 {
        vstd::utf8::char_is_scalar(s[0]);
        assert(char_units(s[0]).len() >= 1);
        assert(encode_units(s).len() >= 1);
    }
    assert(s =~= Seq::<char>::empty());
}

/// Every text survives the trip through its payload bytes.
pub proof fn lemma_payload_roundtrip(s: Seq<char>)
    ensures
        encode_payload(s).len() % 2 == 0,
        decode_payload(encode_payload(s)) == Some(s),
{
    lemma_units_bytes_roundtrip(encode_units(s));
    lemma_units_roundtrip(s);
}

/// Unfolds `encode_units` at a split point: the units of a text are those of
/// its first `i` characters followed by those of the rest.
pub proof fn lemma_encode_units_split(s: Seq<char>, i: int)
    requires
        0 <= i <= s.len(),
    ensures
        encode_units(s) == encode_units(s.take(i)) + encode_units(s.skip(i)),
    decreases i,
{
    if i == 0 {
        assert(s.take(0) =~= Seq::<char>::empty());
        assert(s.skip(0) =~= s);
        assert(encode_units(s.take(0)) =~= Seq::<u16>::empty());
        assert(encode_units(s) =~= encode_units(s.take(i)) + encode_units(s.skip(i)));
    } else {
        let rest = s.drop_first();
        lemma_encode_units_split(rest, i - 1);
        assert(rest.take(i - 1) =~= s.take(i).drop_first());
        assert(rest.skip(i - 1) =~= s.skip(i));
        assert(s.take(i)[0] == s[0]);
        assert(encode_units(s) =~= encode_units(s.take(i)) + encode_units(s.skip(i)));
    }
}

/// Appends to `out` the payload bytes of `text`: its UTF-16 code units, each
/// most significant byte first.
pub fn encode_utf16_be(text: &str, out: &mut Vec<u8>)
    ensures
        final(out)@ == old(out)@ + encode_payload(text@),
{
    let ghost before = out@;
    let chars = text.chars();
    proof {
        assert(units_to_bytes(Seq::<u16>::empty()) =~= Seq::<u8>::empty());
        assert(text@.take(0) =~= Seq::<char>::empty());
    }
    for c in it: chars
        invariant
            it.seq() == text@,
            out@ == before + units_to_bytes(encode_units(text@.take(it.index()))),
    {
        let ghost k = it.index();
        let v: u32 = c as u32;
        proof {
            lemma_encode_units_split(text@.take(k + 1), k);
            assert(text@.take(k + 1).take(k) =~= text@.take(k));
            assert(text@.take(k + 1).skip(k) =~= seq![c]);
            assert(seq![c].drop_first() =~= Seq::<char>::empty());
            assert(encode_units(seq![c].drop_first()) =~= Seq::<u16>::empty());
            assert(encode_units(seq![c]) =~= char_units(c));
            vstd::utf8::char_is_scalar(c);
        }
        let ghost prev = encode_units(text@.take(k));
        if v < 0x10000 {
            let unit: u16 = v as u16;
            out.push((unit / 256) as u8);
            out.push((unit % 256) as u8);
            proof {
                lemma_units_bytes_push(prev, unit);
            }
        } else {
            let off: u32 = v - 0x10000;
            let high: u16 = (0xD800 + off / 0x400) as u16;
            let low: u16 = (0xDC00 + off % 0x400) as u16;
            out.push((high / 256) as u8);
            out.push((high % 256) as u8);
            out.push((low / 256) as u8);
            out.push((low % 256) as u8);
            proof {
                lemma_units_bytes_push(prev, high);
                lemma_units_bytes_push(prev.push(high), low);
                assert(prev + seq![high, low] =~= prev.push(high).push(low));
            }
        }
    }
    proof {
        assert(text@.take(text@.len() as int) =~= text@);
    }
}

/// The bytes of a run of units with one more unit at the end.
pub proof fn lemma_units_bytes_push(u: Seq<u16>, x: u16)
    ensures
        units_to_bytes(u.push(x)) == units_to_bytes(u).push((x / 256) as u8).push((x % 256) as u8),
        units_to_bytes(u + seq![x]) == units_to_bytes(u.push(x)),
{
    let a = units_to_bytes(u.push(x));
    let b = units_to_bytes(u).push((x / 256) as u8).push((x % 256) as u8);
    assert(a.len() == b.len());
    assert forall|i: int| 0 <= i < a.len() implies a[i] == b[i] by {
        if i < 2 * u.len() {
            assert(i / 2 < u.len());
        } else {
            assert(i / 2 == u.len());
        }
    }
    assert(a =~= b);
    assert(u + seq![x] =~= u.push(x));
}

/// Why payload bytes spell no text.
#[derive(Debug, Clone, Copy, PartialEq, Eq, Structural)]
pub enum PayloadError {
    /// The number of bytes is odd, so they are no whole code units.
    OddLength,
    /// A surrogate code unit stands alone or in the wrong order.
    LoneSurrogate,
}

/// One step of `decode_units`, seen from position `k` of a longer run.
pub proof fn lemma_decode_units_step(u: Seq<u16>, k: int)
    requires
        0 <= k < u.len(),
    ensures
        !is_high_surrogate(u[k]) && !is_low_surrogate(u[k]) ==> decode_units(u.skip(k)) == (
        match decode_units(u.skip(k + 1)) {
            Some(rest) => Some(seq![u[k] as char] + rest),
            None => None,
        }),
        is_high_surrogate(u[k]) && k + 1 < u.len() && is_low_surrogate(u[k + 1])
            ==> decode_units(u.skip(k)) == (match decode_units(u.skip(k + 2)) {
            Some(rest) => Some(seq![pair_value(u[k], u[k + 1]) as char] + rest),
            None => None,
        }),
        is_low_surrogate(u[k]) ==> decode_units(u.skip(k)) is None,
        is_high_surrogate(u[k]) && !(k + 1 < u.len() && is_low_surrogate(u[k + 1]))
            ==> decode_units(u.skip(k)) is None,
{
    let t = u.skip(k);
    assert(t[0] == u[k]);
    assert(t.skip(1) =~= u.skip(k + 1));
    if k + 1 < u.len() {
        assert(t[1] == u[k + 1]);
        assert(t.skip(2) =~= u.skip(k + 2));
    }
}

/// The code unit that starts at byte `2 * k`.
fn unit_at(bytes: &[u8], k: usize) -> (unit: u16)
    requires
        2 * k + 1 < bytes@.len(),
    ensures
        unit == bytes_to_units(bytes@)[k as int],
{
    proof {
        assert(bytes@.len() == bytes.len());
    }
    let high: u16 = bytes[2 * k] as u16;
    let low: u16 = bytes[2 * k + 1] as u16;
    high * 256 + low
}

/// The number of bytes that a character takes in UTF-8.
pub open spec fn utf8_width(c: char) -> nat {
    let v = c as u32;
    if v < 0x80 {
        1
    } else if v < 0x800 {
        2
    } else if v < 0x1_0000 {
        3
    } else {
        4
    }
}

/// The number of bytes that a text takes in UTF-8.
pub open spec fn utf8_len(s: Seq<char>) -> nat
    decreases s.len(),
{
    if s.len() == 0 {
        0
    } else {
        utf8_width(s[0]) + utf8_len(s.drop_first())
    }
}

/// The UTF-8 length of a text with one more character in front.
proof fn lemma_utf8_len_front(c: char, rest: Seq<char>)
    ensures
        utf8_len(seq![c] + rest) == utf8_width(c) + utf8_len(rest),
{
    let s = seq![c] + rest;
    assert(s[0] == c);
    assert(s.drop_first() =~= rest);
}

/// Whether the code units in `bytes` spell a text, and if so, how many
/// bytes the text takes in UTF-8, as far as that number can be held.
/// Writes nothing.
fn text_length(bytes: &[u8]) -> (length: Option<usize>)
    requires
        bytes@.len() % 2 == 0,
    ensures
        length is Some == decode_units(bytes_to_units(bytes@)) is Some,
        length matches Some(n) ==> n == utf8_len(decode_units(bytes_to_units(bytes@))->0) || (n
            == usize::MAX && n <= utf8_len(decode_units(bytes_to_units(bytes@))->0)),
{
    proof {
        assert(bytes@.len() == bytes.len());
    }
    let n: usize = bytes.len() / 2;
    let ghost units = bytes_to_units(bytes@);
    let mut k: usize = 0;
    let mut total: u128 = 0;
    proof {
        assert(units.skip(0) =~= units);
    }
    while k < n
        invariant
            k <= n,
            n == units.len(),
            2 * n == bytes@.len(),
            units == bytes_to_units(bytes@),
            total <= 3 * k,
            decode_units(units) is Some <==> decode_units(units.skip(k as int)) is Some,
            decode_units(units) is Some ==> utf8_len(decode_units(units)->0) == total + utf8_len(
                decode_units(units.skip(k as int))->0,
            ),
        decreases n - k,
    {
        let unit = unit_at(bytes, k);
        proof {
            lemma_decode_units_step(units, k as int);
        }
        if unit < 0xD800 || unit > 0xDFFF {
            proof {
                let c = unit as char;
                assert(c as u32 == unit);
                if let Some(rest) = decode_units(units.skip(k + 1)) {
                    lemma_utf8_len_front(c, rest);
                }
            }
            total = total + (if unit < 0x80 {
                1u128
            } else if unit < 0x800 {
                2u128
            } else {
                3u128
            });
            k = k + 1;
        } else if unit <= 0xDBFF && k + 1 < n {
            let next = unit_at(bytes, k + 1);
            if next >= 0xDC00 && next <= 0xDFFF {
                proof {
                    let v = pair_value(unit, next);
                    let c = v as char;
                    assert(0x1_0000 <= v <= 0x10_FFFF);
                    assert(c as u32 == v);
                    if let Some(rest) = decode_units(units.skip(k + 2)) {
                        lemma_utf8_len_front(c, rest);
                    }
                }
                total = total + 4;
                k = k + 2;
            } else {
                return None;
            }
        } else {
            return None;
        }
    }
    proof {
        assert(units.skip(k as int) =~= Seq::<u16>::empty());
    }
    if total <= usize::MAX as u128 {
        Some(total as usize)
    } else {
        Some(usize::MAX)
    }
}

/// The text that payload bytes carry.
///
/// The bytes are checked as a whole before a single character is produced,
/// so a payload that is refused leaves no partial text behind.
pub fn decode_utf16_be(bytes: &[u8]) -> (r: Result<String, PayloadError>)
    ensures
        match r {
            Ok(text) => decode_payload(bytes@) == Some(text@),
            Err(PayloadError::OddLength) => bytes@.len() % 2 != 0,
            Err(PayloadError::LoneSurrogate) => bytes@.len() % 2 == 0 && decode_payload(bytes@)
                is None,
        },
{
    if bytes.len() % 2 != 0 {
        return Err(PayloadError::OddLength);
    }
    // The text is given its final size at once, so that it never moves
    // while it grows and no copy of it is left behind.
    let capacity: usize = match text_length(bytes) {
        Some(length) => length,
        None => {
            return Err(PayloadError::LoneSurrogate);
        },
    };
    let n: usize = bytes.len() / 2;
    let ghost units = bytes_to_units(bytes@);
    let mut text = string_with_capacity(allocatable(capacity));
    let mut k: usize = 0;
    proof {
        assert(units.skip(0) =~= units);
        assert(text@ + decode_units(units)->0 =~= decode_units(units)->0);
    }
    while k < n
        invariant
            k <= n,
            n == units.len(),
            2 * n == bytes@.len(),
            units == bytes_to_units(bytes@),
            decode_units(units.skip(k as int)) is Some,
            decode_units(units) == Some(text@ + decode_units(units.skip(k as int))->0),
        decreases n - k,
    {
        let unit = unit_at(bytes, k);
        proof {
            lemma_decode_units_step(units, k as int);
        }
        let ghost rest_before = decode_units(units.skip(k as int))->0;
        let mut scalar: u32 = unit as u32;
        let mut width: usize = 1;
        if unit >= 0xD800 && unit <= 0xDFFF {
            let next = unit_at(bytes, k + 1);
            scalar = 0x10000 + (unit as u32 - 0xD800) * 0x400 + (next as u32 - 0xDC00);
            width = 2;
        }
        match char_from_u32(scalar) {
            Some(c) => {
                push_char(&mut text, c);
                proof {
                    let rest_after = decode_units(units.skip(k + width))->0;
                    assert(rest_before == seq![c] + rest_after);
                    assert(text@ + rest_after =~= (text@.drop_last() + rest_before));
                }
            },
            None => {
                return Err(PayloadError::LoneSurrogate);
            },
        }
        k = k + width;
    }
    proof {
        assert(units.skip(k as int) =~= Seq::<u16>::empty());
        assert(text@ + Seq::<char>::empty() =~= text@);
    }
    Ok(text)
}

} // verus!
