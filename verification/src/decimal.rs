//! Decimal numerals, as the handoff descriptor carries the key's number.

use crate::text::push_char;
use vstd::prelude::*;

verus! {

/// The character of a digit.
pub open spec fn digit_char(d: int) -> char {
    (48 + d) as u8 as char
}

/// Whether a character is a decimal digit.
pub open spec fn is_digit(c: char) -> bool {
    48 <= c as u32 <= 57
}

/// The digits of a natural number, without leading zeros.
pub open spec fn digits(n: nat) -> Seq<char>
    decreases n,
{
    if n < 10 {
        seq![digit_char(n as int)]
    } else {
        digits(n / 10).push(digit_char((n % 10) as int))
    }
}

/// The numeral of an integer: a minus sign for a negative one, then the
/// digits.
pub open spec fn decimal_text(n: int) -> Seq<char> {
    if n < 0 {
        seq!['-'] + digits((-n) as nat)
    } else {
        digits(n as nat)
    }
}

/// The number that a run of digits spells.
pub open spec fn digits_value(s: Seq<char>) -> nat
    decreases s.len(),
{
    if s.len() == 0 {
        0
    } else {
        (digits_value(s.drop_last()) * 10 + (s.last() as u32 - 48)) as nat
    }
}

/// Whether every character is a digit.
pub open spec fn all_digits(s: Seq<char>) -> bool {
    forall|i: int| 0 <= i < s.len() ==> is_digit(#[trigger] s[i])
}

/// What stands behind the sign of a numeral.
pub open spec fn unsigned_part(s: Seq<char>) -> Seq<char> {
    if s.len() > 0 && (s[0] == '-' || s[0] == '+') {
        s.skip(1)
    } else {
        s
    }
}

/// The 32-bit number that a numeral spells: an optional sign and at least
/// one digit; `None` for any other text and for a number out of range.
pub open spec fn parsed_decimal(s: Seq<char>) -> Option<int> {
    let body = unsigned_part(s);
    let value = if s.len() > 0 && s[0] == '-' {
        -(digits_value(body) as int)
    } else {
        digits_value(body) as int
    };
    if body.len() == 0 || !all_digits(body) || value < i32::MIN || value > i32::MAX {
        None
    } else {
        Some(value)
    }
}

/// The digits of a number are digits, and they spell the number.
pub proof fn lemma_digits(n: nat)
    ensures
        digits(n).len() > 0,
        all_digits(digits(n)),
        digits_value(digits(n)) == n,
    decreases n,
{
    if n < 10 {
        let s = digits(n);
        assert(s.drop_last() =~= Seq::<char>::empty());
        assert(digits_value(s.drop_last()) == 0);
        assert(s.last() == digit_char(n as int));
        assert(digit_char(n as int) as u32 == 48 + n);
    } else {
        lemma_digits(n / 10);
        let s = digits(n);
        assert(s.drop_last() =~= digits(n / 10));
        assert(s.last() == digit_char((n % 10) as int));
        assert(digit_char((n % 10) as int) as u32 == 48 + n % 10);
        assert forall|i: int| 0 <= i < s.len() implies is_digit(#[trigger] s[i]) by {
            if i < s.len() - 1 {
                assert(s[i] == digits(n / 10)[i]);
            }
        }
    }
}

/// Every 32-bit number is read back from its numeral.
pub proof fn lemma_decimal_roundtrip(n: i32)
    ensures
        parsed_decimal(decimal_text(n as int)) == Some(n as int),
{
    if n < 0 {
        let m = (-(n as int)) as nat;
        lemma_digits(m);
        let s = decimal_text(n as int);
        assert(s[0] == '-');
        assert(s.skip(1) =~= digits(m));
    } else {
        lemma_digits(n as nat);
        let s = digits(n as nat);
        assert(is_digit(s[0]));
        assert(s[0] != '-' && s[0] != '+');
    }
}

/// Appends the digits of `n`.
fn push_digits(out: &mut String, n: u32)
    ensures
        final(out)@ == old(out)@ + digits(n as nat),
    decreases n,
{
    if n >= 10 {
        push_digits(out, n / 10);
    }
    let d: u8 = (n % 10) as u8;
    push_char(out, (48 + d) as char);
    proof {
        if n >= 10 {
            assert(out@ =~= old(out)@ + digits(n as nat));
        } else {
            assert(out@ =~= old(out)@ + digits(n as nat));
        }
    }
}

/// The numeral of `n`.
pub fn format_i32(n: i32) -> (text: String)
    ensures
        text@ == decimal_text(n as int),
{
    let mut text = String::new();
    if n < 0 {
        push_char(&mut text, '-');
        let magnitude: u32 = (-(n as i64)) as u32;
        push_digits(&mut text, magnitude);
        proof {
            assert(text@ =~= seq!['-'] + digits((-(n as int)) as nat));
        }
    } else {
        push_digits(&mut text, n as u32);
        proof {
            assert(text@ =~= digits(n as nat));
        }
    }
    text
}

/// Adding a digit never makes the number smaller.
proof fn lemma_digits_value_push(s: Seq<char>, c: char)
    requires
        is_digit(c),
    ensures
        digits_value(s.push(c)) == digits_value(s) * 10 + (c as u32 - 48),
        digits_value(s.push(c)) >= digits_value(s),
{
    assert(s.push(c).drop_last() =~= s);
}

/// The 32-bit number that a numeral spells.
pub fn parse_i32(text: &str) -> (r: Option<i32>)
    ensures
        match r {
            Some(v) => parsed_decimal(text@) == Some(v as int),
            None => parsed_decimal(text@) is None,
        },
{
    let ghost s = text@;
    let ghost body = unsigned_part(s);
    let ghost signed = s.len() > 0 && (s[0] == '-' || s[0] == '+');
    let mut negative = false;
    let mut at_start = true;
    let mut seen_digit = false;
    let mut valid = true;
    // The value so far, or 2^31 + 1 once it has passed every 32-bit number.
    let mut value: u64 = 0;
    let limit: u64 = 0x8000_0001;
    let chars = text.chars();
    proof {
        assert(body.take(0) =~= Seq::<char>::empty());
    }
    for c in it: chars
        invariant
            it.seq() == s,
            s == text@,
            body == unsigned_part(s),
            signed == (s.len() > 0 && (s[0] == '-' || s[0] == '+')),
            limit == 0x8000_0001,
            negative == (it.index() > 0 && s[0] == '-'),
            at_start == (it.index() == 0),
            value <= limit,
            ({
                let from: int = if signed {
                    1
                } else {
                    0
                };
                let done = if it.index() >= from {
                    body.take(it.index() - from)
                } else {
                    Seq::<char>::empty()
                };
                &&& seen_digit == (done.len() > 0)
                &&& valid == all_digits(done)
                &&& valid ==> (if digits_value(done) < limit {
                    value == digits_value(done)
                } else {
                    value == limit
                })
            }),
    {
        let ghost k = it.index();
        let ghost from: int = if signed {
            1
        } else {
            0
        };
        let ghost done = if k >= from {
            body.take(k - from)
        } else {
            Seq::<char>::empty()
        };
        let code: u32 = c as u32;
        let first = at_start;
        at_start = false;
        if first && (c == '-' || c == '+') {
            negative = c == '-';
            proof {
                assert(c == s[0]);
                assert(signed);
                assert(body.take(0) =~= Seq::<char>::empty());
            }
        } else {
            proof {
                if k == 0 {
                    assert(c == s[0]);
                    assert(!signed);
                }
                assert(k >= from);
                assert(body[k - from] == c);
                assert(body.take(k - from + 1) =~= done.push(c));
            }
            seen_digit = true;
            if code < 48 || code > 57 {
                valid = false;
                proof {
                    assert(!is_digit(done.push(c)[done.len() as int]));
                }
            } else if valid {
                proof {
                    lemma_digits_value_push(done, c);
                    assert forall|i: int| 0 <= i < done.push(c).len() implies is_digit(
                        #[trigger] done.push(c)[i],
                    ) by {
                        if i < done.len() {
                            assert(done.push(c)[i] == done[i]);
                        }
                    }
                }
                let digit: u64 = (code - 48) as u64;
                value = value * 10 + digit;
                if value > limit {
                    value = limit;
                }
            } else {
                proof {
                    let w = choose|w: int| 0 <= w < done.len() && !is_digit(#[trigger] done[w]);
                    assert(!is_digit(done.push(c)[w]));
                }
            }
        }
    }
    proof {
        let from: int = if signed {
            1
        } else {
            0
        };
        if s.len() >= from {
            assert(body.take(s.len() - from) =~= body);
        } else {
            assert(body =~= Seq::<char>::empty());
        }
    }
    if !seen_digit || !valid {
        return None;
    }
    if negative {
        if value > 0x8000_0000 {
            None
        } else {
            let wide: i64 = -(value as i64);
            Some(wide as i32)
        }
    } else {
        if value > 0x7FFF_FFFF {
            None
        } else {
            Some(value as i32)
        }
    }
}

} // verus!
