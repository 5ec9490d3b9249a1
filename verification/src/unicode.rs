//! UTF-8 decoding of a byte range into characters, with the error position and
//! length that `std::str::from_utf8` reports on invalid input.

use vstd::prelude::*;
use vstd::string::*;
use vstd::utf8::*;
use crate::text::{decimal, push_decimal};

verus! {

/// `char::from_u32`: `Some` exactly for Unicode scalar values, holding that value.
pub assume_specification[ char::from_u32 ](i: u32) -> (r: Option<char>)
    ensures
        r is Some <==> is_scalar(i),
        r matches Some(c) ==> c as u32 == i,
;

/// Number of bytes at the start of `b` that decode scalar by scalar
/// (`Utf8Error::valid_up_to`).
pub open spec fn valid_up_to(b: Seq<u8>) -> nat
    decreases b.len(),
{
    if b.len() == 0 || !valid_first_scalar(b) {
        0
    } else {
        (length_of_first_scalar(b) + valid_up_to(pop_first_scalar(b))) as nat
    }
}

/// Second byte accepted after a three-byte leading byte.
pub open spec fn second_ok_width_3(b0: u8, b1: u8) -> bool {
    ||| b0 == 0xe0 && 0xa0 <= b1 <= 0xbf
    ||| 0xe1 <= b0 <= 0xec && 0x80 <= b1 <= 0xbf
    ||| b0 == 0xed && 0x80 <= b1 <= 0x9f
    ||| 0xee <= b0 <= 0xef && 0x80 <= b1 <= 0xbf
}

/// Second byte accepted after a four-byte leading byte.
pub open spec fn second_ok_width_4(b0: u8, b1: u8) -> bool {
    ||| b0 == 0xf0 && 0x90 <= b1 <= 0xbf
    ||| 0xf1 <= b0 <= 0xf3 && 0x80 <= b1 <= 0xbf
    ||| b0 == 0xf4 && 0x80 <= b1 <= 0x8f
}

/// For bytes `s` that do not start with a valid scalar: `None` when `s` ends inside a
/// sequence that could still be completed, otherwise `Some` of the length of the
/// invalid sequence at its start (`Utf8Error::error_len`).
pub open spec fn utf8_error_len(s: Seq<u8>) -> Option<nat> {
    let b0 = s[0];
    if 0xc2 <= b0 <= 0xdf {
        if s.len() < 2 {
            None
        } else {
            Some(1)
        }
    } else if 0xe0 <= b0 <= 0xef {
        if s.len() < 2 {
            None
        } else if !second_ok_width_3(b0, s[1]) {
            Some(1)
        } else if s.len() < 3 {
            None
        } else {
            Some(2)
        }
    } else if 0xf0 <= b0 <= 0xf4 {
        if s.len() < 2 {
            None
        } else if !second_ok_width_4(b0, s[1]) {
            Some(1)
        } else if s.len() < 3 {
            None
        } else if !is_continuation_byte(s[2]) {
            Some(2)
        } else if s.len() < 4 {
            None
        } else {
            Some(3)
        }
    } else {
        Some(1)
    }
}

/// The text that `Utf8Error`'s `Display` writes for invalid bytes `b`.
pub open spec fn utf8_error_message(b: Seq<u8>) -> Seq<char> {
    let up = valid_up_to(b);
    match utf8_error_len(b.subrange(up as int, b.len() as int)) {
        Some(n) => "invalid utf-8 sequence of "@ + decimal(n) + " bytes from index "@ + decimal(up),
        None => "incomplete utf-8 byte sequence from index "@ + decimal(up),
    }
}

/// Where and how decoding failed.
pub struct Utf8Failure {
    pub valid_up_to: usize,
    pub error_len: Option<usize>,
}

/// The first scalar of `bytes[i..end]`, when it starts with a valid one: its codepoint
/// and byte length.
fn first_scalar(bytes: &[u8], i: usize, end: usize) -> (r: Option<(u32, usize)>)
    requires
        i < end <= bytes@.len(),
    ensures
        ({
            let s = bytes@.subrange(i as int, end as int);
            &&& r is Some <==> valid_first_scalar(s)
            &&& r matches Some((cp, n)) ==> cp == decode_first_scalar(s) && n
                == length_of_first_scalar(s) && is_scalar(cp) && 1 <= n <= s.len()
        }),
{
    let ghost s = bytes@.subrange(i as int, end as int);
    let b0 = bytes[i];
    let mut cp: u32 = 0;
    let mut n: usize = 0;
    if b0 <= 0x7f {
        cp = (b0 & 0x7f) as u32;
        n = 1;
    } else if 0xc0 <= b0 && b0 <= 0xdf {
        if end - i > 1 && 0x80 <= bytes[i + 1] && bytes[i + 1] <= 0xbf {
            let b1 = bytes[i + 1];
            cp = (((b0 & 0x1f) as u32) << 6) | ((b1 & 0x3f) as u32);
            assert((((b0 & 0x1f) as u32) << 6) | ((b1 & 0x3f) as u32) <= 0x7ff) by (bit_vector);
            n = 2;
        }
    } else if 0xe0 <= b0 && b0 <= 0xef {
        if end - i > 2 && 0x80 <= bytes[i + 1] && bytes[i + 1] <= 0xbf && 0x80 <= bytes[i + 2]
            && bytes[i + 2] <= 0xbf {
            let b1 = bytes[i + 1];
            let b2 = bytes[i + 2];
            cp = (((b0 & 0x0f) as u32) << 12) | (((b1 & 0x3f) as u32) << 6) | ((b2 & 0x3f) as u32);
            assert((((b0 & 0x0f) as u32) << 12) | (((b1 & 0x3f) as u32) << 6) | ((b2 & 0x3f) as u32)
                <= 0xffff) by (bit_vector);
            n = 3;
        }
    } else if 0xf0 <= b0 && b0 <= 0xf7 {
        if end - i > 3 && 0x80 <= bytes[i + 1] && bytes[i + 1] <= 0xbf && 0x80 <= bytes[i + 2]
            && bytes[i + 2] <= 0xbf && 0x80 <= bytes[i + 3] && bytes[i + 3] <= 0xbf {
            cp = (((b0 & 0x07) as u32) << 18) | (((bytes[i + 1] & 0x3f) as u32) << 12) | (((bytes[i
                + 2] & 0x3f) as u32) << 6) | ((bytes[i + 3] & 0x3f) as u32);
            n = 4;
        }
    }
    if n == 0 {
        return None;
    }
    assert(valid_leading_and_continuation_bytes_first_codepoint(s));
    assert(cp == decode_first_codepoint(s));
    assert(n == length_of_first_codepoint(s));
    let ok = (n != 2 || 0x80 <= cp) && (n != 3 || 0x800 <= cp) && (n != 4 || (0x10000 <= cp
        && cp <= 0x10ffff)) && !(0xd800 <= cp && cp <= 0xdfff);
    if ok {
        Some((cp, n))
    } else {
        None
    }
}

/// The length of the invalid sequence at `bytes[i..end]` (see `utf8_error_len`).
fn error_len(bytes: &[u8], i: usize, end: usize) -> (r: Option<usize>)
    requires
        i < end <= bytes@.len(),
    ensures
        r matches Some(n) ==> utf8_error_len(bytes@.subrange(i as int, end as int)) == Some(
            n as nat,
        ),
        r is None ==> utf8_error_len(bytes@.subrange(i as int, end as int)) is None,
{
    let b0 = bytes[i];
    let len = end - i;
    if 0xc2 <= b0 && b0 <= 0xdf {
        if len < 2 {
            None
        } else {
            Some(1)
        }
    } else if 0xe0 <= b0 && b0 <= 0xef {
        if len < 2 {
            None
        } else {
            let b1 = bytes[i + 1];
            let ok = (b0 == 0xe0 && 0xa0 <= b1 && b1 <= 0xbf) || (0xe1 <= b0 && b0 <= 0xec && 0x80
                <= b1 && b1 <= 0xbf) || (b0 == 0xed && 0x80 <= b1 && b1 <= 0x9f) || (0xee <= b0
                && b0 <= 0xef && 0x80 <= b1 && b1 <= 0xbf);
            if !ok {
                Some(1)
            } else if len < 3 {
                None
            } else {
                Some(2)
            }
        }
    } else if 0xf0 <= b0 && b0 <= 0xf4 {
        if len < 2 {
            None
        } else {
            let b1 = bytes[i + 1];
            let ok = (b0 == 0xf0 && 0x90 <= b1 && b1 <= 0xbf) || (0xf1 <= b0 && b0 <= 0xf3 && 0x80
                <= b1 && b1 <= 0xbf) || (b0 == 0xf4 && 0x80 <= b1 && b1 <= 0x8f);
            if !ok {
                Some(1)
            } else if len < 3 {
                None
            } else if !(0x80 <= bytes[i + 2] && bytes[i + 2] <= 0xbf) {
                Some(2)
            } else if len < 4 {
                None
            } else {
                Some(3)
            }
        }
    } else {
        Some(1)
    }
}

/// Decodes `bytes[start..end]` as UTF-8, the way `std::str::from_utf8` accepts or
/// rejects it.
pub fn decode_utf8_range(bytes: &[u8], start: usize, end: usize) -> (r: Result<
    Vec<char>,
    Utf8Failure,
>)
    requires
        start <= end <= bytes@.len(),
    ensures
        ({
            let b = bytes@.subrange(start as int, end as int);
            match r {
                Ok(cs) => valid_utf8(b) && cs@ == decode_utf8(b),
                Err(f) => {
                    &&& !valid_utf8(b)
                    &&& f.valid_up_to == valid_up_to(b)
                    &&& valid_up_to(b) < b.len()
                    &&& f.error_len matches Some(n) ==> utf8_error_len(
                        b.subrange(valid_up_to(b) as int, b.len() as int),
                    ) == Some(n as nat)
                    &&& f.error_len is None ==> utf8_error_len(
                        b.subrange(valid_up_to(b) as int, b.len() as int),
                    ) is None
                },
            }
        }),
{
    let ghost b = bytes@.subrange(start as int, end as int);
    let mut out: Vec<char> = Vec::new();
    let mut i = start;
    while i < end
        invariant
            start <= i <= end <= bytes@.len(),
            b == bytes@.subrange(start as int, end as int),
            valid_utf8(b) == valid_utf8(bytes@.subrange(i as int, end as int)),
            valid_utf8(b) ==> decode_utf8(b) == out@ + decode_utf8(
                bytes@.subrange(i as int, end as int),
            ),
            valid_up_to(b) == (i - start) + valid_up_to(bytes@.subrange(i as int, end as int)),
        decreases end - i,
    {
        let ghost s = bytes@.subrange(i as int, end as int);
        match first_scalar(bytes, i, end) {
            Some((cp, n)) => {
                let c = char::from_u32(cp);
                let c = c.unwrap();
                proof {
                    char_u32_cast(c, cp);
                    assert(pop_first_scalar(s) =~= bytes@.subrange(i + n, end as int));
                }
                out.push(c);
                proof {
                    if valid_utf8(b) {
                        assert(decode_utf8(s) == seq![c] + decode_utf8(pop_first_scalar(s)));
                        assert(out@ + decode_utf8(bytes@.subrange(i + n, end as int)) =~= (out@.drop_last() + decode_utf8(s)));
                    }
                }
                i = i + n;
            },
            None => {
                let el = error_len(bytes, i, end);
                proof {
                    assert(b.subrange(valid_up_to(b) as int, b.len() as int) =~= s);
                }
                return Err(Utf8Failure { valid_up_to: i - start, error_len: el });
            },
        }
    }
    assert(bytes@.subrange(end as int, end as int) =~= seq![]);
    assert(out@ + seq![] =~= out@);
    Ok(out)
}

/// The `Display` text of a UTF-8 failure.
pub fn utf8_failure_message(f: &Utf8Failure) -> (s: String)
    ensures
        s@ == match f.error_len {
            Some(n) => "invalid utf-8 sequence of "@ + decimal(n as nat) + " bytes from index "@
                + decimal(f.valid_up_to as nat),
            None => "incomplete utf-8 byte sequence from index "@ + decimal(
                f.valid_up_to as nat,
            ),
        },
{
    match f.error_len {
        Some(n) => {
            let mut s = String::from_str("invalid utf-8 sequence of ");
            push_decimal(&mut s, n);
            s.append(" bytes from index ");
            push_decimal(&mut s, f.valid_up_to);
            s
        },
        None => {
            let mut s = String::from_str("incomplete utf-8 byte sequence from index ");
            push_decimal(&mut s, f.valid_up_to);
            s
        },
    }
}

} // verus!
