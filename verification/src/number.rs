//! Decimal number tokens: the integers that `str::parse` accepts for the integer
//! types, with the error it reports otherwise, and the syntax that `str::parse`
//! accepts for `f32` and `f64`.

use vstd::prelude::*;
use vstd::string::*;

verus! {

/// Why an integer token was refused (`std::num::IntErrorKind`).
#[derive(PartialEq, Eq, Structural, Clone, Copy, Debug)]
pub enum IntErrorKind {
    Empty,
    InvalidDigit,
    PosOverflow,
    NegOverflow,
}

pub open spec fn is_digit(c: char) -> bool {
    48 <= (c as u32) <= 57
}

pub open spec fn digit_value(c: char) -> int {
    (c as u32) - 48
}

/// Reads the decimal digits `ds` onto `acc`, from the left, refusing a non-digit
/// and leaving `[lo, hi]` at the first digit where either happens.
pub open spec fn parse_digits(ds: Seq<char>, acc: int, negative: bool, lo: int, hi: int) -> Result<
    int,
    IntErrorKind,
>
    decreases ds.len(),
{
    if ds.len() == 0 {
        Ok(acc)
    } else if !is_digit(ds[0]) {
        Err(IntErrorKind::InvalidDigit)
    } else {
        let v = if negative {
            acc * 10 - digit_value(ds[0])
        } else {
            acc * 10 + digit_value(ds[0])
        };
        if v > hi {
            Err(IntErrorKind::PosOverflow)
        } else if v < lo {
            Err(IntErrorKind::NegOverflow)
        } else {
            parse_digits(ds.drop_first(), v, negative, lo, hi)
        }
    }
}

/// `str::parse` for an integer type with range `[lo, hi]`: an optional `+`, or `-`
/// for a signed type, then decimal digits.
pub open spec fn parse_int(s: Seq<char>, signed: bool, lo: int, hi: int) -> Result<
    int,
    IntErrorKind,
> {
    if s.len() == 0 {
        Err(IntErrorKind::Empty)
    } else if (s[0] == '+' || s[0] == '-') && s.len() == 1 {
        Err(IntErrorKind::InvalidDigit)
    } else if s[0] == '+' {
        parse_digits(s.drop_first(), 0, false, lo, hi)
    } else if s[0] == '-' && signed {
        parse_digits(s.drop_first(), 0, true, lo, hi)
    } else {
        parse_digits(s, 0, false, lo, hi)
    }
}

/// `str::parse::<usize>`.
pub open spec fn parse_usize(s: Seq<char>) -> Result<int, IntErrorKind> {
    parse_int(s, false, 0, usize::MAX as int)
}

/// The `Display` text of a refused integer.
pub open spec fn int_error_message(k: IntErrorKind) -> Seq<char> {
    match k {
        IntErrorKind::Empty => "cannot parse integer from empty string"@,
        IntErrorKind::InvalidDigit => "invalid digit found in string"@,
        IntErrorKind::PosOverflow => "number too large to fit in target type"@,
        IntErrorKind::NegOverflow => "number too small to fit in target type"@,
    }
}

/// `c` with ASCII upper case mapped to lower case.
pub open spec fn ascii_lower(c: char) -> char {
    if 65 <= (c as u32) <= 90 {
        ((c as u32) + 32) as char
    } else {
        c
    }
}

/// `s` equals `w` (lower case) when `s` is lowercased.
pub open spec fn eq_ignore_case(s: Seq<char>, w: Seq<char>) -> bool {
    s.len() == w.len() && forall|i: int| 0 <= i < s.len() ==> ascii_lower(s[i]) == w[i]
}

/// Length of the run of decimal digits at the start of `s`.
pub open spec fn digit_run(s: Seq<char>) -> nat
    decreases s.len(),
{
    if s.len() == 0 || !is_digit(s[0]) {
        0
    } else {
        1 + digit_run(s.drop_first())
    }
}

/// `Exp ::= 'e' Sign? Digit+` (case-insensitive), the whole of `s`.
pub open spec fn is_exponent(s: Seq<char>) -> bool {
    s.len() >= 2 && ascii_lower(s[0]) == 'e' && {
        let r = if s[1] == '+' || s[1] == '-' {
            s.subrange(2, s.len() as int)
        } else {
            s.subrange(1, s.len() as int)
        };
        r.len() >= 1 && digit_run(r) == r.len()
    }
}

/// `Number ::= ( Digit+ | Digit+ '.' Digit* | Digit* '.' Digit+ ) Exp?`, the whole of `s`.
pub open spec fn is_decimal_number(s: Seq<char>) -> bool {
    let a: int = digit_run(s) as int;
    let mantissa_len: int = if a < s.len() && s[a] == '.' {
        a + 1 + digit_run(s.subrange(a + 1, s.len() as int)) as int
    } else {
        a
    };
    let digits = if a < s.len() && s[a] == '.' {
        mantissa_len - 1
    } else {
        mantissa_len
    };
    &&& digits >= 1
    &&& mantissa_len <= s.len()
    &&& (mantissa_len == s.len() || is_exponent(s.subrange(mantissa_len, s.len() as int)))
}

/// The syntax that `str::parse::<f32>` and `str::parse::<f64>` accept:
/// `Sign? ( 'inf' | 'infinity' | 'nan' | Number )`, case-insensitive.
pub open spec fn is_float_literal(s: Seq<char>) -> bool {
    let t = if s.len() > 0 && (s[0] == '+' || s[0] == '-') {
        s.drop_first()
    } else {
        s
    };
    ||| eq_ignore_case(t, "inf"@)
    ||| eq_ignore_case(t, "infinity"@)
    ||| eq_ignore_case(t, "nan"@)
    ||| is_decimal_number(t)
}

/// The `Display` text of a refused float token.
pub open spec fn float_error_message(s: Seq<char>) -> Seq<char> {
    if s.len() == 0 {
        "cannot parse float from empty string"@
    } else {
        "invalid float literal"@
    }
}

pub proof fn lemma_digit_run(s: Seq<char>)
    ensures
        digit_run(s) <= s.len(),
        forall|j: int| 0 <= j < digit_run(s) ==> is_digit(s[j]),
        digit_run(s) < s.len() ==> !is_digit(s[digit_run(s) as int]),
    decreases s.len(),
{
    if s.len() > 0 && is_digit(s[0]) {
        lemma_digit_run(s.drop_first());
        assert forall|j: int| 0 <= j < digit_run(s) implies is_digit(s[j]) by {
            if j > 0 {
                assert(s[j] == s.drop_first()[j - 1]);
            }
        }
    }
}

fn char_is_digit(c: char) -> (b: bool)
    ensures
        b == is_digit(c),
{
    let u = c as u32;
    48 <= u && u <= 57
}

fn lower(c: char) -> (r: char)
    ensures
        r == ascii_lower(c),
{
    let u = c as u32;
    if 65 <= u && u <= 90 {
        let l = u + 32;
        let r = char::from_u32(l);
        proof {
            assert(vstd::utf8::is_scalar(l));
        }
        let r = r.unwrap();
        proof {
            vstd::utf8::char_u32_cast(r, l);
        }
        r
    } else {
        c
    }
}

/// Parses `v[start..end]` as an integer of range `[lo, hi]` (see `parse_int`).
pub fn parse_int_span(v: &Vec<char>, start: usize, end: usize, signed: bool, lo: i128, hi: i128) -> (r:
    Result<i128, IntErrorKind>)
    requires
        start <= end <= v@.len(),
        -0x1_0000_0000_0000_0000 < lo <= 0 <= hi < 0x1_0000_0000_0000_0000,
    ensures
        match r {
            Ok(n) => parse_int(v@.subrange(start as int, end as int), signed, lo as int, hi as int)
                == Ok::<int, IntErrorKind>(n as int),
            Err(k) => parse_int(v@.subrange(start as int, end as int), signed, lo as int, hi as int)
                == Err::<int, IntErrorKind>(k),
        },
        r matches Ok(n) ==> lo <= n <= hi,
{
    let ghost s = v@.subrange(start as int, end as int);
    if start == end {
        return Err(IntErrorKind::Empty);
    }
    let c0 = v[start];
    if (c0 == '+' || c0 == '-') && end - start == 1 {
        return Err(IntErrorKind::InvalidDigit);
    }
    let mut negative = false;
    let mut i = start;
    if c0 == '+' {
        i = start + 1;
    } else if c0 == '-' && signed {
        i = start + 1;
        negative = true;
    }
    proof {
        assert(s.drop_first() =~= v@.subrange(start + 1, end as int));
        assert(parse_int(s, signed, lo as int, hi as int) == parse_digits(
            v@.subrange(i as int, end as int),
            0,
            negative,
            lo as int,
            hi as int,
        ));
    }
    let mut acc: i128 = 0;
    while i < end
        invariant
            start <= i <= end <= v@.len(),
            lo <= acc <= hi,
            s == v@.subrange(start as int, end as int),
            -0x1_0000_0000_0000_0000 < lo <= 0 <= hi < 0x1_0000_0000_0000_0000,
            parse_int(s, signed, lo as int, hi as int) == parse_digits(
                v@.subrange(i as int, end as int),
                acc as int,
                negative,
                lo as int,
                hi as int,
            ),
        decreases end - i,
    {
        let c = v[i];
        let ghost rest = v@.subrange(i as int, end as int);
        assert(rest[0] == c);
        if !char_is_digit(c) {
            return Err(IntErrorKind::InvalidDigit);
        }
        let d = (c as u32 - 48) as i128;
        let next = if negative {
            acc * 10 - d
        } else {
            acc * 10 + d
        };
        if next > hi {
            return Err(IntErrorKind::PosOverflow);
        }
        if next < lo {
            return Err(IntErrorKind::NegOverflow);
        }
        assert(rest.drop_first() =~= v@.subrange(i + 1, end as int));
        acc = next;
        i = i + 1;
    }
    Ok(acc)
}

/// Parses `v[start..end]` as a `usize` (see `parse_usize`).
pub fn parse_usize_span(v: &Vec<char>, start: usize, end: usize) -> (r: Result<usize, IntErrorKind>)
    requires
        start <= end <= v@.len(),
    ensures
        match r {
            Ok(n) => parse_usize(v@.subrange(start as int, end as int)) == Ok::<int, IntErrorKind>(
                n as int,
            ),
            Err(k) => parse_usize(v@.subrange(start as int, end as int)) == Err::<int, IntErrorKind>(
                k,
            ),
        },
{
    let r = parse_int_span(v, start, end, false, 0, usize::MAX as i128);
    match r {
        Ok(n) => Ok(n as usize),
        Err(k) => Err(k),
    }
}

/// The message of a refused integer.
pub fn int_error_string(k: IntErrorKind) -> (s: String)
    ensures
        s@ == int_error_message(k),
{
    match k {
        IntErrorKind::Empty => String::from_str("cannot parse integer from empty string"),
        IntErrorKind::InvalidDigit => String::from_str("invalid digit found in string"),
        IntErrorKind::PosOverflow => String::from_str("number too large to fit in target type"),
        IntErrorKind::NegOverflow => String::from_str("number too small to fit in target type"),
    }
}

/// The message of a refused float token `v[start..end]`.
pub fn float_error_string(v: &Vec<char>, start: usize, end: usize) -> (s: String)
    requires
        start <= end <= v@.len(),
    ensures
        s@ == float_error_message(v@.subrange(start as int, end as int)),
{
    if start == end {
        String::from_str("cannot parse float from empty string")
    } else {
        String::from_str("invalid float literal")
    }
}

/// Index just past the run of digits that starts at `i`.
fn digits_end(v: &Vec<char>, i: usize, end: usize) -> (j: usize)
    requires
        i <= end <= v@.len(),
    ensures
        i <= j <= end,
        j - i == digit_run(v@.subrange(i as int, end as int)),
{
    let mut j = i;
    while j < end && char_is_digit(v[j])
        invariant
            i <= j <= end <= v@.len(),
            digit_run(v@.subrange(i as int, end as int)) == (j - i) + digit_run(
                v@.subrange(j as int, end as int),
            ),
        decreases end - j,
    {
        assert(v@.subrange(j as int, end as int).drop_first() =~= v@.subrange(
            j + 1,
            end as int,
        ));
        j = j + 1;
    }
    j
}

/// Whether `v[start..end]` equals the lower-case word `w` when lowercased.
fn span_eq_ignore_case(v: &Vec<char>, start: usize, end: usize, w: &str) -> (b: bool)
    requires
        start <= end <= v@.len(),
    ensures
        b == eq_ignore_case(v@.subrange(start as int, end as int), w@),
{
    let n = w.unicode_len();
    if n != end - start {
        return false;
    }
    let mut i: usize = 0;
    while i < n
        invariant
            n == end - start,
            n == w@.len(),
            start <= end <= v@.len(),
            i <= n,
            forall|j: int| 0 <= j < i ==> ascii_lower(v@[start + j]) == w@[j],
        decreases n - i,
    {
        if lower(v[start + i]) != w.get_char(i) {
            assert(ascii_lower(v@.subrange(start as int, end as int)[i as int]) != w@[i as int]);
            return false;
        }
        i = i + 1;
    }
    true
}

/// Whether `v[start..end]` is an exponent part.
fn span_is_exponent(v: &Vec<char>, start: usize, end: usize) -> (b: bool)
    requires
        start <= end <= v@.len(),
    ensures
        b == is_exponent(v@.subrange(start as int, end as int)),
{
    let ghost s = v@.subrange(start as int, end as int);
    if end - start < 2 || lower(v[start]) != 'e' {
        return false;
    }
    let mut i = start + 1;
    if v[i] == '+' || v[i] == '-' {
        i = i + 1;
    }
    assert(s.subrange((i - start) as int, s.len() as int) =~= v@.subrange(i as int, end as int));
    let j = digits_end(v, i, end);
    i < end && j == end
}

/// Whether `v[start..end]` is a decimal number.
fn span_is_decimal_number(v: &Vec<char>, start: usize, end: usize) -> (b: bool)
    requires
        start <= end <= v@.len(),
    ensures
        b == is_decimal_number(v@.subrange(start as int, end as int)),
{
    let ghost s = v@.subrange(start as int, end as int);
    let a_end = digits_end(v, start, end);
    let mut m_end = a_end;
    let mut digits = a_end - start;
    if a_end < end && v[a_end] == '.' {
        let b_end = digits_end(v, a_end + 1, end);
        assert(s.subrange((a_end - start) + 1, s.len() as int) =~= v@.subrange(
            a_end + 1,
            end as int,
        ));
        digits = digits + (b_end - (a_end + 1));
        m_end = b_end;
    }
    if digits < 1 {
        return false;
    }
    if m_end == end {
        return true;
    }
    assert(s.subrange((m_end - start) as int, s.len() as int) =~= v@.subrange(
        m_end as int,
        end as int,
    ));
    span_is_exponent(v, m_end, end)
}

/// Whether `v[start..end]` is accepted by `str::parse::<f32>` (see `is_float_literal`).
pub fn span_is_float_literal(v: &Vec<char>, start: usize, end: usize) -> (b: bool)
    requires
        start <= end <= v@.len(),
    ensures
        b == is_float_literal(v@.subrange(start as int, end as int)),
{
    let ghost s = v@.subrange(start as int, end as int);
    let mut i = start;
    if start < end && (v[start] == '+' || v[start] == '-') {
        i = start + 1;
        assert(s.drop_first() =~= v@.subrange(i as int, end as int));
    }
    span_eq_ignore_case(v, i, end, "inf") || span_eq_ignore_case(v, i, end, "infinity")
        || span_eq_ignore_case(v, i, end, "nan") || span_is_decimal_number(v, i, end)
}

} // verus!
