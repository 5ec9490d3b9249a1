//! The vertex rows of a PLY file: binary little-endian values or ASCII tokens,
//! one value per vertex property.
//!
//! A value is kept exact: integers as integers, binary floats as their bit
//! patterns, ASCII floats as their (validated) text.

use vstd::prelude::*;
use vstd::string::*;
use vstd::utf8::*;
use crate::error::{LoadErrorView, PlyLoadError};
use crate::header::{PropertyView, ScalarType, scalar_width};
use crate::number::{
    float_error_message, float_error_string, int_error_message, int_error_string, is_float_literal,
    parse_int, parse_int_span, span_is_float_literal,
};
use crate::text::{
    copy_span, decimal, lines, push_decimal, split_whitespace, string_of, trim,
};

verus! {

/// One property value of one vertex.
#[derive(Debug)]
pub enum RawScalar {
    /// An integer property (`char` .. `uint`).
    Int(i64),
    /// The bits of a binary `float`.
    F32Bits(u32),
    /// The bits of a binary `double`.
    F64Bits(u64),
    /// The text of an ASCII `float`, accepted by `str::parse::<f32>`.
    F32Text(Vec<char>),
    /// The text of an ASCII `double`, accepted by `str::parse::<f64>`.
    F64Text(Vec<char>),
}

pub enum ScalarValue {
    Int(int),
    F32Bits(u32),
    F64Bits(u64),
    F32Text(Seq<char>),
    F64Text(Seq<char>),
}

impl View for RawScalar {
    type V = ScalarValue;

    open spec fn view(&self) -> ScalarValue {
        match self {
            RawScalar::Int(n) => ScalarValue::Int(*n as int),
            RawScalar::F32Bits(b) => ScalarValue::F32Bits(*b),
            RawScalar::F64Bits(b) => ScalarValue::F64Bits(*b),
            RawScalar::F32Text(t) => ScalarValue::F32Text(t@),
            RawScalar::F64Text(t) => ScalarValue::F64Text(t@),
        }
    }
}

/// The unsigned little-endian value of `b`.
pub open spec fn le_unsigned(b: Seq<u8>) -> nat
    decreases b.len(),
{
    if b.len() == 0 {
        0
    } else {
        (b[0] + 256 * le_unsigned(b.drop_first())) as nat
    }
}

/// The value that `from_le_bytes` of the type gives for `b` (`b` holding as many
/// bytes as the type is wide).
pub open spec fn binary_value(t: ScalarType, b: Seq<u8>) -> ScalarValue {
    let u = le_unsigned(b);
    match t {
        ScalarType::I8 => ScalarValue::Int(if u >= 0x80 { u - 0x100 } else { u as int }),
        ScalarType::U8 => ScalarValue::Int(u as int),
        ScalarType::I16 => ScalarValue::Int(if u >= 0x8000 { u - 0x1_0000 } else { u as int }),
        ScalarType::U16 => ScalarValue::Int(u as int),
        ScalarType::I32 => ScalarValue::Int(
            if u >= 0x8000_0000 {
                u - 0x1_0000_0000
            } else {
                u as int
            },
        ),
        ScalarType::U32 => ScalarValue::Int(u as int),
        ScalarType::F32 => ScalarValue::F32Bits(u as u32),
        ScalarType::F64 => ScalarValue::F64Bits(u as u64),
    }
}

/// Bytes of one binary row.
pub open spec fn row_width(props: Seq<PropertyView>) -> nat
    decreases props.len(),
{
    if props.len() == 0 {
        0
    } else {
        scalar_width(props[0].scalar_type) + row_width(props.drop_first())
    }
}

/// The values of one binary row `b` (of `row_width(props)` bytes).
pub open spec fn binary_row(props: Seq<PropertyView>, b: Seq<u8>) -> Seq<ScalarValue>
    decreases props.len(),
{
    if props.len() == 0 {
        seq![]
    } else {
        let w = scalar_width(props[0].scalar_type);
        seq![binary_value(props[0].scalar_type, b.subrange(0, w as int))] + binary_row(
            props.drop_first(),
            b.subrange(w as int, b.len() as int),
        )
    }
}

/// `Ok(row)` followed by `rest`: the first error wins.
pub open spec fn prepend_row(row: Result<Seq<ScalarValue>, LoadErrorView>, rest: Result<
    Seq<Seq<ScalarValue>>,
    LoadErrorView,
>) -> Result<Seq<Seq<ScalarValue>>, LoadErrorView> {
    match row {
        Err(e) => Err(e),
        Ok(r) => match rest {
            Err(e) => Err(e),
            Ok(rs) => Ok(seq![r] + rs),
        },
    }
}

/// The message of a binary row that the data ends inside.
pub open spec fn truncated_row_message(r: nat) -> Seq<char> {
    "row "@ + decimal(r) + ": failed to fill whole buffer"@
}

/// Rows `r .. r + n` of binary data, `d` starting at row `r`.
pub open spec fn binary_rows(props: Seq<PropertyView>, d: Seq<u8>, n: nat, r: nat) -> Result<
    Seq<Seq<ScalarValue>>,
    LoadErrorView,
>
    decreases n,
{
    if n == 0 {
        Ok(seq![])
    } else {
        let w = row_width(props);
        if d.len() < w {
            Err(LoadErrorView::Data(truncated_row_message(r)))
        } else {
            prepend_row(
                Ok(binary_row(props, d.subrange(0, w as int))),
                binary_rows(props, d.subrange(w as int, d.len() as int), (n - 1) as nat, r + 1),
            )
        }
    }
}

/// The value of an ASCII token for a property of type `t`.
pub open spec fn ascii_value(tok: Seq<char>, t: ScalarType) -> Result<ScalarValue, LoadErrorView> {
    let (signed, lo, hi) = match t {
        ScalarType::I8 => (true, -0x80int, 0x7fint),
        ScalarType::U8 => (false, 0int, 0xffint),
        ScalarType::I16 => (true, -0x8000int, 0x7fffint),
        ScalarType::U16 => (false, 0int, 0xffffint),
        ScalarType::I32 => (true, -0x8000_0000int, 0x7fff_ffffint),
        _ => (false, 0int, 0xffff_ffffint),
    };
    match t {
        ScalarType::F32 | ScalarType::F64 => if is_float_literal(tok) {
            Ok(
                if t == ScalarType::F32 {
                    ScalarValue::F32Text(tok)
                } else {
                    ScalarValue::F64Text(tok)
                },
            )
        } else {
            Err(LoadErrorView::Data(float_error_message(tok)))
        },
        _ => match parse_int(tok, signed, lo, hi) {
            Ok(n) => Ok(ScalarValue::Int(n)),
            Err(k) => Err(LoadErrorView::Data(int_error_message(k))),
        },
    }
}

/// The values of the first `props.len()` tokens, each by its property's type.
pub open spec fn ascii_values(toks: Seq<Seq<char>>, props: Seq<PropertyView>) -> Result<
    Seq<ScalarValue>,
    LoadErrorView,
>
    decreases props.len(),
{
    if props.len() == 0 || toks.len() == 0 {
        Ok(seq![])
    } else {
        match ascii_value(toks[0], props[0].scalar_type) {
            Err(e) => Err(e),
            Ok(v) => match ascii_values(toks.drop_first(), props.drop_first()) {
                Err(e) => Err(e),
                Ok(vs) => Ok(seq![v] + vs),
            },
        }
    }
}

/// The message of an ASCII row with too few values.
pub open spec fn short_row_message(r: nat, got: nat, expected: nat) -> Seq<char> {
    "row "@ + decimal(r) + " has "@ + decimal(got) + " values, expected "@ + decimal(expected)
}

/// The values of ASCII row `r`, the line `line`.
pub open spec fn ascii_row(r: nat, line: Seq<char>, props: Seq<PropertyView>) -> Result<
    Seq<ScalarValue>,
    LoadErrorView,
> {
    let toks = split_whitespace(line);
    if toks.len() < props.len() {
        Err(LoadErrorView::Data(short_row_message(r, toks.len(), props.len())))
    } else {
        ascii_values(toks, props)
    }
}

/// The lines that hold something besides whitespace.
pub open spec fn nonblank(ls: Seq<Seq<char>>) -> Seq<Seq<char>>
    decreases ls.len(),
{
    if ls.len() == 0 {
        seq![]
    } else if trim(ls[0]).len() == 0 {
        nonblank(ls.drop_first())
    } else {
        seq![ls[0]] + nonblank(ls.drop_first())
    }
}

/// The first `n` elements of `s`, or all of `s` when it is shorter.
pub open spec fn at_most<T>(s: Seq<T>, n: nat) -> Seq<T> {
    s.subrange(0, if n < s.len() { n as int } else { s.len() as int })
}

/// Rows `r ..` of ASCII data, one per line of `ls`.
pub open spec fn ascii_row_list(ls: Seq<Seq<char>>, props: Seq<PropertyView>, r: nat) -> Result<
    Seq<Seq<ScalarValue>>,
    LoadErrorView,
>
    decreases ls.len(),
{
    if ls.len() == 0 {
        Ok(seq![])
    } else {
        prepend_row(ascii_row(r, ls[0], props), ascii_row_list(ls.drop_first(), props, r + 1))
    }
}

/// The rows of ASCII data `d`: its first `n` non-blank lines (fewer when it has fewer).
pub open spec fn ascii_rows(props: Seq<PropertyView>, d: Seq<u8>, n: nat) -> Result<
    Seq<Seq<ScalarValue>>,
    LoadErrorView,
> {
    if !valid_utf8(d) {
        Err(LoadErrorView::Data(utf8_error_message_of(d)))
    } else {
        ascii_row_list(at_most(nonblank(lines(decode_utf8(d))), n), props, 0)
    }
}

pub open spec fn utf8_error_message_of(d: Seq<u8>) -> Seq<char> {
    crate::unicode::utf8_error_message(d)
}

pub proof fn lemma_le_unsigned_bound(b: Seq<u8>)
    ensures
        le_unsigned(b) < pow256(b.len()),
    decreases b.len(),
{
    if b.len() > 0 {
        lemma_le_unsigned_bound(b.drop_first());
        assert(le_unsigned(b.drop_first()) + 1 <= pow256((b.len() - 1) as nat));
        assert(b[0] + 256 * le_unsigned(b.drop_first()) < 256 * pow256((b.len() - 1) as nat))
            by (nonlinear_arith)
            requires
                b[0] < 256,
                le_unsigned(b.drop_first()) + 1 <= pow256((b.len() - 1) as nat),
        ;
    }
}

/// `256` to the power `k`.
pub open spec fn pow256(k: nat) -> nat
    decreases k,
{
    if k == 0 {
        1
    } else {
        256 * pow256((k - 1) as nat)
    }
}

proof fn lemma_pow256_mono(a: nat, b: nat)
    requires
        a <= b,
    ensures
        pow256(a) <= pow256(b),
    decreases b,
{
    if a < b {
        lemma_pow256_mono(a, (b - 1) as nat);
    }
}

/// The unsigned little-endian value of `data[pos .. pos + w]`.
fn le_value(data: &[u8], pos: usize, w: usize) -> (u: u64)
    requires
        1 <= w <= 8,
        pos + w <= data@.len(),
    ensures
        u == le_unsigned(data@.subrange(pos as int, pos + w)),
{
    let mut acc: u64 = 0;
    let mut j = w;
    let dl = data.len();
    proof {
        reveal_with_fuel(pow256, 8);
    }
    while j > 0
        invariant
            j <= w <= 8,
            pos + w <= dl,
            dl == data@.len(),
            acc == le_unsigned(data@.subrange(pos + j, pos + w)),
            acc < pow256((w - j) as nat),
        decreases j,
    {
        j = j - 1;
        proof {
            lemma_pow256_mono((w - j - 1) as nat, 7);
            reveal_with_fuel(pow256, 8);
            assert(data@.subrange(pos + j, pos + w).drop_first() =~= data@.subrange(
                pos + j + 1,
                pos + w,
            ));
        }
        let b = data[pos + j];
        assert(acc * 256 + b < pow256((w - j) as nat)) by (nonlinear_arith)
            requires
                acc < pow256((w - j - 1) as nat),
                pow256((w - j) as nat) == 256 * pow256((w - j - 1) as nat),
                b < 256,
        ;
        acc = acc * 256 + b as u64;
    }
    acc
}

/// The error of a binary read that runs past the end of the data.
pub open spec fn short_read_message() -> Seq<char> {
    "failed to fill whole buffer"@
}

/// Reads the binary value of type `t` at `data[pos..]` (see `binary_value`), or
/// fails when fewer bytes than the type's width remain there.
pub fn read_binary_scalar(data: &[u8], pos: usize, t: ScalarType) -> (r: Result<RawScalar, String>)
    ensures
        pos + scalar_width(t) <= data@.len() ==> (r matches Ok(x) && x@ == binary_value(
            t,
            data@.subrange(pos as int, pos + scalar_width(t)),
        )),
        pos + scalar_width(t) > data@.len() ==> (r matches Err(m) && m@ == short_read_message()),
{
    let w = crate::header::scalar_byte_width(t);
    if pos > data.len() || data.len() - pos < w {
        return Err(string_of("failed to fill whole buffer"));
    }
    let u = le_value(data, pos, w);
    proof {
        lemma_le_unsigned_bound(data@.subrange(pos as int, pos + w));
        reveal_with_fuel(pow256, 9);
    }
    Ok(match t {
        ScalarType::I8 => RawScalar::Int(
            if u >= 0x80 {
                u as i64 - 0x100
            } else {
                u as i64
            },
        ),
        ScalarType::U8 => RawScalar::Int(u as i64),
        ScalarType::I16 => RawScalar::Int(
            if u >= 0x8000 {
                u as i64 - 0x1_0000
            } else {
                u as i64
            },
        ),
        ScalarType::U16 => RawScalar::Int(u as i64),
        ScalarType::I32 => RawScalar::Int(
            if u >= 0x8000_0000 {
                u as i64 - 0x1_0000_0000
            } else {
                u as i64
            },
        ),
        ScalarType::U32 => RawScalar::Int(u as i64),
        ScalarType::F32 => RawScalar::F32Bits(u as u32),
        ScalarType::F64 => RawScalar::F64Bits(u),
    })
}

/// Parses the ASCII token `v[start..end]` for a property of type `t` (see `ascii_value`).
pub fn parse_ascii_scalar(v: &Vec<char>, start: usize, end: usize, t: ScalarType) -> (r: Result<
    RawScalar,
    PlyLoadError,
>)
    requires
        start <= end <= v@.len(),
    ensures
        match r {
            Ok(x) => ascii_value(v@.subrange(start as int, end as int), t) == Ok::<
                ScalarValue,
                LoadErrorView,
            >(x@),
            Err(e) => ascii_value(v@.subrange(start as int, end as int), t) == Err::<
                ScalarValue,
                LoadErrorView,
            >(e@),
        },
{
    match t {
        ScalarType::F32 | ScalarType::F64 => {
            if span_is_float_literal(v, start, end) {
                let text = copy_span(v, start, end);
                if t == ScalarType::F32 {
                    Ok(RawScalar::F32Text(text))
                } else {
                    Ok(RawScalar::F64Text(text))
                }
            } else {
                Err(PlyLoadError::Data(float_error_string(v, start, end)))
            }
        },
        _ => {
            let (signed, lo, hi): (bool, i128, i128) = match t {
                ScalarType::I8 => (true, -0x80, 0x7f),
                ScalarType::U8 => (false, 0, 0xff),
                ScalarType::I16 => (true, -0x8000, 0x7fff),
                ScalarType::U16 => (false, 0, 0xffff),
                ScalarType::I32 => (true, -0x8000_0000, 0x7fff_ffff),
                _ => (false, 0, 0xffff_ffff),
            };
            match parse_int_span(v, start, end, signed, lo, hi) {
                Ok(n) => Ok(RawScalar::Int(n as i64)),
                Err(k) => Err(PlyLoadError::Data(int_error_string(k))),
            }
        },
    }
}

/// The message of a binary row that the data ends inside.
pub fn truncated_row_string(r: usize) -> (s: String)
    ensures
        s@ == truncated_row_message(r as nat),
{
    let mut s = string_of("row ");
    push_decimal(&mut s, r);
    s.append(": failed to fill whole buffer");
    s
}

/// The message of an ASCII row with too few values.
pub fn short_row_string(r: usize, got: usize, expected: usize) -> (s: String)
    ensures
        s@ == short_row_message(r as nat, got as nat, expected as nat),
{
    let mut s = string_of("row ");
    push_decimal(&mut s, r);
    s.append(" has ");
    push_decimal(&mut s, got);
    s.append(" values, expected ");
    push_decimal(&mut s, expected);
    s
}

} // verus!
