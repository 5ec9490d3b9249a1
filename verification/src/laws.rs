//! Properties of PLY decoding that hold for every input.

use vstd::prelude::*;
use crate::decode::{ColorSource, SplatInputs, inputs_match, sh_values, slot_value, sh_block_len, spec_vertex_rows};
use crate::error::LoadErrorView;
use crate::gaussian::{SetShape, SetValidationError, shape_check};
use crate::header::{
    HeaderView, PlyFormat, PropertyView, ScanState, end_header_crlf, end_header_lf, find_from,
    header_end, initial_scan, occurs_at, scan_line, scan_lines, spec_parse_header,
};
use crate::number::{IntErrorKind, ascii_lower, digit_run, is_decimal_number, is_exponent, is_float_literal, digit_value, int_error_message, is_digit, parse_digits, parse_int, parse_usize};
use crate::header::ScalarType;
use crate::rows::ascii_value;
use crate::text::{decimal, digit_char};
use crate::text::{is_whitespace, lines, split_whitespace, starts_with, strip_cr, token_len, trim, trim_end, trim_start};
use vstd::utf8::{decode_utf8, valid_utf8};
use crate::layout::{PropertyRole, role_of, extra_coeffs, has_sh, last_index, roles_of, sh_source, sh_sources};
use crate::rows::{
    ScalarValue, ascii_row_list, ascii_rows, at_most, binary_row, binary_rows, nonblank,
    prepend_row, row_width, truncated_row_message,
};

verus! {

/// Binary vertex data decodes exactly when it holds `n` whole rows; row `i` is
/// then read from bytes `i * w .. (i + 1) * w`, and otherwise the error names the
/// first row that the data ends inside.
pub proof fn law_binary_rows(props: Seq<PropertyView>, d: Seq<u8>, n: nat, r: nat)
    ensures
        ({
            let w = row_width(props);
            &&& (binary_rows(props, d, n, r) is Ok <==> n * w <= d.len())
            &&& binary_rows(props, d, n, r) matches Ok(rows) ==> {
                &&& rows.len() == n
                &&& forall|i: int|
                    0 <= i < n ==> #[trigger] rows[i] == binary_row(
                        props,
                        d.subrange(i * w, (i + 1) * w),
                    )
            }
            &&& binary_rows(props, d, n, r) matches Err(e) ==> w > 0 && e == LoadErrorView::Data(
                truncated_row_message(r + d.len() / w),
            )
        }),
    decreases n,
{
    let w = row_width(props);
    if n == 0 {
        assert(n * w == 0);
    } else if d.len() < w {
        assert(n * w >= w) by (nonlinear_arith)
            requires
                n >= 1,
        ;
        assert(d.len() / w == 0) by (nonlinear_arith)
            requires
                0 <= d.len() < w,
        ;
    } else {
        let d2 = d.subrange(w as int, d.len() as int);
        law_binary_rows(props, d2, (n - 1) as nat, r + 1);
        assert(n * w == (n - 1) * w + w) by (nonlinear_arith)
            requires
                n >= 1,
        ;
        match binary_rows(props, d2, (n - 1) as nat, r + 1) {
            Ok(rest) => {
                let rows = seq![binary_row(props, d.subrange(0, w as int))] + rest;
                assert forall|i: int| 0 <= i < n implies #[trigger] rows[i] == binary_row(
                    props,
                    d.subrange(i * w, (i + 1) * w),
                ) by {
                    if i == 0 {
                        assert(0 * w == 0 && 1 * w == w);
                    } else {
                        assert(rows[i] == rest[i - 1]);
                        assert((i - 1) * w + w == i * w && i * w + w == (i + 1) * w)
                            by (nonlinear_arith);
                        assert(0 <= (i - 1) * w) by (nonlinear_arith)
                            requires
                                i >= 1,
                        ;
                        assert(i * w <= (n - 1) * w) by (nonlinear_arith)
                            requires
                                i <= n - 1,
                        ;
                        assert(d2.subrange((i - 1) * w, i * w) =~= d.subrange(
                            i * w,
                            (i + 1) * w,
                        ));
                    }
                }
            },
            Err(e) => {
                let len = d.len() as int;
                assert((len - w) / (w as int) + 1 == len / (w as int)) by (nonlinear_arith)
                    requires
                        w > 0,
                        len >= w,
                ;
            },
        }
    }
}

/// ASCII vertex data yields one row per non-blank line, up to the vertex count.
pub proof fn law_ascii_row_count(props: Seq<PropertyView>, d: Seq<u8>, n: nat)
    ensures
        ascii_rows(props, d, n) matches Ok(rows) ==> rows.len() == at_most(
            nonblank(crate::text::lines(vstd::utf8::decode_utf8(d))),
            n,
        ).len(),
{
    if vstd::utf8::valid_utf8(d) {
        lemma_row_list_len(
            at_most(nonblank(crate::text::lines(vstd::utf8::decode_utf8(d))), n),
            props,
            0,
        );
    }
}

proof fn lemma_row_list_len(ls: Seq<Seq<char>>, props: Seq<PropertyView>, r: nat)
    ensures
        ascii_row_list(ls, props, r) matches Ok(rows) ==> rows.len() == ls.len(),
    decreases ls.len(),
{
    if ls.len() > 0 {
        lemma_row_list_len(ls.drop_first(), props, r + 1);
    }
}

/// The spherical-harmonics block of a row is `[coefficient][channel]`: the
/// coefficient `0` of channel `c` is `f_dc_<c>`, and coefficient `k >= 1` of
/// channel `c` is `f_rest_<c * extra + k - 1>`, where `extra` is the number of
/// complete `f_rest_*` triplets; a coefficient without its property is `zero`.
pub proof fn law_sh_block_layout<S>(props: Seq<PropertyView>, vals: Seq<S>, zero: S, k: int, c: int)
    requires
        has_sh(roles_of(props)),
        0 <= k <= extra_coeffs(roles_of(props)),
        0 <= c < 3,
    ensures
        sh_values(props, vals, zero).len() == (extra_coeffs(roles_of(props)) + 1) * 3,
        sh_values(props, vals, zero)[3 * k + c] == slot_value(
            vals,
            if k == 0 {
                last_index(roles_of(props), PropertyRole::DcCoeff(c as usize))
            } else {
                last_index(
                    roles_of(props),
                    PropertyRole::ShRest((c * extra_coeffs(roles_of(props)) + k - 1) as usize),
                )
            },
            zero,
        ),
{
    let roles = roles_of(props);
    assert((3 * k + c) / 3 == k && (3 * k + c) % 3 == c);
    assert(3 * k + c < (extra_coeffs(roles) + 1) * 3);
    assert(sh_sources(roles)[3 * k + c] == sh_source(roles, 3 * k + c));
}

/// A file's vertex rows: exactly `vertex_count` of them for binary data, and for
/// ASCII data one per non-blank line of the data, but no more than `vertex_count`.
pub proof fn law_vertex_row_count(b: Seq<u8>)
    ensures
        spec_vertex_rows(b) matches Ok((h, rows)) ==> {
            let d = b.subrange(h.data_offset as int, b.len() as int);
            let ls = nonblank(crate::text::lines(vstd::utf8::decode_utf8(d)));
            match h.format {
                PlyFormat::BinaryLittleEndian => rows.len() == h.vertex_count,
                PlyFormat::Ascii => rows.len() == if h.vertex_count < ls.len() {
                    h.vertex_count
                } else {
                    ls.len()
                },
            }
        },
{
    if let Ok(h) = spec_parse_header(b) {
        let d = b.subrange(h.data_offset as int, b.len() as int);
        law_binary_rows(h.properties, d, h.vertex_count, 0);
        law_ascii_row_count(h.properties, d, h.vertex_count);
    }
}

proof fn lemma_trim_start_first(s: Seq<char>)
    ensures
        trim_start(s).len() > 0 ==> !is_whitespace(trim_start(s)[0]),
    decreases s.len(),
{
    if s.len() > 0 && is_whitespace(s[0]) {
        lemma_trim_start_first(s.drop_first());
    }
}

proof fn lemma_trim_end_prefix(s: Seq<char>)
    ensures
        trim_end(s).len() <= s.len(),
        trim_end(s) =~= s.subrange(0, trim_end(s).len() as int),
    decreases s.len(),
{
    if s.len() > 0 && is_whitespace(s.last()) {
        lemma_trim_end_prefix(s.drop_last());
    }
}

/// A trimmed line that is not empty starts with a character that is not whitespace.
proof fn lemma_trim_first(s: Seq<char>)
    ensures
        trim(s).len() > 0 ==> !is_whitespace(trim(s)[0]),
{
    lemma_trim_start_first(s);
    lemma_trim_end_prefix(trim_start(s));
    if trim(s).len() > 0 {
        assert(trim(s)[0] == trim_start(s)[0]);
    }
}

/// The first token of a text that starts with a non-whitespace character is its
/// first run of non-whitespace characters.
proof fn lemma_first_token(l: Seq<char>)
    requires
        l.len() > 0,
        !is_whitespace(l[0]),
    ensures
        split_whitespace(l).len() > 0,
        split_whitespace(l)[0] == l.subrange(0, token_len(l) as int),
{
    crate::text::lemma_token_len(l);
}

/// Header lines `ls`: when the first `j` are accepted, ending in state `st2`, the
/// rest is scanned from `st2`.
proof fn lemma_scan_split(st: ScanState, ls: Seq<Seq<char>>, j: int)
    requires
        0 <= j <= ls.len(),
        scan_lines(st, ls.subrange(0, j)) is Ok,
    ensures
        scan_lines(st, ls) == scan_lines(scan_lines(st, ls.subrange(0, j))->Ok_0, ls.subrange(j, ls.len() as int)),
    decreases j,
{
    if j == 0 {
        assert(ls.subrange(0, ls.len() as int) =~= ls);
    } else {
        let first = ls.subrange(0, j);
        let st1 = scan_line(st, ls[0])->Ok_0;
        assert(first[0] == ls[0]);
        assert(first.drop_first() =~= ls.drop_first().subrange(0, j - 1));
        lemma_scan_split(st1, ls.drop_first(), j - 1);
        assert(ls.drop_first().subrange(j - 1, ls.len() - 1) =~= ls.subrange(j, ls.len() as int));
    }
}

/// A header line `element vertex <count>` whose count `parse_usize` refuses, after
/// accepted lines, makes the header fail with that integer error as a `Header`
/// error, whatever follows.
pub proof fn law_bad_vertex_count(b: Seq<u8>, i: int, k: IntErrorKind)
    requires
        header_end(b) is Some,
        valid_utf8(b.subrange(0, header_end(b)->Some_0 as int)),
        ({
            let ls = lines(decode_utf8(b.subrange(0, header_end(b)->Some_0 as int)));
            let toks = split_whitespace(trim(ls[i]));
            &&& 1 <= i < ls.len()
            &&& trim(ls[0]) == "ply"@
            &&& scan_lines(initial_scan(), ls.subrange(1, i)) is Ok
            &&& toks.len() > 2
            &&& toks[0] == "element"@
            &&& toks[1] == "vertex"@
            &&& parse_usize(toks[2]) == Err::<int, IntErrorKind>(k)
        }),
    ensures
        spec_parse_header(b) == Err::<HeaderView, LoadErrorView>(LoadErrorView::Header(int_error_message(k))),
{
    let end = header_end(b)->Some_0;
    let ls = lines(decode_utf8(b.subrange(0, end as int)));
    let rest = ls.drop_first();
    let l = trim(ls[i]);
    let toks = split_whitespace(l);
    assert(rest.subrange(0, i - 1) =~= ls.subrange(1, i));
    lemma_scan_split(initial_scan(), rest, i - 1);
    let st2 = scan_lines(initial_scan(), ls.subrange(1, i))->Ok_0;
    let tail = rest.subrange(i - 1, rest.len() as int);
    assert(tail[0] == ls[i]);
    reveal_strlit("element");
    reveal_strlit("end_header");
    reveal_strlit("comment");
    reveal_strlit("format");
    assert("element"@.len() != "format"@.len());
    assert(l.len() > 0);
    lemma_trim_first(ls[i]);
    lemma_first_token(l);
    assert(toks[0].len() == 7);
    assert(l[0] == toks[0][0] && l[1] == toks[0][1]);
    assert(l != "end_header"@) by {
        if l == "end_header"@ {
            assert(l[1] == 'n');
        }
    }
    assert(!starts_with(l, "comment"@)) by {
        if starts_with(l, "comment"@) {
            assert(l.subrange(0, 7)[0] == l[0]);
        }
    }
    assert(scan_line(st2, ls[i]) == Err::<ScanState, LoadErrorView>(LoadErrorView::Header(int_error_message(k))));
}

/// The bytes `ply\n`.
pub open spec fn ply_magic_line() -> Seq<u8> {
    seq![112u8, 108, 121, 10]
}

/// The bytes of the header line `comment anything\n`.
pub open spec fn comment_anything_line() -> Seq<u8> {
    seq![99u8, 111, 109, 109, 101, 110, 116, 32, 97, 110, 121, 116, 104, 105, 110, 103, 10]
}

/// `o` moved `d` positions further.
pub open spec fn shifted(o: Option<nat>, d: nat) -> Option<nat> {
    match o {
        Some(x) => Some(x + d),
        None => None,
    }
}

/// The characters of ASCII bytes.
pub open spec fn ascii_chars(bs: Seq<u8>) -> Seq<char> {
    bs.map_values(|x: u8| (x as u32) as char)
}

proof fn lemma_find_from_result(h: Seq<u8>, p: Seq<u8>, i: nat)
    ensures
        find_from(h, p, i) matches Some(x) ==> i <= x && occurs_at(h, p, x as int),
    decreases h.len() + 1 - i,
{
    if i + p.len() <= h.len() && !occurs_at(h, p, i as int) {
        lemma_find_from_result(h, p, i + 1);
    }
}

/// Positions `i .. j` hold no occurrence, so the search may start at `j`.
proof fn lemma_find_skip(h: Seq<u8>, p: Seq<u8>, i: nat, j: nat)
    requires
        i <= j,
        forall|k: int| i <= k < j ==> !occurs_at(h, p, k),
    ensures
        find_from(h, p, i) == find_from(h, p, j),
    decreases j - i,
{
    if i < j {
        lemma_find_skip(h, p, i + 1, j);
    }
}

/// Searching `b2`, which is `b` with `d` bytes inserted before position `from`,
/// from `j + d` is searching `b` from `j`, shifted.
proof fn lemma_find_shift(b: Seq<u8>, b2: Seq<u8>, p: Seq<u8>, d: nat, from: nat, j: nat)
    requires
        from <= j,
        b2.len() == b.len() + d,
        forall|k: int| from <= k < b.len() ==> #[trigger] b2[k + d] == b[k],
    ensures
        find_from(b2, p, j + d) == shifted(find_from(b, p, j), d),
    decreases b.len() + 1 - j,
{
    if j + p.len() <= b.len() {
        let s2 = b2.subrange((j + d) as int, (j + d + p.len()) as int);
        let s1 = b.subrange(j as int, (j + p.len()) as int);
        assert forall|m: int| 0 <= m < p.len() implies #[trigger] s2[m] == s1[m] by {
            assert(b2[(j + m) + d] == b[j + m]);
        }
        assert(s2 =~= s1);
        if !occurs_at(b, p, j as int) {
            lemma_find_shift(b, b2, p, d, from, j + 1);
        }
    }
}

proof fn lemma_no_match(h: Seq<u8>, p: Seq<u8>, k: int)
    requires
        p == end_header_lf() || p == end_header_crlf(),
        0 <= k,
        k + 2 < h.len() ==> (h[k] != 101 || h[k + 2] != 100),
    ensures
        !occurs_at(h, p, k),
{
    if occurs_at(h, p, k) {
        assert(h.subrange(k, k + p.len())[0] == h[k]);
        assert(h.subrange(k, k + p.len())[2] == h[k + 2]);
    }
}

/// ASCII bytes in front of UTF-8 data decode one character each.
proof fn lemma_ascii_prefix(pre: Seq<u8>, r: Seq<u8>)
    requires
        forall|j: int| 0 <= j < pre.len() ==> pre[j] < 0x80,
    ensures
        valid_utf8(pre + r) == valid_utf8(r),
        valid_utf8(r) ==> decode_utf8(pre + r) == ascii_chars(pre) + decode_utf8(r),
    decreases pre.len(),
{
    if pre.len() > 0 {
        let q = pre + r;
        let c = q[0];
        assert(c == pre[0]);
        assert(c & 0x7f == c) by (bit_vector)
            requires
                c < 0x80,
        ;
        assert(vstd::utf8::pop_first_scalar(q) =~= pre.drop_first() + r);
        lemma_ascii_prefix(pre.drop_first(), r);
        if valid_utf8(r) {
            assert(ascii_chars(pre) =~= seq![(c as u32) as char] + ascii_chars(pre.drop_first()));
            assert(decode_utf8(q) == seq![vstd::utf8::decode_first_scalar(q) as char] + decode_utf8(
                pre.drop_first() + r,
            ));
        }
    } else {
        assert(pre + r =~= r);
    }
}

proof fn lemma_line_len_prefix(t: Seq<char>, s: Seq<char>)
    requires
        forall|j: int| 0 <= j < t.len() ==> t[j] != '\n',
    ensures
        crate::text::line_len(t + seq!['\n'] + s) == t.len(),
    decreases t.len(),
{
    let u = t + seq!['\n'] + s;
    if t.len() > 0 {
        assert(u[0] == t[0]);
        assert(u.drop_first() =~= t.drop_first() + seq!['\n'] + s);
        lemma_line_len_prefix(t.drop_first(), s);
    } else {
        assert(u[0] == '\n');
    }
}

/// A line `t` ended by `'\n'` is the first line.
proof fn lemma_lines_after(t: Seq<char>, s: Seq<char>)
    requires
        forall|j: int| 0 <= j < t.len() ==> t[j] != '\n',
    ensures
        lines(t + seq!['\n'] + s) == seq![strip_cr(t)] + lines(s),
{
    let u = t + seq!['\n'] + s;
    lemma_line_len_prefix(t, s);
    assert(u.subrange(0, t.len() as int) =~= t);
    assert(u.subrange((t.len() + 1) as int, u.len() as int) =~= s);
}

/// A `comment anything` line inserted right after the `ply` line changes nothing
/// in the header but where the data starts, which moves by the line's 17 bytes.
pub proof fn law_comment_line_shifts_data(b: Seq<u8>)
    requires
        b.len() >= 4,
        b.subrange(0, 4) == ply_magic_line(),
    ensures
        ({
            let b2 = ply_magic_line() + comment_anything_line() + b.subrange(4, b.len() as int);
            &&& (spec_parse_header(b2) is Ok <==> spec_parse_header(b) is Ok)
            &&& spec_parse_header(b) matches Ok(h) ==> spec_parse_header(b2) == Ok::<HeaderView, LoadErrorView>(
                HeaderView { data_offset: h.data_offset + 17, ..h },
            )
        }),
{
    let mg = ply_magic_line();
    let cm = comment_anything_line();
    let pre = mg + cm;
    let b2 = pre + b.subrange(4, b.len() as int);
    let lf = end_header_lf();
    let crlf = end_header_crlf();
    assert(b2.len() == b.len() + 17);
    assert(pre =~= seq![112u8, 108, 121, 10, 99, 111, 109, 109, 101, 110, 116, 32, 97, 110, 121, 116, 104, 105, 110, 103, 10]);
    assert forall|k: int| 4 <= k < b.len() implies #[trigger] b2[k + 17] == b[k] by {
        assert(b2[k + 17] == b.subrange(4, b.len() as int)[k - 4]);
    }
    assert forall|k: int| 0 <= k < 21 implies b2[k] == pre[k] by {}
    assert forall|k: int| 0 <= k < 4 implies b[k] == mg[k] by {
        assert(b[k] == b.subrange(0, 4)[k]);
    }
    // Neither terminator starts inside `ply\ncomment anything\n`, nor inside `ply\n`.
    assert forall|p: Seq<u8>, k: int| (p == lf || p == crlf) && 0 <= k < 21 implies !occurs_at(b2, p, k) by {
        assert(k == 0 || k == 1 || k == 2 || k == 3 || k == 4 || k == 5 || k == 6 || k == 7 || k == 8 || k == 9
            || k == 10 || k == 11 || k == 12 || k == 13 || k == 14 || k == 15 || k == 16 || k == 17 || k == 18
            || k == 19 || k == 20);
        lemma_no_match(b2, p, k);
    }
    assert forall|p: Seq<u8>, k: int| (p == lf || p == crlf) && 0 <= k < 4 implies !occurs_at(b, p, k) by {
        assert(k == 0 || k == 1 || k == 2 || k == 3);
        lemma_no_match(b, p, k);
    }
    lemma_find_skip(b2, lf, 0, 21);
    lemma_find_skip(b2, crlf, 0, 21);
    lemma_find_skip(b, lf, 0, 4);
    lemma_find_skip(b, crlf, 0, 4);
    lemma_find_shift(b, b2, lf, 17, 4, 4);
    lemma_find_shift(b, b2, crlf, 17, 4, 4);
    lemma_find_from_result(b, lf, 4);
    lemma_find_from_result(b, crlf, 4);
    assert(header_end(b2) == shifted(header_end(b), 17));
    if let Some(end) = header_end(b) {
        assert(4 <= end <= b.len());
        let r = b.subrange(4, end as int);
        let hb = b.subrange(0, end as int);
        let hb2 = b2.subrange(0, (end + 17) as int);
        assert(hb =~= mg + r);
        assert(hb2 =~= pre + r);
        assert forall|j: int| 0 <= j < pre.len() implies pre[j] < 0x80 by {}
        assert forall|j: int| 0 <= j < mg.len() implies mg[j] < 0x80 by {}
        lemma_ascii_prefix(mg, r);
        lemma_ascii_prefix(pre, r);
        if valid_utf8(r) {
            let dr = decode_utf8(r);
            let magic = ascii_chars(mg.subrange(0, 3));
            let comment = ascii_chars(cm.subrange(0, 16));
            assert(ascii_chars(mg) =~= magic + seq!['\n']);
            assert(ascii_chars(pre) =~= magic + seq!['\n'] + comment + seq!['\n']);
            assert forall|j: int| 0 <= j < magic.len() implies magic[j] != '\n' by {
                assert(j == 0 || j == 1 || j == 2);
            }
            assert forall|j: int| 0 <= j < comment.len() implies comment[j] != '\n' by {
                assert(j == 0 || j == 1 || j == 2 || j == 3 || j == 4 || j == 5 || j == 6 || j == 7 || j == 8 || j == 9
                    || j == 10 || j == 11 || j == 12 || j == 13 || j == 14 || j == 15);
            }
            lemma_lines_after(magic, dr);
            lemma_lines_after(comment, dr);
            assert(magic + seq!['\n'] + (comment + seq!['\n'] + dr) =~= ascii_chars(pre) + dr);
            lemma_lines_after(magic, comment + seq!['\n'] + dr);
            let ls = lines(decode_utf8(hb));
            let ls2 = lines(decode_utf8(hb2));
            assert(ls == seq![strip_cr(magic)] + lines(dr));
            assert(ls2 == seq![strip_cr(magic)] + (seq![strip_cr(comment)] + lines(dr)));
            assert(ls.drop_first() =~= lines(dr));
            assert(ls2.drop_first() =~= seq![strip_cr(comment)] + lines(dr));
            // The inserted line is a comment, which the header scan passes over.
            reveal_strlit("comment");
            assert(strip_cr(comment) == comment);
            assert(trim_start(comment) == comment);
            assert(trim_end(comment) == comment);
            assert(comment.subrange(0, 7) =~= "comment"@);
            assert(scan_line(initial_scan(), comment) == Ok::<ScanState, LoadErrorView>(initial_scan()));
            let with = seq![comment] + lines(dr);
            assert(with.drop_first() =~= lines(dr));
            assert(scan_lines(initial_scan(), with) == scan_lines(initial_scan(), lines(dr)));
        }
    }
}

/// A set passes validation exactly when it has a splat, every buffer holds one
/// entry per mean, and an SH buffer, when there is one, holds exactly
/// `len * coeffs_per_channel * 3` values (a count that fits in `usize`): fewer and
/// more are both refused.
pub proof fn law_validation_accepts_exactly_consistent_sets(s: SetShape)
    ensures
        shape_check(s) is Ok <==> {
            &&& s.means > 0
            &&& s.quats == s.means
            &&& s.scales == s.means
            &&& s.opacities == s.means
            &&& s.colors == s.means
            &&& (s.sh matches Some((cpc, got)) ==> got == s.means * cpc * 3 && got <= usize::MAX)
        },
        match s.sh {
            Some((cpc, got)) => s.means > 0 && s.quats == s.means && s.scales == s.means
                && s.opacities == s.means && s.colors == s.means && s.means * cpc * 3 <= usize::MAX
                && got != s.means * cpc * 3 ==> shape_check(s) == Err::<(), SetValidationError>(
                SetValidationError::MismatchedShCount { expected: (s.means * cpc * 3) as usize, got: got as usize },
            ),
            None => true,
        },
{
}

/// A header line that is blank, a comment, or whose first word is none of
/// `format`, `element` and `property` changes nothing in the header scan.
pub proof fn law_unknown_header_lines_are_ignored(st: ScanState, line: Seq<char>)
    requires
        ({
            let toks = split_whitespace(trim(line));
            toks.len() == 0 || (toks[0] != "format"@ && toks[0] != "element"@ && toks[0] != "property"@)
        }),
    ensures
        scan_line(st, line) == Ok::<ScanState, LoadErrorView>(st),
{
    let l = trim(line);
    lemma_trim_first(line);
    if l.len() > 0 {
        lemma_first_token(l);
    }
}

/// Inserting a header line that the scan ignores (see
/// `law_unknown_header_lines_are_ignored`) anywhere among the header lines leaves
/// the scan's outcome unchanged.
pub proof fn law_ignored_line_insertion(st: ScanState, a: Seq<Seq<char>>, line: Seq<char>, c: Seq<Seq<char>>)
    requires
        ({
            let toks = split_whitespace(trim(line));
            toks.len() == 0 || (toks[0] != "format"@ && toks[0] != "element"@ && toks[0] != "property"@)
        }),
    ensures
        scan_lines(st, a + seq![line] + c) == scan_lines(st, a + c),
    decreases a.len(),
{
    if a.len() == 0 {
        law_unknown_header_lines_are_ignored(st, line);
        assert(a + seq![line] + c =~= seq![line] + c);
        assert((seq![line] + c).drop_first() =~= c);
        assert(a + c =~= c);
    } else {
        law_ignored_line_insertion(st, a.drop_first(), line, c);
        assert((a + seq![line] + c)[0] == a[0]);
        assert((a + seq![line] + c).drop_first() =~= a.drop_first() + seq![line] + c);
        assert((a + c)[0] == a[0]);
        assert((a + c).drop_first() =~= a.drop_first() + c);
        match scan_line(st, a[0]) {
            Ok(st1) => {
                law_ignored_line_insertion(st1, a.drop_first(), line, c);
            },
            Err(_) => {},
        }
    }
}

proof fn lemma_line_len_no_newline(t: Seq<char>)
    requires
        forall|j: int| 0 <= j < t.len() ==> t[j] != '\n',
    ensures
        crate::text::line_len(t) == t.len(),
    decreases t.len(),
{
    if t.len() > 0 {
        assert(t.drop_first().len() < t.len());
        assert forall|j: int| 0 <= j < t.drop_first().len() implies t.drop_first()[j] != '\n' by {
            assert(t.drop_first()[j] == t[j + 1]);
        }
        lemma_line_len_no_newline(t.drop_first());
    }
}

proof fn lemma_line_len_append(a: Seq<char>, b: Seq<char>)
    requires
        crate::text::line_len(a) < a.len(),
    ensures
        crate::text::line_len(a + b) == crate::text::line_len(a),
    decreases a.len(),
{
    if a[0] != '\n' {
        assert((a + b)[0] == a[0]);
        assert((a + b).drop_first() =~= a.drop_first() + b);
        lemma_line_len_append(a.drop_first(), b);
    } else {
        assert((a + b)[0] == '\n');
    }
}

/// Text without a line break is one line, kept whole (a final `'\r'` included).
pub proof fn law_unterminated_text_is_one_line(t: Seq<char>)
    requires
        t.len() > 0,
        forall|j: int| 0 <= j < t.len() ==> t[j] != '\n',
    ensures
        lines(t) == seq![t],
{
    lemma_line_len_no_newline(t);
}

/// Lines split at line breaks: the lines of text that ends with `'\n'`, followed
/// by more text, are its lines followed by the lines of the rest. With
/// `law_unterminated_text_is_one_line`, a last line without `'\n'` is kept.
pub proof fn law_lines_concat(a: Seq<char>, b: Seq<char>)
    requires
        a.len() > 0,
        a.last() == '\n',
    ensures
        lines(a + b) == lines(a) + lines(b),
    decreases a.len(),
{
    crate::text::lemma_line_len(a);
    let k = crate::text::line_len(a);
    assert(k < a.len()) by {
        if k >= a.len() {
            assert(forall|j: int| 0 <= j < k ==> a[j] != '\n');
            assert(a[a.len() - 1] == '\n');
        }
    }
    lemma_line_len_append(a, b);
    let ab = a + b;
    assert(ab.subrange(0, k as int) =~= a.subrange(0, k as int));
    let rest = a.subrange(k + 1int, a.len() as int);
    assert(ab.subrange(k + 1int, ab.len() as int) =~= rest + b);
    if rest.len() == 0 {
        assert(rest + b =~= b);
        assert(lines(rest) =~= Seq::<Seq<char>>::empty());
        assert(lines(a) =~= seq![strip_cr(a.subrange(0, k as int))]);
    } else {
        assert(rest.last() == a.last());
        law_lines_concat(rest, b);
    }
    assert(lines(a + b) =~= lines(a) + lines(b));
}

proof fn lemma_digit_char(d: nat)
    requires
        d < 10,
    ensures
        is_digit(digit_char(d)),
        digit_value(digit_char(d)) == d,
{
}

/// One more digit after `s`.
proof fn lemma_parse_digits_push(s: Seq<char>, c: char, acc: int, negative: bool, lo: int, hi: int)
    ensures
        parse_digits(s.push(c), acc, negative, lo, hi) == match parse_digits(s, acc, negative, lo, hi) {
            Err(e) => Err(e),
            Ok(v) => parse_digits(seq![c], v, negative, lo, hi),
        },
    decreases s.len(),
{
    if s.len() > 0 {
        assert(s.push(c)[0] == s[0]);
        assert(s.push(c).drop_first() =~= s.drop_first().push(c));
        if is_digit(s[0]) {
            let v = if negative { acc * 10 - digit_value(s[0]) } else { acc * 10 + digit_value(s[0]) };
            lemma_parse_digits_push(s.drop_first(), c, v, negative, lo, hi);
        }
    } else {
        assert(s.push(c) =~= seq![c]);
    }
}

/// The digits of `m` read as a (negated, when `negative`) number within `[lo, hi]`.
proof fn lemma_parse_decimal(m: nat, negative: bool, lo: int, hi: int)
    requires
        lo <= 0 <= hi,
    ensures
        parse_digits(decimal(m), 0, negative, lo, hi) == if negative {
            if -m < lo { Err::<int, IntErrorKind>(IntErrorKind::NegOverflow) } else { Ok(-m) }
        } else {
            if m > hi { Err::<int, IntErrorKind>(IntErrorKind::PosOverflow) } else { Ok(m as int) }
        },
    decreases m,
{
    if m < 10 {
        lemma_digit_char(m);
        assert(parse_digits(seq![digit_char(m)].drop_first(), if negative { -m } else { m as int }, negative, lo, hi)
            == Ok::<int, IntErrorKind>(if negative { -m } else { m as int }));
    } else {
        let q = m / 10;
        let d = m % 10;
        lemma_parse_decimal(q, negative, lo, hi);
        lemma_digit_char(d);
        lemma_parse_digits_push(decimal(q), digit_char(d), 0, negative, lo, hi);
        assert(q * 10 + d == m);
        let v = if negative { -q } else { q as int };
        let one = seq![digit_char(d)];
        assert(one.drop_first() =~= Seq::<char>::empty());
        assert(decimal(m) == decimal(q).push(digit_char(d)));
        if parse_digits(decimal(q), 0, negative, lo, hi) is Ok {
            assert(parse_digits(decimal(q), 0, negative, lo, hi) == Ok::<int, IntErrorKind>(v));
            let v2 = if negative { v * 10 - d } else { v * 10 + d };
            assert(v2 == if negative { -m } else { m as int });
            assert(one[0] == digit_char(d));
            assert(parse_digits(Seq::<char>::empty(), v2, negative, lo, hi) == Ok::<int, IntErrorKind>(v2));
        } else {
            assert(m >= q);
        }
    }
}

/// The `Display` text of an integer: `-` and the digits of its magnitude when it is
/// negative, its digits otherwise.
pub open spec fn int_text(n: int) -> Seq<char> {
    if n < 0 {
        seq!['-'] + decimal((-n) as nat)
    } else {
        decimal(n as nat)
    }
}

/// The range of values of an integer PLY type, as the Rust type holds them.
pub open spec fn int_type_range(t: ScalarType) -> Option<(int, int)> {
    match t {
        ScalarType::I8 => Some((i8::MIN as int, i8::MAX as int)),
        ScalarType::U8 => Some((u8::MIN as int, u8::MAX as int)),
        ScalarType::I16 => Some((i16::MIN as int, i16::MAX as int)),
        ScalarType::U16 => Some((u16::MIN as int, u16::MAX as int)),
        ScalarType::I32 => Some((i32::MIN as int, i32::MAX as int)),
        ScalarType::U32 => Some((u32::MIN as int, u32::MAX as int)),
        _ => None,
    }
}

/// An ASCII integer token is read as the Rust type reads it: the written form of
/// every value of the type, negative ones included, gives that value, also with a
/// leading `+` for a value that is not negative; a value above the type's range
/// is too large, one below it is too small for a signed type, and a minus sign is
/// an invalid digit for an unsigned type.
pub proof fn law_integer_tokens(t: ScalarType, n: int)
    requires
        int_type_range(t) is Some,
    ensures
        ({
            let (lo, hi) = int_type_range(t)->Some_0;
            &&& lo <= n <= hi ==> ascii_value(int_text(n), t) == Ok::<ScalarValue, LoadErrorView>(ScalarValue::Int(n))
            &&& 0 <= n <= hi ==> ascii_value(seq!['+'] + int_text(n), t) == Ok::<ScalarValue, LoadErrorView>(
                ScalarValue::Int(n),
            )
            &&& n > hi ==> ascii_value(int_text(n), t) == Err::<ScalarValue, LoadErrorView>(
                LoadErrorView::Data("number too large to fit in target type"@),
            )
            &&& n < lo && lo < 0 ==> ascii_value(int_text(n), t) == Err::<ScalarValue, LoadErrorView>(
                LoadErrorView::Data("number too small to fit in target type"@),
            )
            &&& n < lo && lo == 0 ==> ascii_value(int_text(n), t) == Err::<ScalarValue, LoadErrorView>(
                LoadErrorView::Data("invalid digit found in string"@),
            )
        }),
{
    let (lo, hi) = int_type_range(t)->Some_0;
    let m: nat = if n < 0 { (-n) as nat } else { n as nat };
    lemma_parse_decimal(m, n < 0, lo, hi);
    lemma_parse_decimal(m, false, lo, hi);
    assert(decimal(m).len() > 0);
    let txt = int_text(n);
    if n < 0 {
        assert(txt[0] == '-');
        assert(txt.drop_first() =~= decimal(m));
        assert(txt.len() > 1);
        assert(!is_digit('-'));
    } else {
        let plus = seq!['+'] + txt;
        assert(plus.drop_first() =~= txt);
        assert(plus.len() > 1);
        assert(txt =~= decimal(m));
        if txt[0] == '+' || txt[0] == '-' {
            assert(false) by {
                if m < 10 {
                    lemma_digit_char(m);
                } else {
                    assert(decimal(m) =~= decimal(m / 10).push(digit_char(m % 10)));
                    lemma_decimal_first_digit(m / 10);
                    assert(decimal(m)[0] == decimal(m / 10)[0]);
                }
            }
        }
    }
}

proof fn lemma_decimal_first_digit(m: nat)
    ensures
        decimal(m).len() > 0,
        is_digit(decimal(m)[0]),
    decreases m,
{
    if m < 10 {
        lemma_digit_char(m);
    } else {
        lemma_decimal_first_digit(m / 10);
        assert(decimal(m)[0] == decimal(m / 10)[0]);
    }
}

/// Index of the last property whose name is one of `names`.
pub open spec fn last_named(props: Seq<PropertyView>, names: Seq<Seq<char>>) -> Option<usize>
    decreases props.len(),
{
    if props.len() == 0 {
        None
    } else if names.contains(props.last().name) {
        Some((props.len() - 1) as usize)
    } else {
        last_named(props.drop_last(), names)
    }
}

/// The value, in the row `vals`, of the last property named one of `names`, or `d`.
pub open spec fn named_value<S>(props: Seq<PropertyView>, vals: Seq<S>, names: Seq<Seq<char>>, d: S) -> S {
    match last_named(props, names) {
        Some(i) => vals[i as int],
        None => d,
    }
}

/// The value and type of the last property named one of `names`.
pub open spec fn named_typed<S>(props: Seq<PropertyView>, vals: Seq<S>, names: Seq<Seq<char>>) -> Option<(S, ScalarType)> {
    match last_named(props, names) {
        Some(i) => Some((vals[i as int], props[i as int].scalar_type)),
        None => None,
    }
}

pub open spec fn dc_names() -> Seq<Seq<char>> {
    seq!["f_dc_0"@, "f_dc_1"@, "f_dc_2"@]
}

proof fn lemma_last_named(props: Seq<PropertyView>, role: PropertyRole, names: Seq<Seq<char>>)
    requires
        forall|n: Seq<char>| (#[trigger] role_of(n) == role) <==> names.contains(n),
    ensures
        last_index(roles_of(props), role) == last_named(props, names),
    decreases props.len(),
{
    if props.len() > 0 {
        let roles = roles_of(props);
        assert(roles.last() == role_of(props.last().name));
        assert(roles.drop_last() =~= roles_of(props.drop_last()));
        lemma_last_named(props.drop_last(), role, names);
    }
}

proof fn lemma_last_named_some(props: Seq<PropertyView>, names: Seq<Seq<char>>)
    ensures
        (last_named(props, names) is Some) <==> exists|i: int| 0 <= i < props.len() && names.contains(#[trigger] props[i].name),
    decreases props.len(),
{
    if props.len() > 0 {
        let prev = props.drop_last();
        lemma_last_named_some(prev, names);
        if last_named(props, names) is None {
            assert forall|i: int| 0 <= i < props.len() implies !names.contains(#[trigger] props[i].name) by {
                if i < props.len() - 1 {
                    assert(props[i] == prev[i]);
                }
            }
        } else if !names.contains(props.last().name) {
            let i = choose|i: int| 0 <= i < prev.len() && names.contains(#[trigger] prev[i].name);
            assert(props[i] == prev[i]);
        }
    }
}

/// The characters of the property names that decoding recognises.
proof fn lemma_name_chars()
    ensures
        "x"@.len() == 1 && "x"@[0] == 'x',
        "y"@.len() == 1 && "y"@[0] == 'y',
        "z"@.len() == 1 && "z"@[0] == 'z',
        "scale_0"@.len() == 7 && "scale_0"@[0] == 's' && "scale_0"@[1] == 'c' && "scale_0"@[2] == 'a' && "scale_0"@[3] == 'l' && "scale_0"@[4] == 'e' && "scale_0"@[5] == '_' && "scale_0"@[6] == '0',
        "scale_1"@.len() == 7 && "scale_1"@[0] == 's' && "scale_1"@[1] == 'c' && "scale_1"@[2] == 'a' && "scale_1"@[3] == 'l' && "scale_1"@[4] == 'e' && "scale_1"@[5] == '_' && "scale_1"@[6] == '1',
        "scale_2"@.len() == 7 && "scale_2"@[0] == 's' && "scale_2"@[1] == 'c' && "scale_2"@[2] == 'a' && "scale_2"@[3] == 'l' && "scale_2"@[4] == 'e' && "scale_2"@[5] == '_' && "scale_2"@[6] == '2',
        "rot_0"@.len() == 5 && "rot_0"@[0] == 'r' && "rot_0"@[1] == 'o' && "rot_0"@[2] == 't' && "rot_0"@[3] == '_' && "rot_0"@[4] == '0',
        "rot_1"@.len() == 5 && "rot_1"@[0] == 'r' && "rot_1"@[1] == 'o' && "rot_1"@[2] == 't' && "rot_1"@[3] == '_' && "rot_1"@[4] == '1',
        "rot_2"@.len() == 5 && "rot_2"@[0] == 'r' && "rot_2"@[1] == 'o' && "rot_2"@[2] == 't' && "rot_2"@[3] == '_' && "rot_2"@[4] == '2',
        "rot_3"@.len() == 5 && "rot_3"@[0] == 'r' && "rot_3"@[1] == 'o' && "rot_3"@[2] == 't' && "rot_3"@[3] == '_' && "rot_3"@[4] == '3',
        "opacity"@.len() == 7 && "opacity"@[0] == 'o' && "opacity"@[1] == 'p' && "opacity"@[2] == 'a' && "opacity"@[3] == 'c' && "opacity"@[4] == 'i' && "opacity"@[5] == 't' && "opacity"@[6] == 'y',
        "f_dc_0"@.len() == 6 && "f_dc_0"@[0] == 'f' && "f_dc_0"@[1] == '_' && "f_dc_0"@[2] == 'd' && "f_dc_0"@[3] == 'c' && "f_dc_0"@[4] == '_' && "f_dc_0"@[5] == '0',
        "f_dc_1"@.len() == 6 && "f_dc_1"@[0] == 'f' && "f_dc_1"@[1] == '_' && "f_dc_1"@[2] == 'd' && "f_dc_1"@[3] == 'c' && "f_dc_1"@[4] == '_' && "f_dc_1"@[5] == '1',
        "f_dc_2"@.len() == 6 && "f_dc_2"@[0] == 'f' && "f_dc_2"@[1] == '_' && "f_dc_2"@[2] == 'd' && "f_dc_2"@[3] == 'c' && "f_dc_2"@[4] == '_' && "f_dc_2"@[5] == '2',
        "red"@.len() == 3 && "red"@[0] == 'r' && "red"@[1] == 'e' && "red"@[2] == 'd',
        "r"@.len() == 1 && "r"@[0] == 'r',
        "green"@.len() == 5 && "green"@[0] == 'g' && "green"@[1] == 'r' && "green"@[2] == 'e' && "green"@[3] == 'e' && "green"@[4] == 'n',
        "g"@.len() == 1 && "g"@[0] == 'g',
        "blue"@.len() == 4 && "blue"@[0] == 'b' && "blue"@[1] == 'l' && "blue"@[2] == 'u' && "blue"@[3] == 'e',
        "b"@.len() == 1 && "b"@[0] == 'b',
        "f_rest_"@.len() == 7 && "f_rest_"@[0] == 'f' && "f_rest_"@[1] == '_' && "f_rest_"@[2] == 'r' && "f_rest_"@[3] == 'e' && "f_rest_"@[4] == 's' && "f_rest_"@[5] == 't' && "f_rest_"@[6] == '_',
{
    reveal_strlit("x");
    reveal_strlit("y");
    reveal_strlit("z");
    reveal_strlit("scale_0");
    reveal_strlit("scale_1");
    reveal_strlit("scale_2");
    reveal_strlit("rot_0");
    reveal_strlit("rot_1");
    reveal_strlit("rot_2");
    reveal_strlit("rot_3");
    reveal_strlit("opacity");
    reveal_strlit("f_dc_0");
    reveal_strlit("f_dc_1");
    reveal_strlit("f_dc_2");
    reveal_strlit("red");
    reveal_strlit("r");
    reveal_strlit("green");
    reveal_strlit("g");
    reveal_strlit("blue");
    reveal_strlit("b");
    reveal_strlit("f_rest_");
}

/// Which names give which role.
proof fn lemma_role_names(n: Seq<char>)
    ensures
        (role_of(n) == PropertyRole::Position(0)) <==> n == "x"@,
        (role_of(n) == PropertyRole::Position(1)) <==> n == "y"@,
        (role_of(n) == PropertyRole::Position(2)) <==> n == "z"@,
        (role_of(n) == PropertyRole::LogScale(0)) <==> n == "scale_0"@,
        (role_of(n) == PropertyRole::LogScale(1)) <==> n == "scale_1"@,
        (role_of(n) == PropertyRole::LogScale(2)) <==> n == "scale_2"@,
        (role_of(n) == PropertyRole::Rotation(0)) <==> n == "rot_0"@,
        (role_of(n) == PropertyRole::Rotation(1)) <==> n == "rot_1"@,
        (role_of(n) == PropertyRole::Rotation(2)) <==> n == "rot_2"@,
        (role_of(n) == PropertyRole::Rotation(3)) <==> n == "rot_3"@,
        (role_of(n) == PropertyRole::Opacity) <==> n == "opacity"@,
        (role_of(n) == PropertyRole::DcCoeff(0)) <==> n == "f_dc_0"@,
        (role_of(n) == PropertyRole::DcCoeff(1)) <==> n == "f_dc_1"@,
        (role_of(n) == PropertyRole::DcCoeff(2)) <==> n == "f_dc_2"@,
        (role_of(n) is DcCoeff) <==> (n == "f_dc_0"@ || n == "f_dc_1"@ || n == "f_dc_2"@),
        (role_of(n) == PropertyRole::Color(0)) <==> (n == "red"@ || n == "r"@),
        (role_of(n) == PropertyRole::Color(1)) <==> (n == "green"@ || n == "g"@),
        (role_of(n) == PropertyRole::Color(2)) <==> (n == "blue"@ || n == "b"@),
{
    lemma_name_chars();
}

proof fn lemma_role_set(props: Seq<PropertyView>, role: PropertyRole, names: Seq<Seq<char>>)
    requires
        forall|n: Seq<char>| (#[trigger] role_of(n) == role) <==> names.contains(n),
    ensures
        last_index(roles_of(props), role) == last_named(props, names),
{
    lemma_last_named(props, role, names);
}

/// Each splat attribute comes from the last property with its name: `x y z` the
/// position, `scale_0..2` the log-scales, `rot_1 rot_2 rot_3 rot_0` the rotation
/// in `x y z w` order, `opacity`, and for the color either `f_dc_0..2` (when any
/// of them is present) or `red`/`r`, `green`/`g`, `blue`/`b` with their types.
/// A missing attribute takes its default: zero, or one for `rot_0` and `opacity`.
pub proof fn law_attributes_by_name<S>(props: Seq<PropertyView>, vals: Seq<S>, zero: S, one: S, inp: SplatInputs<S>)
    requires
        inputs_match(inp, props, vals, zero, one),
    ensures
        inp.position@ == seq![
            named_value(props, vals, seq!["x"@], zero),
            named_value(props, vals, seq!["y"@], zero),
            named_value(props, vals, seq!["z"@], zero),
        ],
        inp.log_scale@ == seq![
            named_value(props, vals, seq!["scale_0"@], zero),
            named_value(props, vals, seq!["scale_1"@], zero),
            named_value(props, vals, seq!["scale_2"@], zero),
        ],
        inp.rotation_xyzw@ == seq![
            named_value(props, vals, seq!["rot_1"@], zero),
            named_value(props, vals, seq!["rot_2"@], zero),
            named_value(props, vals, seq!["rot_3"@], zero),
            named_value(props, vals, seq!["rot_0"@], one),
        ],
        inp.opacity_logit == named_value(props, vals, seq!["opacity"@], one),
        last_named(props, dc_names()) is None ==> (inp.color matches ColorSource::Rgb(c) && c@ == seq![
            named_typed(props, vals, seq!["red"@, "r"@]),
            named_typed(props, vals, seq!["green"@, "g"@]),
            named_typed(props, vals, seq!["blue"@, "b"@]),
        ]),
        last_named(props, dc_names()) is Some ==> (inp.color matches ColorSource::ShDc(dc) && dc@ == seq![
            named_value(props, vals, seq!["f_dc_0"@], zero),
            named_value(props, vals, seq!["f_dc_1"@], zero),
            named_value(props, vals, seq!["f_dc_2"@], zero),
        ]),
{
    let roles = roles_of(props);
    let singles: Seq<(PropertyRole, Seq<char>)> = seq![
        (PropertyRole::Position(0), "x"@),
        (PropertyRole::Position(1), "y"@),
        (PropertyRole::Position(2), "z"@),
        (PropertyRole::LogScale(0), "scale_0"@),
        (PropertyRole::LogScale(1), "scale_1"@),
        (PropertyRole::LogScale(2), "scale_2"@),
        (PropertyRole::Rotation(0), "rot_0"@),
        (PropertyRole::Rotation(1), "rot_1"@),
        (PropertyRole::Rotation(2), "rot_2"@),
        (PropertyRole::Rotation(3), "rot_3"@),
        (PropertyRole::Opacity, "opacity"@),
        (PropertyRole::DcCoeff(0), "f_dc_0"@),
        (PropertyRole::DcCoeff(1), "f_dc_1"@),
        (PropertyRole::DcCoeff(2), "f_dc_2"@),
    ];
    assert forall|k: int| 0 <= k < singles.len() implies last_index(roles, (#[trigger] singles[k]).0) == last_named(
        props,
        seq![singles[k].1],
    ) by {
        let (role, name) = singles[k];
        assert forall|n: Seq<char>| (#[trigger] role_of(n) == role) <==> seq![name].contains(n) by {
            lemma_role_names(n);
            assert(seq![name][0] == name);
        }
        lemma_role_set(props, role, seq![name]);
    }
    assert(last_index(roles, PropertyRole::Position(0)) == last_named(props, seq!["x"@])) by { assert(singles[0].0 == PropertyRole::Position(0)); }
    assert(last_index(roles, PropertyRole::Position(1)) == last_named(props, seq!["y"@])) by { assert(singles[1].0 == PropertyRole::Position(1)); }
    assert(last_index(roles, PropertyRole::Position(2)) == last_named(props, seq!["z"@])) by { assert(singles[2].0 == PropertyRole::Position(2)); }
    assert(last_index(roles, PropertyRole::LogScale(0)) == last_named(props, seq!["scale_0"@])) by { assert(singles[3].0 == PropertyRole::LogScale(0)); }
    assert(last_index(roles, PropertyRole::LogScale(1)) == last_named(props, seq!["scale_1"@])) by { assert(singles[4].0 == PropertyRole::LogScale(1)); }
    assert(last_index(roles, PropertyRole::LogScale(2)) == last_named(props, seq!["scale_2"@])) by { assert(singles[5].0 == PropertyRole::LogScale(2)); }
    assert(last_index(roles, PropertyRole::Rotation(0)) == last_named(props, seq!["rot_0"@])) by { assert(singles[6].0 == PropertyRole::Rotation(0)); }
    assert(last_index(roles, PropertyRole::Rotation(1)) == last_named(props, seq!["rot_1"@])) by { assert(singles[7].0 == PropertyRole::Rotation(1)); }
    assert(last_index(roles, PropertyRole::Rotation(2)) == last_named(props, seq!["rot_2"@])) by { assert(singles[8].0 == PropertyRole::Rotation(2)); }
    assert(last_index(roles, PropertyRole::Rotation(3)) == last_named(props, seq!["rot_3"@])) by { assert(singles[9].0 == PropertyRole::Rotation(3)); }
    assert(last_index(roles, PropertyRole::Opacity) == last_named(props, seq!["opacity"@])) by { assert(singles[10].0 == PropertyRole::Opacity); }
    assert(last_index(roles, PropertyRole::DcCoeff(0)) == last_named(props, seq!["f_dc_0"@])) by { assert(singles[11].0 == PropertyRole::DcCoeff(0)); }
    assert(last_index(roles, PropertyRole::DcCoeff(1)) == last_named(props, seq!["f_dc_1"@])) by { assert(singles[12].0 == PropertyRole::DcCoeff(1)); }
    assert(last_index(roles, PropertyRole::DcCoeff(2)) == last_named(props, seq!["f_dc_2"@])) by { assert(singles[13].0 == PropertyRole::DcCoeff(2)); }
    let pairs: Seq<(PropertyRole, Seq<char>, Seq<char>)> = seq![
        (PropertyRole::Color(0), "red"@, "r"@),
        (PropertyRole::Color(1), "green"@, "g"@),
        (PropertyRole::Color(2), "blue"@, "b"@),
    ];
    assert forall|k: int| 0 <= k < pairs.len() implies last_index(roles, (#[trigger] pairs[k]).0) == last_named(
        props,
        seq![pairs[k].1, pairs[k].2],
    ) by {
        let (role, a, b) = pairs[k];
        assert forall|n: Seq<char>| (#[trigger] role_of(n) == role) <==> seq![a, b].contains(n) by {
            lemma_role_names(n);
            assert(seq![a, b][0] == a && seq![a, b][1] == b);
        }
        lemma_role_set(props, role, seq![a, b]);
    }
    assert(last_index(roles, PropertyRole::Color(0)) == last_named(props, seq!["red"@, "r"@])) by { assert(pairs[0].0 == PropertyRole::Color(0)); }
    assert(last_index(roles, PropertyRole::Color(1)) == last_named(props, seq!["green"@, "g"@])) by { assert(pairs[1].0 == PropertyRole::Color(1)); }
    assert(last_index(roles, PropertyRole::Color(2)) == last_named(props, seq!["blue"@, "b"@])) by { assert(pairs[2].0 == PropertyRole::Color(2)); }
    // A DC coefficient is present exactly when some property is named `f_dc_0..2`.
    lemma_last_named_some(props, dc_names());
    assert(dc_names()[0] == "f_dc_0"@ && dc_names()[1] == "f_dc_1"@ && dc_names()[2] == "f_dc_2"@);
    assert forall|i: int| 0 <= i < props.len() implies ((#[trigger] roles[i]) is DcCoeff <==> dc_names().contains(props[i].name)) by {
        lemma_role_names(props[i].name);
        assert(roles[i] == role_of(props[i].name));
        if dc_names().contains(props[i].name) {
            let j = choose|j: int| 0 <= j < dc_names().len() && dc_names()[j] == props[i].name;
            assert(j == 0 || j == 1 || j == 2);
        }
    }
    if last_named(props, dc_names()) is Some {
        let i = choose|i: int| 0 <= i < props.len() && dc_names().contains(#[trigger] props[i].name);
        assert(roles[i] is DcCoeff);
        assert(crate::layout::has_dc(roles));
    } else {
        assert(!crate::layout::has_dc(roles)) by {
            if crate::layout::has_dc(roles) {
                let i = choose|i: int| 0 <= i < roles.len() && (#[trigger] roles[i]) matches PropertyRole::DcCoeff(_);
                assert(dc_names().contains(props[i].name));
            }
        }
    }
}

/// Every character of `s` is a decimal digit.
pub open spec fn all_digits(s: Seq<char>) -> bool {
    forall|i: int| 0 <= i < s.len() ==> is_digit(#[trigger] s[i])
}

proof fn lemma_digit_run_append(a: Seq<char>, r: Seq<char>)
    requires
        all_digits(a),
    ensures
        digit_run(a + r) == a.len() + digit_run(r),
    decreases a.len(),
{
    if a.len() > 0 {
        assert((a + r)[0] == a[0]);
        assert((a + r).drop_first() =~= a.drop_first() + r);
        assert(all_digits(a.drop_first())) by {
            assert forall|i: int| 0 <= i < a.drop_first().len() implies is_digit(#[trigger] a.drop_first()[i]) by {
                assert(a.drop_first()[i] == a[i + 1]);
            }
        }
        lemma_digit_run_append(a.drop_first(), r);
    } else {
        assert(a + r =~= r);
    }
}

proof fn lemma_digit_run_stop(r: Seq<char>)
    requires
        r.len() > 0 ==> !is_digit(r[0]),
    ensures
        digit_run(r) == 0,
{
}

proof fn lemma_all_digits_run(e: Seq<char>)
    requires
        all_digits(e),
    ensures
        digit_run(e) == e.len(),
{
    lemma_digit_run_append(e, Seq::<char>::empty());
    assert(e + Seq::<char>::empty() =~= e);
}

proof fn lemma_exponents(e: Seq<char>)
    requires
        all_digits(e),
        e.len() > 0,
    ensures
        is_exponent(seq!['e'] + e),
        is_exponent(seq!['E', '-'] + e),
{
    lemma_all_digits_run(e);
    assert(is_digit(e[0]));
    assert(!is_digit('+') && !is_digit('-'));
    assert(ascii_lower('e') == 'e' && ascii_lower('E') == 'e');
    let ex = seq!['e'] + e;
    let exm = seq!['E', '-'] + e;
    assert(ex[0] == 'e' && ex[1] == e[0]);
    assert(ex.subrange(1, ex.len() as int) =~= e);
    assert(exm[0] == 'E' && exm[1] == '-');
    assert(exm.subrange(2, exm.len() as int) =~= e);
}

/// The sign is stripped before the number is read.
proof fn lemma_signed(sign: Seq<char>, x: Seq<char>)
    requires
        sign == Seq::<char>::empty() || sign == seq!['+'] || sign == seq!['-'],
        x.len() > 0,
        x[0] != '+' && x[0] != '-',
        is_decimal_number(x),
    ensures
        is_float_literal(sign + x),
{
    let s = sign + x;
    if sign.len() > 0 {
        assert(s[0] == sign[0]);
        assert(s.drop_first() =~= x);
    } else {
        assert(s =~= x);
    }
}

proof fn lemma_integer_form(a: Seq<char>, tail: Seq<char>)
    requires
        all_digits(a),
        a.len() > 0,
        tail.len() == 0 || (!is_digit(tail[0]) && tail[0] != '.' && is_exponent(tail)),
    ensures
        is_decimal_number(a + tail),
        (a + tail)[0] != '+' && (a + tail)[0] != '-',
{
    let s = a + tail;
    lemma_digit_run_append(a, tail);
    lemma_digit_run_stop(tail);
    assert(s.subrange(a.len() as int, s.len() as int) =~= tail);
    if tail.len() > 0 {
        assert(s[a.len() as int] == tail[0]);
    }
    assert(s[0] == a[0] && is_digit(a[0]));
    assert(!is_digit('+') && !is_digit('-'));
}

proof fn lemma_point_form(a: Seq<char>, b: Seq<char>, tail: Seq<char>)
    requires
        all_digits(a),
        all_digits(b),
        a.len() + b.len() > 0,
        tail.len() == 0 || (!is_digit(tail[0]) && is_exponent(tail)),
    ensures
        is_decimal_number(a + seq!['.'] + b + tail),
        (a + seq!['.'] + b + tail)[0] != '+' && (a + seq!['.'] + b + tail)[0] != '-',
{
    let s = a + seq!['.'] + b + tail;
    let rest = seq!['.'] + b + tail;
    assert(s =~= a + rest);
    assert(rest[0] == '.');
    assert(!is_digit('.') && !is_digit('+') && !is_digit('-'));
    lemma_digit_run_append(a, rest);
    lemma_digit_run_stop(rest);
    assert(s[a.len() as int] == '.');
    assert(s.subrange(a.len() + 1int, s.len() as int) =~= b + tail);
    lemma_digit_run_append(b, tail);
    lemma_digit_run_stop(tail);
    assert(s.subrange(a.len() + 1int + b.len(), s.len() as int) =~= tail);
    if a.len() > 0 {
        assert(s[0] == a[0] && is_digit(a[0]));
    } else {
        assert(s[0] == '.');
    }
}

/// Decimal float tokens are accepted in all the forms that `str::parse::<f32>` and
/// `str::parse::<f64>` accept: an optional sign, digits, a decimal point with
/// digits on either side or both, and an optional exponent; a sign or a point
/// alone is refused.
pub proof fn law_decimal_float_literals(sign: Seq<char>, a: Seq<char>, b: Seq<char>, e: Seq<char>)
    requires
        sign == Seq::<char>::empty() || sign == seq!['+'] || sign == seq!['-'],
        all_digits(a),
        all_digits(b),
        all_digits(e),
        e.len() > 0,
    ensures
        a.len() > 0 ==> is_float_literal(sign + a),
        a.len() + b.len() > 0 ==> is_float_literal(sign + a + seq!['.'] + b),
        a.len() + b.len() > 0 ==> is_float_literal(sign + a + seq!['.'] + b + seq!['e'] + e),
        a.len() > 0 ==> is_float_literal(sign + a + seq!['E', '-'] + e),
        !is_float_literal(sign + seq!['.']),
        !is_float_literal(sign),
{
    lemma_exponents(e);
    let ex = seq!['e'] + e;
    let exm = seq!['E', '-'] + e;
    let empty = Seq::<char>::empty();
    if a.len() > 0 {
        assert(is_float_literal(sign + a)) by {
            lemma_integer_form(a, empty);
            assert(a + empty =~= a);
            lemma_signed(sign, a);
        }
        assert(is_float_literal(sign + a + seq!['E', '-'] + e)) by {
            assert(exm[0] == 'E' && !is_digit('E'));
            lemma_integer_form(a, exm);
            lemma_signed(sign, a + exm);
            assert(sign + a + seq!['E', '-'] + e =~= sign + (a + exm));
        }
    }
    if a.len() + b.len() > 0 {
        assert(is_float_literal(sign + a + seq!['.'] + b)) by {
            lemma_point_form(a, b, empty);
            assert(a + seq!['.'] + b + empty =~= a + seq!['.'] + b);
            lemma_signed(sign, a + seq!['.'] + b);
            assert(sign + a + seq!['.'] + b =~= sign + (a + seq!['.'] + b));
        }
        assert(is_float_literal(sign + a + seq!['.'] + b + seq!['e'] + e)) by {
            assert(ex[0] == 'e' && !is_digit('e'));
            lemma_point_form(a, b, ex);
            lemma_signed(sign, a + seq!['.'] + b + ex);
            assert(sign + a + seq!['.'] + b + seq!['e'] + e =~= sign + (a + seq!['.'] + b + ex));
        }
    }
    lemma_lone(sign);
}

/// A sign, a point, or both, is no number.
proof fn lemma_lone(sign: Seq<char>)
    requires
        sign == Seq::<char>::empty() || sign == seq!['+'] || sign == seq!['-'],
    ensures
        !is_float_literal(sign + seq!['.']),
        !is_float_literal(sign),
{
    reveal_strlit("inf");
    reveal_strlit("infinity");
    reveal_strlit("nan");
    let dot = seq!['.'];
    assert(dot[0] == '.');
    assert(!is_digit('.'));
    lemma_digit_run_stop(dot);
    assert(dot.subrange(1, 1) =~= Seq::<char>::empty());
    lemma_digit_run_stop(Seq::<char>::empty());
    if sign.len() > 0 {
        assert((sign + dot)[0] == sign[0]);
        assert((sign + dot).drop_first() =~= dot);
        assert(sign.drop_first() =~= Seq::<char>::empty());
    } else {
        assert(sign + dot =~= dot);
        assert(dot[0] != '+' && dot[0] != '-');
    }
}

} // verus!
