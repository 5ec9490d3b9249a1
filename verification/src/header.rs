//! The PLY header: the data format and the properties of the `vertex` element.
//!
//! Only the vertex element is recorded; other elements are skipped, and a
//! property line counts only while the most recent `element` line named `vertex`.

use vstd::prelude::*;
use vstd::string::*;
use vstd::utf8::*;
use crate::error::{LoadErrorView, PlyLoadError};
use crate::number::{int_error_message, int_error_string, parse_usize, parse_usize_span};
use crate::text::{
    copy_span, line_spans, lines, span_eq_str, span_starts_with_str, span_texts, spans_within,
    split_whitespace, split_whitespace_spans, starts_with, str_eq, string_of, trim, trim_span,
};
use crate::unicode::{decode_utf8_range, utf8_error_message, utf8_failure_message};

verus! {

/// Encoding of the vertex data.
#[derive(Clone, Copy, Debug, PartialEq, Eq, Structural)]
pub enum PlyFormat {
    Ascii,
    BinaryLittleEndian,
}

/// Type of one property value.
#[derive(Clone, Copy, Debug, PartialEq, Eq, Structural)]
pub enum ScalarType {
    I8,
    U8,
    I16,
    U16,
    I32,
    U32,
    F32,
    F64,
}

/// One property of the vertex element.
#[derive(Debug)]
pub struct Property {
    pub name: Vec<char>,
    pub scalar_type: ScalarType,
}

/// The header facts that decoding needs.
#[derive(Debug)]
pub struct PlyHeader {
    pub format: PlyFormat,
    pub vertex_count: usize,
    pub properties: Vec<Property>,
    /// Offset of the first byte after the header.
    pub data_offset: usize,
}

pub struct PropertyView {
    pub name: Seq<char>,
    pub scalar_type: ScalarType,
}

pub struct HeaderView {
    pub format: PlyFormat,
    pub vertex_count: nat,
    pub properties: Seq<PropertyView>,
    pub data_offset: nat,
}

impl View for Property {
    type V = PropertyView;

    open spec fn view(&self) -> PropertyView {
        PropertyView { name: self.name@, scalar_type: self.scalar_type }
    }
}

pub open spec fn properties_view(ps: Seq<Property>) -> Seq<PropertyView> {
    ps.map_values(|p: Property| p@)
}

impl View for PlyHeader {
    type V = HeaderView;

    open spec fn view(&self) -> HeaderView {
        HeaderView {
            format: self.format,
            vertex_count: self.vertex_count as nat,
            properties: properties_view(self.properties@),
            data_offset: self.data_offset as nat,
        }
    }
}

/// The scalar type that a PLY type name denotes.
pub open spec fn scalar_type_of(t: Seq<char>) -> Option<ScalarType> {
    if t == "char"@ || t == "int8"@ {
        Some(ScalarType::I8)
    } else if t == "uchar"@ || t == "uint8"@ {
        Some(ScalarType::U8)
    } else if t == "short"@ || t == "int16"@ {
        Some(ScalarType::I16)
    } else if t == "ushort"@ || t == "uint16"@ {
        Some(ScalarType::U16)
    } else if t == "int"@ || t == "int32"@ {
        Some(ScalarType::I32)
    } else if t == "uint"@ || t == "uint32"@ {
        Some(ScalarType::U32)
    } else if t == "float"@ || t == "float32"@ {
        Some(ScalarType::F32)
    } else if t == "double"@ || t == "float64"@ {
        Some(ScalarType::F64)
    } else {
        None
    }
}

/// Number of bytes of one value of the type in binary data.
pub open spec fn scalar_width(t: ScalarType) -> nat {
    match t {
        ScalarType::I8 | ScalarType::U8 => 1,
        ScalarType::I16 | ScalarType::U16 => 2,
        ScalarType::I32 | ScalarType::U32 | ScalarType::F32 => 4,
        ScalarType::F64 => 8,
    }
}

/// `end_header` followed by `"\n"`.
pub open spec fn end_header_lf() -> Seq<u8> {
    seq![101u8, 110, 100, 95, 104, 101, 97, 100, 101, 114, 10]
}

/// `end_header` followed by `"\r\n"`.
pub open spec fn end_header_crlf() -> Seq<u8> {
    seq![101u8, 110, 100, 95, 104, 101, 97, 100, 101, 114, 13, 10]
}

/// `p` occurs in `h` at `i`.
pub open spec fn occurs_at(h: Seq<u8>, p: Seq<u8>, i: int) -> bool {
    0 <= i && i + p.len() <= h.len() && h.subrange(i, i + p.len()) == p
}

/// The first position at or after `i` where `p` occurs in `h`.
pub open spec fn find_from(h: Seq<u8>, p: Seq<u8>, i: nat) -> Option<nat>
    decreases h.len() + 1 - i,
{
    if i + p.len() > h.len() {
        None
    } else if occurs_at(h, p, i as int) {
        Some(i)
    } else {
        find_from(h, p, i + 1)
    }
}

/// Offset just past the header: the first `end_header\n`, else the first
/// `end_header\r\n`.
pub open spec fn header_end(b: Seq<u8>) -> Option<nat> {
    match find_from(b, end_header_lf(), 0) {
        Some(i) => Some(i + 11),
        None => match find_from(b, end_header_crlf(), 0) {
            Some(i) => Some(i + 12),
            None => None,
        },
    }
}

/// What the header lines have established so far.
pub struct ScanState {
    pub format: Option<PlyFormat>,
    pub vertex_count: Option<nat>,
    pub properties: Seq<PropertyView>,
    pub in_vertex: bool,
}

pub open spec fn initial_scan() -> ScanState {
    ScanState { format: None, vertex_count: None, properties: seq![], in_vertex: false }
}

/// The `i`-th token of `toks`, or no characters when there is none.
pub open spec fn token_or_empty(toks: Seq<Seq<char>>, i: int) -> Seq<char> {
    if 0 <= i < toks.len() {
        toks[i]
    } else {
        Seq::empty()
    }
}

/// The effect of one header line after the magic line.
pub open spec fn scan_line(st: ScanState, line: Seq<char>) -> Result<ScanState, LoadErrorView> {
    let l = trim(line);
    if l.len() == 0 || l == "end_header"@ || starts_with(l, "comment"@) {
        Ok(st)
    } else {
        let toks = split_whitespace(l);
        let kw = token_or_empty(toks, 0);
        let arg = token_or_empty(toks, 1);
        if kw == "format"@ {
            if arg == "ascii"@ {
                Ok(ScanState { format: Some(PlyFormat::Ascii), ..st })
            } else if arg == "binary_little_endian"@ {
                Ok(ScanState { format: Some(PlyFormat::BinaryLittleEndian), ..st })
            } else {
                Err(LoadErrorView::Unsupported(arg))
            }
        } else if kw == "element"@ {
            if toks.len() > 1 && toks[1] == "vertex"@ {
                if toks.len() > 2 {
                    match parse_usize(toks[2]) {
                        Ok(n) => Ok(
                            ScanState { in_vertex: true, vertex_count: Some(n as nat), ..st },
                        ),
                        Err(k) => Err(LoadErrorView::Header(int_error_message(k))),
                    }
                } else {
                    Err(LoadErrorView::Header("vertex count missing"@))
                }
            } else {
                Ok(ScanState { in_vertex: false, ..st })
            }
        } else if kw == "property"@ && st.in_vertex {
            if toks.len() > 1 {
                match scalar_type_of(toks[1]) {
                    None => Err(LoadErrorView::Unsupported(toks[1])),
                    Some(t) => if toks.len() > 2 {
                        Ok(
                            ScanState {
                                properties: st.properties.push(
                                    PropertyView { name: toks[2], scalar_type: t },
                                ),
                                ..st
                            },
                        )
                    } else {
                        Err(LoadErrorView::Header("property name missing"@))
                    },
                }
            } else {
                Err(LoadErrorView::Header("property type missing"@))
            }
        } else {
            Ok(st)
        }
    }
}

/// The effect of the header lines `ls`, in order, stopping at the first error.
pub open spec fn scan_lines(st: ScanState, ls: Seq<Seq<char>>) -> Result<ScanState, LoadErrorView>
    decreases ls.len(),
{
    if ls.len() == 0 {
        Ok(st)
    } else {
        match scan_line(st, ls[0]) {
            Ok(next) => scan_lines(next, ls.drop_first()),
            Err(e) => Err(e),
        }
    }
}

/// The header that the scanned lines establish, the data starting at `end`.
pub open spec fn finish_scan(r: Result<ScanState, LoadErrorView>, end: nat) -> Result<
    HeaderView,
    LoadErrorView,
> {
    match r {
        Err(e) => Err(e),
        Ok(st) => match st.format {
            None => Err(LoadErrorView::Header("missing format"@)),
            Some(f) => match st.vertex_count {
                None => Err(LoadErrorView::Header("missing vertex element"@)),
                Some(n) => Ok(
                    HeaderView {
                        format: f,
                        vertex_count: n,
                        properties: st.properties,
                        data_offset: end,
                    },
                ),
            },
        },
    }
}

/// The header of the PLY bytes `b`, or the error that loading reports for it.
pub open spec fn spec_parse_header(b: Seq<u8>) -> Result<HeaderView, LoadErrorView> {
    match header_end(b) {
        None => Err(LoadErrorView::Header("missing end_header"@)),
        Some(end) => {
            let hb = b.subrange(0, end as int);
            if !valid_utf8(hb) {
                Err(LoadErrorView::Header(utf8_error_message(hb)))
            } else {
                let ls = lines(decode_utf8(hb));
                if ls.len() == 0 {
                    Err(LoadErrorView::Header("missing magic"@))
                } else if trim(ls[0]) != "ply"@ {
                    Err(LoadErrorView::Header("missing `ply` magic"@))
                } else {
                    finish_scan(scan_lines(initial_scan(), ls.drop_first()), end)
                }
            }
        },
    }
}

/// Parses a PLY type name (`float`, `uchar`, ...).
pub fn parse_scalar_type(token: &str) -> (r: Result<ScalarType, PlyLoadError>)
    ensures
        match scalar_type_of(token@) {
            Some(t) => r == Ok::<ScalarType, PlyLoadError>(t),
            None => r matches Err(e) && e@ == LoadErrorView::Unsupported(token@),
        },
{
    if str_eq(token, "char") || str_eq(token, "int8") {
        Ok(ScalarType::I8)
    } else if str_eq(token, "uchar") || str_eq(token, "uint8") {
        Ok(ScalarType::U8)
    } else if str_eq(token, "short") || str_eq(token, "int16") {
        Ok(ScalarType::I16)
    } else if str_eq(token, "ushort") || str_eq(token, "uint16") {
        Ok(ScalarType::U16)
    } else if str_eq(token, "int") || str_eq(token, "int32") {
        Ok(ScalarType::I32)
    } else if str_eq(token, "uint") || str_eq(token, "uint32") {
        Ok(ScalarType::U32)
    } else if str_eq(token, "float") || str_eq(token, "float32") {
        Ok(ScalarType::F32)
    } else if str_eq(token, "double") || str_eq(token, "float64") {
        Ok(ScalarType::F64)
    } else {
        Err(PlyLoadError::Unsupported(token.to_owned()))
    }
}

/// The scalar type named by `v[start..end]`.
fn scalar_type_of_span(v: &Vec<char>, start: usize, end: usize) -> (r: Option<ScalarType>)
    requires
        start <= end <= v@.len(),
    ensures
        r == scalar_type_of(v@.subrange(start as int, end as int)),
{
    if span_eq_str(v, start, end, "char") || span_eq_str(v, start, end, "int8") {
        Some(ScalarType::I8)
    } else if span_eq_str(v, start, end, "uchar") || span_eq_str(v, start, end, "uint8") {
        Some(ScalarType::U8)
    } else if span_eq_str(v, start, end, "short") || span_eq_str(v, start, end, "int16") {
        Some(ScalarType::I16)
    } else if span_eq_str(v, start, end, "ushort") || span_eq_str(v, start, end, "uint16") {
        Some(ScalarType::U16)
    } else if span_eq_str(v, start, end, "int") || span_eq_str(v, start, end, "int32") {
        Some(ScalarType::I32)
    } else if span_eq_str(v, start, end, "uint") || span_eq_str(v, start, end, "uint32") {
        Some(ScalarType::U32)
    } else if span_eq_str(v, start, end, "float") || span_eq_str(v, start, end, "float32") {
        Some(ScalarType::F32)
    } else if span_eq_str(v, start, end, "double") || span_eq_str(v, start, end, "float64") {
        Some(ScalarType::F64)
    } else {
        None
    }
}

/// Number of bytes of one value of the type in binary data.
pub fn scalar_byte_width(t: ScalarType) -> (n: usize)
    ensures
        n == scalar_width(t),
{
    match t {
        ScalarType::I8 | ScalarType::U8 => 1,
        ScalarType::I16 | ScalarType::U16 => 2,
        ScalarType::I32 | ScalarType::U32 | ScalarType::F32 => 4,
        ScalarType::F64 => 8,
    }
}

/// The first position at or after `from` where `p` occurs in `h`.
fn find_bytes(h: &[u8], p: &Vec<u8>, from: usize) -> (r: Option<usize>)
    requires
        from <= h@.len(),
        p@.len() >= 1,
    ensures
        match r {
            Some(i) => find_from(h@, p@, from as nat) == Some(i as nat) && i + p@.len() <= h@.len(),
            None => find_from(h@, p@, from as nat) is None,
        },
    decreases h@.len() - from,
{
    let n = p.len();
    let hl = h.len();
    if n > hl - from {
        return None;
    }
    let mut k: usize = 0;
    let mut same = true;
    while k < n
        invariant
            from + n <= hl,
            hl == h@.len(),
            n == p@.len(),
            k <= n,
            same == (forall|j: int| 0 <= j < k ==> h@[from + j] == p@[j]),
        decreases n - k,
    {
        if h[from + k] != p[k] {
            same = false;
        }
        k = k + 1;
    }
    if same {
        assert(h@.subrange(from as int, from + n) =~= p@);
        Some(from)
    } else {
        assert(!occurs_at(h@, p@, from as int)) by {
            if occurs_at(h@, p@, from as int) {
                assert forall|j: int| 0 <= j < n implies h@[from + j] == p@[j] by {
                    assert(h@.subrange(from as int, from + n)[j] == p@[j]);
                }
            }
        }
        find_bytes(h, p, from + 1)
    }
}

/// Offset just past the header (see `header_end`).
fn find_header_end(b: &[u8]) -> (r: Option<usize>)
    ensures
        match r {
            Some(e) => header_end(b@) == Some(e as nat) && e <= b@.len(),
            None => header_end(b@) is None,
        },
{
    let bl = b.len();
    let lf: Vec<u8> = vec![101u8, 110, 100, 95, 104, 101, 97, 100, 101, 114, 10];
    let crlf: Vec<u8> = vec![101u8, 110, 100, 95, 104, 101, 97, 100, 101, 114, 13, 10];
    assert(lf@ =~= end_header_lf());
    assert(crlf@ =~= end_header_crlf());
    match find_bytes(b, &lf, 0) {
        Some(i) => Some(i + 11),
        None => match find_bytes(b, &crlf, 0) {
            Some(i) => Some(i + 12),
            None => None,
        },
    }
}

/// Exec form of `ScanState`.
struct Scan {
    format: Option<PlyFormat>,
    vertex_count: Option<usize>,
    properties: Vec<Property>,
    in_vertex: bool,
}

impl Scan {
    spec fn state(&self) -> ScanState {
        ScanState {
            format: self.format,
            vertex_count: match self.vertex_count {
                Some(n) => Some(n as nat),
                None => None,
            },
            properties: properties_view(self.properties@),
            in_vertex: self.in_vertex,
        }
    }
}

/// Applies the header line `v[start..end]` to `st` (see `scan_line`).
fn scan_one_line(st: &mut Scan, v: &Vec<char>, start: usize, end: usize) -> (r: Result<(), PlyLoadError>)
    requires
        start <= end <= v@.len(),
    ensures
        match scan_line(old(st).state(), v@.subrange(start as int, end as int)) {
            Ok(next) => r is Ok && final(st).state() == next,
            Err(e) => r matches Err(x) && x@ == e,
        },
{
    let (a, b) = trim_span(v, start, end);
    if a == b || span_eq_str(v, a, b, "end_header") || span_starts_with_str(v, a, b, "comment") {
        return Ok(());
    }
    let toks = split_whitespace_spans(v, a, b);
    let ghost ts = span_texts(v@, toks@);
    assert(ts == split_whitespace(trim(v@.subrange(start as int, end as int))));
    assert(ts.len() == toks@.len());
    let mut kw_is_format = false;
    let mut kw_is_element = false;
    let mut kw_is_property = false;
    if toks.len() > 0 {
        let (s0, e0) = toks[0];
        assert(ts[0] == v@.subrange(s0 as int, e0 as int));
        kw_is_format = span_eq_str(v, s0, e0, "format");
        kw_is_element = span_eq_str(v, s0, e0, "element");
        kw_is_property = span_eq_str(v, s0, e0, "property");
    } else {
        proof {
            reveal_strlit("format");
            reveal_strlit("element");
            reveal_strlit("property");
            assert(token_or_empty(ts, 0).len() == 0);
        }
    }
    if kw_is_format {
        if toks.len() > 1 {
            let (s1, e1) = toks[1];
            assert(ts[1] == v@.subrange(s1 as int, e1 as int));
            if span_eq_str(v, s1, e1, "ascii") {
                st.format = Some(PlyFormat::Ascii);
                return Ok(());
            } else if span_eq_str(v, s1, e1, "binary_little_endian") {
                st.format = Some(PlyFormat::BinaryLittleEndian);
                return Ok(());
            } else {
                let name = copy_span(v, s1, e1);
                let mut m = String::new();
                crate::text::push_chars(&mut m, &name);
                assert(m@ =~= ts[1]);
                return Err(PlyLoadError::Unsupported(m));
            }
        } else {
            proof {
                reveal_strlit("ascii");
                reveal_strlit("binary_little_endian");
            }
            assert(token_or_empty(ts, 1) =~= Seq::<char>::empty());
            return Err(PlyLoadError::Unsupported(String::new()));
        }
    } else if kw_is_element {
        let mut is_vertex = false;
        if toks.len() > 1 {
            let (s1, e1) = toks[1];
            assert(ts[1] == v@.subrange(s1 as int, e1 as int));
            is_vertex = span_eq_str(v, s1, e1, "vertex");
        }
        if is_vertex {
            if toks.len() > 2 {
                let (s2, e2) = toks[2];
                assert(ts[2] == v@.subrange(s2 as int, e2 as int));
                match parse_usize_span(v, s2, e2) {
                    Ok(n) => {
                        st.in_vertex = true;
                        st.vertex_count = Some(n);
                        return Ok(());
                    },
                    Err(k) => {
                        return Err(PlyLoadError::Header(int_error_string(k)));
                    },
                }
            } else {
                return Err(PlyLoadError::Header(string_of("vertex count missing")));
            }
        } else {
            st.in_vertex = false;
            return Ok(());
        }
    } else if kw_is_property && st.in_vertex {
        if toks.len() > 1 {
            let (s1, e1) = toks[1];
            assert(ts[1] == v@.subrange(s1 as int, e1 as int));
            match scalar_type_of_span(v, s1, e1) {
                None => {
                    let name = copy_span(v, s1, e1);
                    let mut m = String::new();
                    crate::text::push_chars(&mut m, &name);
                    assert(m@ =~= ts[1]);
                    return Err(PlyLoadError::Unsupported(m));
                },
                Some(t) => {
                    if toks.len() > 2 {
                        let (s2, e2) = toks[2];
                        assert(ts[2] == v@.subrange(s2 as int, e2 as int));
                        let name = copy_span(v, s2, e2);
                        let ghost old_props = st.properties@;
                        st.properties.push(Property { name, scalar_type: t });
                        assert(properties_view(st.properties@) =~= properties_view(
                            old_props,
                        ).push(PropertyView { name: ts[2], scalar_type: t }));
                        return Ok(());
                    } else {
                        return Err(PlyLoadError::Header(string_of("property name missing")));
                    }
                },
            }
        } else {
            return Err(PlyLoadError::Header(string_of("property type missing")));
        }
    } else {
        return Ok(());
    }
}

/// Parses the header of a PLY file held in `bytes`.
///
/// The header ends at the first `end_header\n` (else the first `end_header\r\n`),
/// must be UTF-8, must start with the line `ply`, and must name a supported format
/// and a `vertex` element with its count.
pub fn parse_header(bytes: &[u8]) -> (r: Result<PlyHeader, PlyLoadError>)
    ensures
        r matches Ok(h) ==> spec_parse_header(bytes@) == Ok::<HeaderView, LoadErrorView>(h@),
        r matches Ok(h) ==> h.data_offset <= bytes@.len(),
        r matches Err(e) ==> spec_parse_header(bytes@) == Err::<HeaderView, LoadErrorView>(e@),
{
    let end = match find_header_end(bytes) {
        Some(e) => e,
        None => {
            return Err(PlyLoadError::Header(string_of("missing end_header")));
        },
    };
    let ghost hb = bytes@.subrange(0, end as int);
    let chars = match decode_utf8_range(bytes, 0, end) {
        Ok(cs) => cs,
        Err(f) => {
            return Err(PlyLoadError::Header(utf8_failure_message(&f)));
        },
    };
    let spans = line_spans(&chars, 0, chars.len());
    let ghost ls = span_texts(chars@, spans@);
    assert(chars@.subrange(0, chars@.len() as int) =~= chars@);
    assert(ls == lines(decode_utf8(hb)));
    if spans.len() == 0 {
        return Err(PlyLoadError::Header(string_of("missing magic")));
    }
    let (m0, m1) = spans[0];
    assert(ls[0] == chars@.subrange(m0 as int, m1 as int));
    let (t0, t1) = trim_span(&chars, m0, m1);
    if !span_eq_str(&chars, t0, t1, "ply") {
        return Err(PlyLoadError::Header(string_of("missing `ply` magic")));
    }
    let mut st = Scan { format: None, vertex_count: None, properties: Vec::new(), in_vertex: false };
    assert(properties_view(st.properties@) =~= Seq::<PropertyView>::empty());
    assert(spec_parse_header(bytes@) == finish_scan(
        scan_lines(initial_scan(), ls.drop_first()),
        end as nat,
    ));
    let mut k: usize = 1;
    while k < spans.len()
        invariant
            spec_parse_header(bytes@) == finish_scan(
                scan_lines(initial_scan(), ls.drop_first()),
                end as nat,
            ),
            1 <= k <= spans@.len(),
            ls == span_texts(chars@, spans@),
            spans_within(spans@, chars@.len() as int),
            scan_lines(initial_scan(), ls.drop_first()) == scan_lines(
                st.state(),
                ls.subrange(k as int, ls.len() as int),
            ),
        decreases spans@.len() - k,
    {
        let (s, e) = spans[k];
        assert(spans@[k as int].0 <= spans@[k as int].1 <= chars@.len());
        let ghost rest = ls.subrange(k as int, ls.len() as int);
        let ghost prev = st.state();
        assert(rest[0] == chars@.subrange(s as int, e as int));
        assert(rest.drop_first() =~= ls.subrange(k + 1, ls.len() as int));
        match scan_one_line(&mut st, &chars, s, e) {
            Ok(()) => {},
            Err(x) => {
                assert(scan_lines(prev, rest) == Err::<ScanState, LoadErrorView>(x@));
                return Err(x);
            },
        }
        k = k + 1;
    }
    assert(ls.subrange(k as int, ls.len() as int) =~= Seq::<Seq<char>>::empty());
    assert(ls.drop_first() =~= ls.subrange(1, ls.len() as int));
    let format = match st.format {
        Some(f) => f,
        None => {
            return Err(PlyLoadError::Header(string_of("missing format")));
        },
    };
    let vertex_count = match st.vertex_count {
        Some(n) => n,
        None => {
            return Err(PlyLoadError::Header(string_of("missing vertex element")));
        },
    };
    Ok(PlyHeader { format, vertex_count, properties: st.properties, data_offset: end })
}

} // verus!
