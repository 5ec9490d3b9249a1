//! Character-level text primitives with the semantics of `str::trim`,
//! `str::split_whitespace`, `str::lines` and `usize`'s `Display`.
//!
//! Text is held as a `Vec<char>` and addressed by half-open spans, so that no
//! line or token is copied while a file is scanned.

use vstd::prelude::*;
use vstd::string::*;

verus! {

/// `String::push` appends one character.
pub assume_specification[ String::push ](s: &mut String, ch: char)
    ensures
        final(s)@ == old(s)@.push(ch),
;

/// The Unicode `White_Space` property, which `char::is_whitespace` tests.
pub open spec fn is_whitespace(c: char) -> bool {
    let u = c as u32;
    ||| 0x09 <= u <= 0x0d
    ||| u == 0x20
    ||| u == 0x85
    ||| u == 0xa0
    ||| u == 0x1680
    ||| 0x2000 <= u <= 0x200a
    ||| u == 0x2028
    ||| u == 0x2029
    ||| u == 0x202f
    ||| u == 0x205f
    ||| u == 0x3000
}

/// `s` with its leading whitespace removed.
pub open spec fn trim_start(s: Seq<char>) -> Seq<char>
    decreases s.len(),
{
    if s.len() > 0 && is_whitespace(s[0]) {
        trim_start(s.drop_first())
    } else {
        s
    }
}

/// `s` with its trailing whitespace removed.
pub open spec fn trim_end(s: Seq<char>) -> Seq<char>
    decreases s.len(),
{
    if s.len() > 0 && is_whitespace(s.last()) {
        trim_end(s.drop_last())
    } else {
        s
    }
}

/// `str::trim`: both ends stripped of whitespace.
pub open spec fn trim(s: Seq<char>) -> Seq<char> {
    trim_end(trim_start(s))
}

/// `s` starts with `p`.
pub open spec fn starts_with(s: Seq<char>, p: Seq<char>) -> bool {
    p.len() <= s.len() && s.subrange(0, p.len() as int) == p
}

/// Length of the run of non-whitespace characters at the start of `s`.
pub open spec fn token_len(s: Seq<char>) -> nat
    decreases s.len(),
{
    if s.len() == 0 || is_whitespace(s[0]) {
        0
    } else {
        1 + token_len(s.drop_first())
    }
}

pub proof fn lemma_token_len(s: Seq<char>)
    ensures
        token_len(s) <= s.len(),
        s.len() > 0 && !is_whitespace(s[0]) ==> token_len(s) >= 1,
    decreases s.len(),
{
    if s.len() > 0 {
        lemma_token_len(s.drop_first());
    }
}

/// `str::split_whitespace`: the maximal runs of non-whitespace characters, in order.
pub open spec fn split_whitespace(s: Seq<char>) -> Seq<Seq<char>>
    decreases s.len(),
{
    if s.len() == 0 {
        seq![]
    } else if is_whitespace(s[0]) {
        split_whitespace(s.drop_first())
    } else {
        let k = token_len(s);
        if 1 <= k <= s.len() {
            seq![s.subrange(0, k as int)] + split_whitespace(s.subrange(k as int, s.len() as int))
        } else {
            seq![]
        }
    }
}

/// Number of characters before the first `'\n'` of `s` (all of `s` when there is none).
pub open spec fn line_len(s: Seq<char>) -> nat
    decreases s.len(),
{
    if s.len() == 0 || s[0] == '\n' {
        0
    } else {
        1 + line_len(s.drop_first())
    }
}

pub proof fn lemma_line_len(s: Seq<char>)
    ensures
        line_len(s) <= s.len(),
        line_len(s) < s.len() ==> s[line_len(s) as int] == '\n',
        forall|j: int| 0 <= j < line_len(s) ==> s[j] != '\n',
    decreases s.len(),
{
    if s.len() > 0 && s[0] != '\n' {
        lemma_line_len(s.drop_first());
        assert forall|j: int| 0 <= j < line_len(s) implies s[j] != '\n' by {
            if j > 0 {
                assert(s[j] == s.drop_first()[j - 1]);
            }
        }
    }
}

/// A line that was ended by `"\r\n"` loses its `'\r'`.
pub open spec fn strip_cr(l: Seq<char>) -> Seq<char> {
    if l.len() > 0 && l.last() == '\r' {
        l.drop_last()
    } else {
        l
    }
}

/// `str::lines`: pieces between `'\n'`, without a trailing empty piece, and with the
/// `'\r'` of a `"\r\n"` ending removed.
pub open spec fn lines(s: Seq<char>) -> Seq<Seq<char>>
    decreases s.len(),
{
    if s.len() == 0 {
        seq![]
    } else {
        let k = line_len(s);
        if k >= s.len() {
            seq![s]
        } else {
            seq![strip_cr(s.subrange(0, k as int))] + lines(s.subrange(k + 1int, s.len() as int))
        }
    }
}

/// The texts that a list of spans cut out of `v`.
pub open spec fn span_texts(v: Seq<char>, spans: Seq<(usize, usize)>) -> Seq<Seq<char>> {
    spans.map_values(|p: (usize, usize)| v.subrange(p.0 as int, p.1 as int))
}

/// Spans that lie inside `v` and are ordered.
pub open spec fn spans_within(spans: Seq<(usize, usize)>, len: int) -> bool {
    forall|i: int| 0 <= i < spans.len() ==> (#[trigger] spans[i]).0 <= spans[i].1 <= len
}

/// The character of a decimal digit.
pub open spec fn digit_char(d: nat) -> char {
    if d == 0 {
        '0'
    } else if d == 1 {
        '1'
    } else if d == 2 {
        '2'
    } else if d == 3 {
        '3'
    } else if d == 4 {
        '4'
    } else if d == 5 {
        '5'
    } else if d == 6 {
        '6'
    } else if d == 7 {
        '7'
    } else if d == 8 {
        '8'
    } else {
        '9'
    }
}

/// The decimal representation of `n`, as `Display` writes an unsigned integer.
pub open spec fn decimal(n: nat) -> Seq<char>
    decreases n,
{
    if n < 10 {
        seq![digit_char(n)]
    } else {
        decimal(n / 10).push(digit_char(n % 10))
    }
}

pub fn char_is_whitespace(c: char) -> (b: bool)
    ensures
        b == is_whitespace(c),
{
    let u = c as u32;
    (0x09 <= u && u <= 0x0d) || u == 0x20 || u == 0x85 || u == 0xa0 || u == 0x1680 || (0x2000
        <= u && u <= 0x200a) || u == 0x2028 || u == 0x2029 || u == 0x202f || u == 0x205f || u
        == 0x3000
}

/// The span of `v[start..end]` that `trim` keeps.
pub fn trim_span(v: &Vec<char>, start: usize, end: usize) -> (r: (usize, usize))
    requires
        start <= end <= v@.len(),
    ensures
        start <= r.0 <= r.1 <= end,
        v@.subrange(r.0 as int, r.1 as int) == trim(v@.subrange(start as int, end as int)),
{
    let mut i = start;
    while i < end && char_is_whitespace(v[i])
        invariant
            start <= i <= end <= v@.len(),
            trim_start(v@.subrange(start as int, end as int)) == trim_start(
                v@.subrange(i as int, end as int),
            ),
        decreases end - i,
    {
        assert(v@.subrange(i as int, end as int).drop_first() =~= v@.subrange(
            i + 1,
            end as int,
        ));
        i = i + 1;
    }
    let ghost t = v@.subrange(i as int, end as int);
    assert(trim_start(v@.subrange(start as int, end as int)) == t);
    let mut j = end;
    while j > i && char_is_whitespace(v[j - 1])
        invariant
            start <= i <= j <= end <= v@.len(),
            t == v@.subrange(i as int, end as int),
            trim_end(t) == trim_end(v@.subrange(i as int, j as int)),
        decreases j - i,
    {
        assert(v@.subrange(i as int, j as int).drop_last() =~= v@.subrange(i as int, j - 1));
        j = j - 1;
    }
    (i, j)
}

/// The spans of the tokens of `v[start..end]`, as `split_whitespace` cuts them.
pub fn split_whitespace_spans(v: &Vec<char>, start: usize, end: usize) -> (r: Vec<(usize, usize)>)
    requires
        start <= end <= v@.len(),
    ensures
        spans_within(r@, v@.len() as int),
        span_texts(v@, r@) == split_whitespace(v@.subrange(start as int, end as int)),
{
    let mut spans: Vec<(usize, usize)> = Vec::new();
    let mut i = start;
    while i < end
        invariant
            start <= i <= end <= v@.len(),
            spans_within(spans@, v@.len() as int),
            span_texts(v@, spans@) + split_whitespace(v@.subrange(i as int, end as int))
                == split_whitespace(v@.subrange(start as int, end as int)),
        decreases end - i,
    {
        let ghost s = v@.subrange(i as int, end as int);
        if char_is_whitespace(v[i]) {
            assert(s.drop_first() =~= v@.subrange(i + 1, end as int));
            i = i + 1;
        } else {
            let mut j = i + 1;
            proof {
                assert(s.drop_first() =~= v@.subrange(i + 1, end as int));
            }
            while j < end && !char_is_whitespace(v[j])
                invariant
                    i < j <= end <= v@.len(),
                    s == v@.subrange(i as int, end as int),
                    token_len(s) == (j - i) + token_len(v@.subrange(j as int, end as int)),
                decreases end - j,
            {
                assert(v@.subrange(j as int, end as int).drop_first() =~= v@.subrange(
                    j + 1,
                    end as int,
                ));
                j = j + 1;
            }
            assert(token_len(s) == j - i);
            assert(s.subrange(0, (j - i) as int) =~= v@.subrange(i as int, j as int));
            assert(s.subrange((j - i) as int, s.len() as int) =~= v@.subrange(
                j as int,
                end as int,
            ));
            let ghost old_spans = spans@;
            spans.push((i, j));
            assert(span_texts(v@, spans@) =~= span_texts(v@, old_spans).push(
                v@.subrange(i as int, j as int),
            ));
            assert(span_texts(v@, spans@) + split_whitespace(v@.subrange(j as int, end as int))
                =~= span_texts(v@, old_spans) + split_whitespace(s));
            i = j;
        }
    }
    assert(split_whitespace(v@.subrange(i as int, end as int)) =~= seq![]);
    assert(span_texts(v@, spans@) + seq![] =~= span_texts(v@, spans@));
    spans
}

/// The spans of the lines of `v[start..end]`, as `lines` cuts them.
pub fn line_spans(v: &Vec<char>, start: usize, end: usize) -> (r: Vec<(usize, usize)>)
    requires
        start <= end <= v@.len(),
    ensures
        spans_within(r@, v@.len() as int),
        span_texts(v@, r@) == lines(v@.subrange(start as int, end as int)),
{
    let mut spans: Vec<(usize, usize)> = Vec::new();
    let mut i = start;
    while i < end
        invariant
            start <= i <= end <= v@.len(),
            spans_within(spans@, v@.len() as int),
            span_texts(v@, spans@) + lines(v@.subrange(i as int, end as int)) == lines(
                v@.subrange(start as int, end as int),
            ),
        decreases end - i,
    {
        let ghost s = v@.subrange(i as int, end as int);
        let mut j = i;
        while j < end && v[j] != '\n'
            invariant
                i <= j <= end <= v@.len(),
                s == v@.subrange(i as int, end as int),
                line_len(s) == (j - i) + line_len(v@.subrange(j as int, end as int)),
            decreases end - j,
        {
            assert(v@.subrange(j as int, end as int).drop_first() =~= v@.subrange(
                j + 1,
                end as int,
            ));
            j = j + 1;
        }
        assert(line_len(s) == j - i);
        let ghost old_spans = spans@;
        if j == end {
            assert(s.len() == j - i);
            spans.push((i, j));
            assert(span_texts(v@, spans@) =~= span_texts(v@, old_spans).push(s));
            assert(lines(v@.subrange(end as int, end as int)) =~= seq![]);
            assert(span_texts(v@, spans@) + lines(v@.subrange(end as int, end as int))
                =~= span_texts(v@, old_spans) + lines(s));
            i = end;
        } else {
            let mut k = j;
            if k > i && v[k - 1] == '\r' {
                k = k - 1;
            }
            assert(s.subrange(0, (j - i) as int) =~= v@.subrange(i as int, j as int));
            assert(strip_cr(v@.subrange(i as int, j as int)) =~= v@.subrange(
                i as int,
                k as int,
            ));
            assert(s.subrange((j - i) + 1, s.len() as int) =~= v@.subrange(
                j + 1,
                end as int,
            ));
            spans.push((i, k));
            assert(span_texts(v@, spans@) =~= span_texts(v@, old_spans).push(
                v@.subrange(i as int, k as int),
            ));
            assert(span_texts(v@, spans@) + lines(v@.subrange(j + 1, end as int))
                =~= span_texts(v@, old_spans) + lines(s));
            i = j + 1;
        }
    }
    assert(lines(v@.subrange(i as int, end as int)) =~= seq![]);
    assert(span_texts(v@, spans@) + seq![] =~= span_texts(v@, spans@));
    spans
}

/// Whether `v[start..end]` is the text of `s`.
pub fn span_eq_str(v: &Vec<char>, start: usize, end: usize, s: &str) -> (b: bool)
    requires
        start <= end <= v@.len(),
    ensures
        b == (v@.subrange(start as int, end as int) == s@),
{
    let n = s.unicode_len();
    if n != end - start {
        return false;
    }
    let mut i: usize = 0;
    while i < n
        invariant
            n == end - start,
            n == s@.len(),
            start <= end <= v@.len(),
            i <= n,
            forall|j: int| 0 <= j < i ==> v@[start + j] == s@[j],
        decreases n - i,
    {
        if v[start + i] != s.get_char(i) {
            return false;
        }
        i = i + 1;
    }
    assert(v@.subrange(start as int, end as int) =~= s@);
    true
}

/// Whether `v[start..end]` starts with the text of `s`.
pub fn span_starts_with_str(v: &Vec<char>, start: usize, end: usize, s: &str) -> (b: bool)
    requires
        start <= end <= v@.len(),
    ensures
        b == starts_with(v@.subrange(start as int, end as int), s@),
{
    let n = s.unicode_len();
    if n > end - start {
        return false;
    }
    let mut i: usize = 0;
    while i < n
        invariant
            n <= end - start,
            n == s@.len(),
            start <= end <= v@.len(),
            i <= n,
            forall|j: int| 0 <= j < i ==> v@[start + j] == s@[j],
        decreases n - i,
    {
        if v[start + i] != s.get_char(i) {
            assert(v@.subrange(start as int, end as int).subrange(0, n as int)[i as int]
                != s@[i as int]);
            return false;
        }
        i = i + 1;
    }
    assert(v@.subrange(start as int, end as int).subrange(0, n as int) =~= s@);
    true
}

/// Whether two strings hold the same text.
pub fn str_eq(a: &str, b: &str) -> (r: bool)
    ensures
        r == (a@ == b@),
{
    let n = a.unicode_len();
    if n != b.unicode_len() {
        return false;
    }
    let mut i: usize = 0;
    while i < n
        invariant
            n == a@.len(),
            n == b@.len(),
            i <= n,
            forall|j: int| 0 <= j < i ==> a@[j] == b@[j],
        decreases n - i,
    {
        if a.get_char(i) != b.get_char(i) {
            return false;
        }
        i = i + 1;
    }
    assert(a@ =~= b@);
    true
}

/// A copy of `v[start..end]`.
pub fn copy_span(v: &Vec<char>, start: usize, end: usize) -> (r: Vec<char>)
    requires
        start <= end <= v@.len(),
    ensures
        r@ == v@.subrange(start as int, end as int),
{
    let mut r: Vec<char> = Vec::new();
    let mut i = start;
    while i < end
        invariant
            start <= i <= end <= v@.len(),
            r@ == v@.subrange(start as int, i as int),
        decreases end - i,
    {
        r.push(v[i]);
        assert(r@ =~= v@.subrange(start as int, i + 1));
        i = i + 1;
    }
    r
}

/// Appends the characters of `v` to `s`.
pub fn push_chars(s: &mut String, v: &Vec<char>)
    ensures
        final(s)@ == old(s)@ + v@,
{
    let mut i: usize = 0;
    while i < v.len()
        invariant
            i <= v@.len(),
            s@ == old(s)@ + v@.subrange(0, i as int),
        decreases v.len() - i,
    {
        s.push(v[i]);
        assert(s@ =~= old(s)@ + v@.subrange(0, i + 1));
        i = i + 1;
    }
    assert(v@.subrange(0, v@.len() as int) =~= v@);
}

fn digit(d: usize) -> (c: char)
    requires
        d < 10,
    ensures
        c == digit_char(d as nat),
{
    if d == 0 {
        '0'
    } else if d == 1 {
        '1'
    } else if d == 2 {
        '2'
    } else if d == 3 {
        '3'
    } else if d == 4 {
        '4'
    } else if d == 5 {
        '5'
    } else if d == 6 {
        '6'
    } else if d == 7 {
        '7'
    } else if d == 8 {
        '8'
    } else {
        '9'
    }
}

/// Appends the decimal representation of `n` to `s`.
pub fn push_decimal(s: &mut String, n: usize)
    ensures
        final(s)@ == old(s)@ + decimal(n as nat),
    decreases n,
{
    if n >= 10 {
        push_decimal(s, n / 10);
    }
    let d = digit(n % 10);
    s.push(d);
    if n >= 10 {
        assert(s@ =~= old(s)@ + decimal(n as nat));
    } else {
        assert(s@ =~= old(s)@ + decimal(n as nat));
    }
}

/// A `String` holding the text of `s`.
pub fn string_of(s: &str) -> (r: String)
    ensures
        r@ == s@,
{
    String::from_str(s)
}

} // verus!
