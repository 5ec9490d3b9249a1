//! Decoding the vertex rows of a Gaussian PLY file into a `GaussianSet`.
//!
//! The caller supplies the two steps that need floating point: `convert` turns
//! one raw property value into a scalar, and `activate` turns the collected
//! attributes of one row into a splat (exp of the log-scales, normalised
//! quaternion, sigmoid of the opacity, color from the DC term). Everything else,
//! from the header to the packing of the spherical harmonics, happens here.

use vstd::prelude::*;
use vstd::string::*;
use crate::error::{LoadErrorView, PlyLoadError};
use crate::gaussian::{GaussianSet, ShCoefficients, shape_check, validation_message, SetValidationError};
use crate::header::{
    PlyFormat, PlyHeader, Property, PropertyView, ScalarType, HeaderView, parse_header,
    properties_view, scalar_byte_width, scalar_width, spec_parse_header,
};
use crate::layout::{
    PropertyRole, ShPlan, SplatLayout, extra_coeffs, has_dc, has_sh, last_index, layout_matches,
    layout_within, roles_of, sh_sources, splat_layout, typed_index,
};
use crate::text::{span_texts, spans_within, split_whitespace_spans, line_spans, trim_span, lines, trim};
use crate::unicode::{decode_utf8_range, utf8_failure_message};
use crate::rows::{
    RawScalar, ScalarValue, ascii_row, ascii_row_list, ascii_rows, ascii_value, ascii_values,
    binary_row, binary_rows, nonblank, at_most, parse_ascii_scalar, prepend_row, read_binary_scalar,
    row_width, short_read_message, short_row_string, truncated_row_string,
};

verus! {

/// Where the color of a splat comes from.
pub enum ColorSource<S> {
    /// The DC spherical-harmonics coefficients `f_dc_0..2` (a missing one is zero).
    ShDc([S; 3]),
    /// The plain channels `red green blue` (or `r g b`), each with the type of its
    /// property; a missing channel is full intensity.
    Rgb([Option<(S, ScalarType)>; 3]),
}

/// The attributes of one row, before activation. Each is the value of the last
/// property that feeds it, or its default when no property does.
pub struct SplatInputs<S> {
    /// `x y z`; default zero.
    pub position: [S; 3],
    /// `scale_0..2`, as log-scales; default zero.
    pub log_scale: [S; 3],
    /// `rot_1 rot_2 rot_3 rot_0`: the file's `w x y z` reordered to `x y z w`;
    /// default the identity rotation.
    pub rotation_xyzw: [S; 4],
    /// `opacity`, as a logit; default one.
    pub opacity_logit: S,
    /// The DC coefficients when the file has any `f_dc_*` property, else the plain color.
    pub color: ColorSource<S>,
}

/// One activated splat.
pub struct SplatCore<V, Q, S> {
    pub mean: V,
    pub quat: Q,
    pub scale: V,
    pub opacity: S,
    pub color: [S; 3],
}

pub open spec fn pick_typed<S>(vals: Seq<S>, o: Option<(usize, ScalarType)>) -> Option<(S, ScalarType)> {
    match o {
        Some((i, t)) => Some((vals[i as int], t)),
        None => None,
    }
}

/// `inp` holds, for each attribute, the value of the last property of the row
/// `vals` that feeds it, or the attribute's default.
pub open spec fn inputs_match<S>(inp: SplatInputs<S>, props: Seq<PropertyView>, vals: Seq<S>, zero: S, one: S) -> bool {
    let roles = roles_of(props);
    &&& inp.position@ == seq![
        slot_value(vals, last_index(roles, PropertyRole::Position(0)), zero),
        slot_value(vals, last_index(roles, PropertyRole::Position(1)), zero),
        slot_value(vals, last_index(roles, PropertyRole::Position(2)), zero),
    ]
    &&& inp.log_scale@ == seq![
        slot_value(vals, last_index(roles, PropertyRole::LogScale(0)), zero),
        slot_value(vals, last_index(roles, PropertyRole::LogScale(1)), zero),
        slot_value(vals, last_index(roles, PropertyRole::LogScale(2)), zero),
    ]
    &&& inp.rotation_xyzw@ == seq![
        slot_value(vals, last_index(roles, PropertyRole::Rotation(1)), zero),
        slot_value(vals, last_index(roles, PropertyRole::Rotation(2)), zero),
        slot_value(vals, last_index(roles, PropertyRole::Rotation(3)), zero),
        slot_value(vals, last_index(roles, PropertyRole::Rotation(0)), one),
    ]
    &&& inp.opacity_logit == slot_value(vals, last_index(roles, PropertyRole::Opacity), one)
    &&& if has_dc(roles) {
        inp.color matches ColorSource::ShDc(dc) && dc@ == seq![
            slot_value(vals, last_index(roles, PropertyRole::DcCoeff(0)), zero),
            slot_value(vals, last_index(roles, PropertyRole::DcCoeff(1)), zero),
            slot_value(vals, last_index(roles, PropertyRole::DcCoeff(2)), zero),
        ]
    } else {
        inp.color matches ColorSource::Rgb(rgb) && rgb@ == seq![
            pick_typed(vals, typed_index(props, PropertyRole::Color(0))),
            pick_typed(vals, typed_index(props, PropertyRole::Color(1))),
            pick_typed(vals, typed_index(props, PropertyRole::Color(2))),
        ]
    }
}

/// The value of a spherical-harmonics slot: its source property, or `zero`.
pub open spec fn slot_value<S>(vals: Seq<S>, o: Option<usize>, zero: S) -> S {
    match o {
        Some(i) => vals[i as int],
        None => zero,
    }
}

/// The spherical-harmonics block that the row `vals` contributes: none when the
/// file has no SH property, else the DC triplet then one RGB triplet per
/// higher-order coefficient.
pub open spec fn sh_values<S>(props: Seq<PropertyView>, vals: Seq<S>, zero: S) -> Seq<S> {
    let roles = roles_of(props);
    if has_sh(roles) {
        sh_sources(roles).map_values(|o: Option<usize>| slot_value(vals, o, zero))
    } else {
        seq![]
    }
}

/// Number of SH values per row.
pub open spec fn sh_block_len(props: Seq<PropertyView>) -> nat {
    let roles = roles_of(props);
    if has_sh(roles) {
        ((extra_coeffs(roles) + 1) * 3) as nat
    } else {
        0
    }
}

/// `vals` are what `convert` gives for the raw values `xs`, whose views are `raw`.
pub open spec fn converted_by<S, FC: Fn(&RawScalar) -> S>(
    convert: FC,
    raw: Seq<ScalarValue>,
    vals: Seq<S>,
    xs: Seq<RawScalar>,
) -> bool {
    &&& vals.len() == raw.len()
    &&& xs.len() == raw.len()
    &&& forall|j: int|
        0 <= j < raw.len() ==> xs[j]@ == raw[j] && convert.ensures((&xs[j],), #[trigger] vals[j])
}

/// `vals` are what `convert` gives for the raw values `raw`, one by one.
pub open spec fn converted<S, FC: Fn(&RawScalar) -> S>(convert: FC, raw: Seq<ScalarValue>, vals: Seq<S>) -> bool {
    exists|xs: Seq<RawScalar>| #[trigger] converted_by(convert, raw, vals, xs)
}

/// `core` and the SH block `sh` are what the raw row `raw` decodes to.
pub open spec fn decoded_row<V, Q, S, FC: Fn(&RawScalar) -> S, FA: Fn(&SplatInputs<S>) -> SplatCore<V, Q, S>>(
    props: Seq<PropertyView>,
    raw: Seq<ScalarValue>,
    convert: FC,
    activate: FA,
    zero: S,
    one: S,
    core: SplatCore<V, Q, S>,
    sh: Seq<S>,
) -> bool {
    exists|vals: Seq<S>, acc: SplatInputs<S>|
        {
            &&& #[trigger] converted(convert, raw, vals)
            &&& #[trigger] inputs_match(acc, props, vals, zero, one)
            &&& activate.ensures((&acc,), core)
            &&& sh == sh_values(props, vals, zero)
        }
}

pub open spec fn core_at<V, Q, S>(set: GaussianSet<V, Q, S>, i: int) -> SplatCore<V, Q, S> {
    SplatCore {
        mean: set.means_world@[i],
        quat: set.quats@[i],
        scale: set.scales@[i],
        opacity: set.opacities@[i],
        color: set.colors_dc@[i],
    }
}

/// SH block `i` of a flat buffer with blocks of `k` values.
pub open spec fn block<S>(sh: Seq<S>, i: int, k: nat) -> Seq<S> {
    sh.subrange(i * k, (i + 1) * k)
}

pub open spec fn sh_buffer<V, Q, S>(set: GaussianSet<V, Q, S>) -> Seq<S> {
    match set.sh_coeffs {
        Some(sh) => sh.coefficients@,
        None => seq![],
    }
}

/// The buffers of `set` and the SH buffer `sh` are the decoding of the raw rows `rows`.
pub open spec fn rows_decoded<V, Q, S, FC: Fn(&RawScalar) -> S, FA: Fn(&SplatInputs<S>) -> SplatCore<V, Q, S>>(
    set: GaussianSet<V, Q, S>,
    sh: Seq<S>,
    props: Seq<PropertyView>,
    rows: Seq<Seq<ScalarValue>>,
    convert: FC,
    activate: FA,
    zero: S,
    one: S,
) -> bool {
    let n = rows.len();
    let k = sh_block_len(props);
    &&& set.means_world@.len() == n
    &&& set.quats@.len() == n
    &&& set.scales@.len() == n
    &&& set.opacities@.len() == n
    &&& set.colors_dc@.len() == n
    &&& sh.len() == n * k
    &&& forall|i: int|
        0 <= i < n ==> #[trigger] decoded_row(
            props,
            rows[i],
            convert,
            activate,
            zero,
            one,
            core_at(set, i),
            block(sh, i, k),
        )
}

/// `set` is the decoding of the raw rows `rows` of a file with properties `props`.
pub open spec fn set_decoded<V, Q, S, FC: Fn(&RawScalar) -> S, FA: Fn(&SplatInputs<S>) -> SplatCore<V, Q, S>>(
    set: GaussianSet<V, Q, S>,
    props: Seq<PropertyView>,
    rows: Seq<Seq<ScalarValue>>,
    convert: FC,
    activate: FA,
    zero: S,
    one: S,
) -> bool {
    let roles = roles_of(props);
    &&& (set.sh_coeffs is Some <==> has_sh(roles))
    &&& (set.sh_coeffs matches Some(sh) ==> sh.coeffs_per_channel == extra_coeffs(roles) + 1)
    &&& rows_decoded(set, sh_buffer(set), props, rows, convert, activate, zero, one)
}

fn value_or<S: Copy>(vals: &Vec<S>, o: Option<usize>, d: S) -> (r: S)
    requires
        o matches Some(i) ==> i < vals@.len(),
    ensures
        r == slot_value(vals@, o, d),
{
    match o {
        Some(i) => vals[i],
        None => d,
    }
}

fn pick_typed_exec<S: Copy>(vals: &Vec<S>, o: Option<(usize, ScalarType)>) -> (r: Option<(S, ScalarType)>)
    requires
        o matches Some((i, _)) ==> i < vals@.len(),
    ensures
        r == pick_typed(vals@, o),
{
    match o {
        Some((i, t)) => Some((vals[i], t)),
        None => None,
    }
}

/// The attributes of the row `vals` (see `inputs_match`).
fn collect_inputs<S: Copy>(layout: &SplatLayout, props: &Vec<Property>, vals: &Vec<S>, zero: S, one: S) -> (inp: SplatInputs<S>)
    requires
        layout_matches(*layout, properties_view(props@)),
        layout_within(*layout, vals@.len()),
    ensures
        inputs_match(inp, properties_view(props@), vals@, zero, one),
{
    let p = &layout.position;
    let l = &layout.log_scale;
    let r = &layout.rotation_wxyz;
    let c = &layout.color;
    assert(p@[0] == p[0] && p@[1] == p[1] && p@[2] == p[2]);
    assert(l@[0] == l[0] && l@[1] == l[1] && l@[2] == l[2]);
    assert(r@[0] == r[0] && r@[1] == r[1] && r@[2] == r[2] && r@[3] == r[3]);
    assert(c@[0] == c[0] && c@[1] == c[1] && c@[2] == c[2]);
    let position = [value_or(vals, p[0], zero), value_or(vals, p[1], zero), value_or(vals, p[2], zero)];
    let log_scale = [value_or(vals, l[0], zero), value_or(vals, l[1], zero), value_or(vals, l[2], zero)];
    let rotation_xyzw = [
        value_or(vals, r[1], zero),
        value_or(vals, r[2], zero),
        value_or(vals, r[3], zero),
        value_or(vals, r[0], one),
    ];
    let opacity_logit = value_or(vals, layout.opacity, one);
    let color = match &layout.dc {
        Some(d) => {
            assert(d@[0] == d[0] && d@[1] == d[1] && d@[2] == d[2]);
            let dc = [value_or(vals, d[0], zero), value_or(vals, d[1], zero), value_or(vals, d[2], zero)];
            assert(dc@ =~= seq![dc[0], dc[1], dc[2]]);
            ColorSource::ShDc(dc)
        },
        None => {
            let rgb = [
                pick_typed_exec(vals, c[0]),
                pick_typed_exec(vals, c[1]),
                pick_typed_exec(vals, c[2]),
            ];
            assert(rgb@ =~= seq![rgb[0], rgb[1], rgb[2]]);
            ColorSource::Rgb(rgb)
        },
    };
    let inp = SplatInputs { position, log_scale, rotation_xyzw, opacity_logit, color };
    assert(inp.position@ =~= seq![position[0], position[1], position[2]]);
    assert(inp.log_scale@ =~= seq![log_scale[0], log_scale[1], log_scale[2]]);
    assert(inp.rotation_xyzw@ =~= seq![
        rotation_xyzw[0],
        rotation_xyzw[1],
        rotation_xyzw[2],
        rotation_xyzw[3],
    ]);
    inp
}

/// Appends the SH block of the row `vals` to `out`.
fn gather_sh<S: Copy>(plan: &ShPlan, vals: &Vec<S>, zero: S, out: &mut Vec<S>)
    requires
        forall|i: int| 0 <= i < plan.sources@.len() ==> (#[trigger] plan.sources@[i] matches Some(j) ==> j < vals@.len()),
    ensures
        final(out)@ == old(out)@ + plan.sources@.map_values(|o: Option<usize>| slot_value(vals@, o, zero)),
{
    let mut s: usize = 0;
    while s < plan.sources.len()
        invariant
            s <= plan.sources@.len(),
            forall|i: int| 0 <= i < plan.sources@.len() ==> (#[trigger] plan.sources@[i] matches Some(j) ==> j < vals@.len()),
            out@ == old(out)@ + plan.sources@.subrange(0, s as int).map_values(|o: Option<usize>| slot_value(vals@, o, zero)),
        decreases plan.sources@.len() - s,
    {
        let v = match plan.sources[s] {
            Some(j) => vals[j],
            None => zero,
        };
        out.push(v);
        assert(plan.sources@.subrange(0, s + 1).map_values(|o: Option<usize>| slot_value(vals@, o, zero))
            =~= plan.sources@.subrange(0, s as int).map_values(|o: Option<usize>| slot_value(vals@, o, zero)).push(v));
        s = s + 1;
    }
    assert(plan.sources@.subrange(0, s as int) =~= plan.sources@);
}

/// Decodes one row: activates its attributes, appends the splat to `set` and its
/// SH block to `sh_coefficients`. Every buffer grows by one splat and keeps its
/// earlier entries, the SH buffer keeps its earlier values, and `sh_coeffs` is
/// left alone.
pub fn push_row<V, Q, S: Copy, FA: Fn(&SplatInputs<S>) -> SplatCore<V, Q, S>>(
    set: &mut GaussianSet<V, Q, S>,
    sh_coefficients: &mut Vec<S>,
    layout: &SplatLayout,
    props: &Vec<Property>,
    vals: &Vec<S>,
    zero: S,
    one: S,
    activate: &FA,
) -> (core: Ghost<SplatCore<V, Q, S>>)
    requires
        layout_matches(*layout, properties_view(props@)),
        layout_within(*layout, vals@.len()),
        forall|a: &SplatInputs<S>| #[trigger] activate.requires((a,)),
    ensures
        exists|acc: SplatInputs<S>|
            #[trigger] inputs_match(acc, properties_view(props@), vals@, zero, one)
                && activate.ensures((&acc,), core@),
        final(set).means_world@ == old(set).means_world@.push(core@.mean),
        final(set).quats@ == old(set).quats@.push(core@.quat),
        final(set).scales@ == old(set).scales@.push(core@.scale),
        final(set).opacities@ == old(set).opacities@.push(core@.opacity),
        final(set).colors_dc@ == old(set).colors_dc@.push(core@.color),
        final(set).sh_coeffs == old(set).sh_coeffs,
        final(sh_coefficients)@ == old(sh_coefficients)@ + sh_values(properties_view(props@), vals@, zero),
{
    let acc = collect_inputs(layout, props, vals, zero, one);
    let c = activate(&acc);
    let ghost g = c;
    let SplatCore { mean, quat, scale, opacity, color } = c;
    set.means_world.push(mean);
    set.quats.push(quat);
    set.scales.push(scale);
    set.opacities.push(opacity);
    set.colors_dc.push(color);
    match &layout.sh {
        Some(plan) => {
            gather_sh(plan, vals, zero, sh_coefficients);
        },
        None => {
            assert(sh_coefficients@ =~= old(sh_coefficients)@ + seq![]);
        },
    }
    Ghost(g)
}

proof fn lemma_block_prefix<S>(sh: Seq<S>, more: Seq<S>, i: int, n: int, k: nat)
    requires
        sh.len() == n * k,
        0 <= i < n,
    ensures
        block(sh + more, i, k) == block(sh, i, k),
{
    assert((i + 1) * k <= n * k) by (nonlinear_arith)
        requires
            i + 1 <= n,
    ;
    assert(0 <= i * k) by (nonlinear_arith)
        requires
            0 <= i,
    ;
    assert((i + 1) * k == i * k + k) by (nonlinear_arith);
    let a = block(sh + more, i, k);
    let b = block(sh, i, k);
    assert(a.len() == b.len());
    assert forall|m: int| 0 <= m < a.len() implies a[m] == b[m] by {
        assert(a[m] == (sh + more)[i * k + m]);
        assert(i * k + m < sh.len());
    }
    assert(a =~= b);
}

proof fn lemma_sh_values_len<S>(props: Seq<PropertyView>, vals: Seq<S>, zero: S)
    ensures
        sh_values(props, vals, zero).len() == sh_block_len(props),
{
}

/// Decoding is row by row: when `set` and `sh0` are the decoding of `rows`, and
/// one more splat and SH block, decoded from the raw row `raw`, are appended to
/// them, the result is the decoding of `rows` followed by `raw`.
pub proof fn law_rows_decoded_push<V, Q, S, FC: Fn(&RawScalar) -> S, FA: Fn(&SplatInputs<S>) -> SplatCore<V, Q, S>>(
    set0: GaussianSet<V, Q, S>,
    sh0: Seq<S>,
    set1: GaussianSet<V, Q, S>,
    sh1: Seq<S>,
    props: Seq<PropertyView>,
    rows: Seq<Seq<ScalarValue>>,
    raw: Seq<ScalarValue>,
    vals: Seq<S>,
    acc: SplatInputs<S>,
    core: SplatCore<V, Q, S>,
    convert: FC,
    activate: FA,
    zero: S,
    one: S,
)
    requires
        rows_decoded(set0, sh0, props, rows, convert, activate, zero, one),
        converted(convert, raw, vals),
        inputs_match(acc, props, vals, zero, one),
        activate.ensures((&acc,), core),
        set1.means_world@ == set0.means_world@.push(core.mean),
        set1.quats@ == set0.quats@.push(core.quat),
        set1.scales@ == set0.scales@.push(core.scale),
        set1.opacities@ == set0.opacities@.push(core.opacity),
        set1.colors_dc@ == set0.colors_dc@.push(core.color),
        sh1 == sh0 + sh_values(props, vals, zero),
    ensures
        rows_decoded(set1, sh1, props, rows.push(raw), convert, activate, zero, one),
{
    let n = rows.len() as int;
    let k = sh_block_len(props);
    lemma_sh_values_len(props, vals, zero);
    assert((n + 1) * k == n * k + k) by (nonlinear_arith);
    assert forall|i: int| 0 <= i < n + 1 implies #[trigger] decoded_row(
        props,
        rows.push(raw)[i],
        convert,
        activate,
        zero,
        one,
        core_at(set1, i),
        block(sh1, i, k),
    ) by {
        if i < n {
            lemma_block_prefix(sh0, sh_values(props, vals, zero), i, n, k);
            assert(core_at(set1, i) == core_at(set0, i));
            assert(decoded_row(props, rows[i], convert, activate, zero, one, core_at(set0, i), block(sh0, i, k)));
        } else {
            assert(block(sh1, i, k) =~= sh_values(props, vals, zero));
            assert(core_at(set1, i) == core);
            assert(converted(convert, raw, vals) && inputs_match(acc, props, vals, zero, one));
        }
    }
}

/// Bytes of one binary row (see `row_width`).
fn binary_row_width(props: &Vec<Property>) -> (w: u128)
    ensures
        w == row_width(properties_view(props@)),
{
    let ghost pv = properties_view(props@);
    let mut w: u128 = 0;
    let mut j: usize = 0;
    assert(pv.subrange(0, pv.len() as int) =~= pv);
    while j < props.len()
        invariant
            j <= props@.len(),
            pv == properties_view(props@),
            w <= 8 * j,
            row_width(pv) == w + row_width(pv.subrange(j as int, pv.len() as int)),
        decreases props@.len() - j,
    {
        assert(pv.subrange(j as int, pv.len() as int).drop_first() =~= pv.subrange(
            j + 1,
            pv.len() as int,
        ));
        w = w + scalar_byte_width(props[j].scalar_type) as u128;
        j = j + 1;
    }
    assert(pv.subrange(j as int, pv.len() as int) =~= Seq::<PropertyView>::empty());
    w
}

/// Reads and converts the binary row at `data[pos..]`, or fails when the data
/// ends inside it.
fn read_binary_row<S, FC: Fn(&RawScalar) -> S>(data: &[u8], pos: usize, props: &Vec<Property>, convert: &FC) -> (r: Result<Vec<S>, String>)
    requires
        pos <= data@.len(),
        forall|x: &RawScalar| #[trigger] convert.requires((x,)),
    ensures
        match r {
            Ok(vals) => {
                &&& pos + row_width(properties_view(props@)) <= data@.len()
                &&& converted(
                    *convert,
                    binary_row(
                        properties_view(props@),
                        data@.subrange(pos as int, pos + row_width(properties_view(props@))),
                    ),
                    vals@,
                )
                &&& vals@.len() == props@.len()
            },
            Err(m) => pos + row_width(properties_view(props@)) > data@.len() && m@ == short_read_message(),
        },
{
    let ghost pv = properties_view(props@);
    let ghost wt = row_width(pv);
    let ghost b = data@.subrange(pos as int, pos + wt);
    let ghost mut raws: Seq<RawScalar> = seq![];
    let mut vals: Vec<S> = Vec::new();
    let mut off: usize = 0;
    let mut j: usize = 0;
    let dl = data.len();
    assert(pv.subrange(0, pv.len() as int) =~= pv);
    assert(b.subrange(0, b.len() as int) =~= b);
    while j < props.len()
        invariant
            dl == data@.len(),
            j <= props@.len(),
            pv == properties_view(props@),
            wt == row_width(pv),
            pos + off <= dl,
            b == data@.subrange(pos as int, pos + wt),
            wt == off + row_width(pv.subrange(j as int, pv.len() as int)),
            pos + wt <= dl ==> binary_row(pv, b) == raws.map_values(|x: RawScalar| x@) + binary_row(
                pv.subrange(j as int, pv.len() as int),
                b.subrange(off as int, b.len() as int),
            ),
            raws.len() == j,
            vals@.len() == j,
            forall|i: int| 0 <= i < j ==> convert.ensures((&raws[i],), #[trigger] vals@[i]),
            forall|x: &RawScalar| #[trigger] convert.requires((x,)),
        decreases props@.len() - j,
    {
        let ghost rest = pv.subrange(j as int, pv.len() as int);
        let t = props[j].scalar_type;
        assert(rest[0].scalar_type == t);
        assert(rest.drop_first() =~= pv.subrange(j + 1, pv.len() as int));
        let x = match read_binary_scalar(data, pos + off, t) {
            Ok(x) => x,
            Err(m) => {
                return Err(m);
            },
        };
        let v = convert(&x);
        proof {
            if pos + wt <= dl {
                let bo = b.subrange(off as int, b.len() as int);
                assert(bo.subrange(0, scalar_width(t) as int) =~= data@.subrange(pos + off, pos + off + scalar_width(t)));
                assert(bo.subrange(scalar_width(t) as int, bo.len() as int) =~= b.subrange(off + scalar_width(t), b.len() as int));
            }
            raws = raws.push(x);
        }
        vals.push(v);
        assert(raws.map_values(|x: RawScalar| x@) =~= raws.drop_last().map_values(|x: RawScalar| x@).push(x@));
        off = off + scalar_byte_width(t);
        j = j + 1;
    }
    assert(pv.subrange(j as int, pv.len() as int) =~= Seq::<PropertyView>::empty());
    assert(binary_row(pv.subrange(j as int, pv.len() as int), b.subrange(off as int, b.len() as int)) =~= Seq::<ScalarValue>::empty());
    assert(raws.map_values(|x: RawScalar| x@) + Seq::<ScalarValue>::empty() =~= raws.map_values(|x: RawScalar| x@));
    assert(binary_row(pv, b).len() == vals@.len());
    assert(converted_by(*convert, binary_row(pv, b), vals@, raws));
    Ok(vals)
}

/// Decodes the binary vertex rows that follow the header into `set` and `sh`.
fn decode_binary_rows<V, Q, S: Copy, FC: Fn(&RawScalar) -> S, FA: Fn(&SplatInputs<S>) -> SplatCore<V, Q, S>>(
    bytes: &[u8],
    header: &PlyHeader,
    layout: &SplatLayout,
    set: &mut GaussianSet<V, Q, S>,
    sh: &mut Vec<S>,
    zero: S,
    one: S,
    convert: &FC,
    activate: &FA,
) -> (r: Result<(), PlyLoadError>)
    requires
        header.data_offset <= bytes@.len(),
        layout_matches(*layout, properties_view(header.properties@)),
        layout_within(*layout, header.properties@.len() as nat),
        rows_decoded(*old(set), old(sh)@, properties_view(header.properties@), seq![], *convert, *activate, zero, one),
        forall|x: &RawScalar| #[trigger] convert.requires((x,)),
        forall|a: &SplatInputs<S>| #[trigger] activate.requires((a,)),
    ensures
        final(set).sh_coeffs == old(set).sh_coeffs,
        match binary_rows(
            properties_view(header.properties@),
            bytes@.subrange(header.data_offset as int, bytes@.len() as int),
            header.vertex_count as nat,
            0,
        ) {
            Err(e) => r matches Err(x) && x@ == e,
            Ok(rows) => r is Ok && rows_decoded(
                *final(set),
                final(sh)@,
                properties_view(header.properties@),
                rows,
                *convert,
                *activate,
                zero,
                one,
            ),
        },
{
    let ghost pv = properties_view(header.properties@);
    let ghost total = binary_rows(
        pv,
        bytes@.subrange(header.data_offset as int, bytes@.len() as int),
        header.vertex_count as nat,
        0,
    );
    let w = binary_row_width(&header.properties);
    let n = header.vertex_count;
    let len = bytes.len();
    let mut pos = header.data_offset;
    let mut row: usize = 0;
    let ghost mut done: Seq<Seq<ScalarValue>> = seq![];
    assert(total == match binary_rows(pv, bytes@.subrange(pos as int, len as int), (n - row) as nat, row as nat) {
        Err(e) => Err(e),
        Ok(rest) => Ok::<Seq<Seq<ScalarValue>>, LoadErrorView>(done + rest),
    }) by {
        match binary_rows(pv, bytes@.subrange(pos as int, len as int), (n - row) as nat, row as nat) {
            Err(e) => {},
            Ok(rest) => {
                assert(done + rest =~= rest);
            },
        }
    }
    while row < n
        invariant
            pv == properties_view(header.properties@),
            total == binary_rows(
                pv,
                bytes@.subrange(header.data_offset as int, bytes@.len() as int),
                header.vertex_count as nat,
                0,
            ),
            len == bytes@.len(),
            w == row_width(pv),
            n == header.vertex_count,
            row <= n,
            pos <= len,
            done.len() == row,
            set.sh_coeffs == old(set).sh_coeffs,
            layout_matches(*layout, pv),
            layout_within(*layout, header.properties@.len() as nat),
            total == match binary_rows(pv, bytes@.subrange(pos as int, len as int), (n - row) as nat, row as nat) {
                Err(e) => Err(e),
                Ok(rest) => Ok::<Seq<Seq<ScalarValue>>, LoadErrorView>(done + rest),
            },
            rows_decoded(*set, sh@, pv, done, *convert, *activate, zero, one),
            forall|x: &RawScalar| #[trigger] convert.requires((x,)),
            forall|a: &SplatInputs<S>| #[trigger] activate.requires((a,)),
        decreases n - row,
    {
        let ghost d = bytes@.subrange(pos as int, len as int);
        let vals = match read_binary_row(bytes, pos, &header.properties, convert) {
            Ok(v) => v,
            Err(_) => {
                assert(d.len() < w);
                assert(binary_rows(pv, d, (n - row) as nat, row as nat) == Err::<Seq<Seq<ScalarValue>>, LoadErrorView>(
                    LoadErrorView::Data(crate::rows::truncated_row_message(row as nat)),
                ));
                return Err(PlyLoadError::Data(truncated_row_string(row)));
            },
        };
        let ghost raw = binary_row(pv, bytes@.subrange(pos as int, pos + w));
        let ghost set0 = *set;
        let ghost sh0 = sh@;
        let core = push_row(set, sh, layout, &header.properties, &vals, zero, one, activate);
        proof {
            let acc = choose|acc: SplatInputs<S>| #[trigger] inputs_match(acc, pv, vals@, zero, one)
                && activate.ensures((&acc,), core@);
            law_rows_decoded_push(set0, sh0, *set, sh@, pv, done, raw, vals@, acc, core@, *convert, *activate, zero, one);
            assert(d.subrange(0, w as int) =~= bytes@.subrange(pos as int, pos + w));
            assert(d.subrange(w as int, d.len() as int) =~= bytes@.subrange(pos + w, len as int));
            match binary_rows(pv, bytes@.subrange(pos + w, len as int), (n - row - 1) as nat, (row + 1) as nat) {
                Err(e) => {},
                Ok(rest) => {
                    assert(done + (seq![raw] + rest) =~= done.push(raw) + rest);
                },
            }
            done = done.push(raw);
        }
        pos = pos + w as usize;
        row = row + 1;
    }
    assert(done + Seq::<Seq<ScalarValue>>::empty() =~= done);
    Ok(())
}

/// Parses and converts the ASCII row `row_index`, the line `v[start..end]`.
fn read_ascii_row<S, FC: Fn(&RawScalar) -> S>(
    row_index: usize,
    v: &Vec<char>,
    start: usize,
    end: usize,
    props: &Vec<Property>,
    convert: &FC,
) -> (r: Result<Vec<S>, PlyLoadError>)
    requires
        start <= end <= v@.len(),
        forall|x: &RawScalar| #[trigger] convert.requires((x,)),
    ensures
        match ascii_row(row_index as nat, v@.subrange(start as int, end as int), properties_view(props@)) {
            Err(e) => r matches Err(x) && x@ == e,
            Ok(raw) => r matches Ok(vals) && converted(*convert, raw, vals@) && vals@.len() == props@.len(),
        },
{
    let ghost pv = properties_view(props@);
    let toks = split_whitespace_spans(v, start, end);
    let ghost ts = span_texts(v@, toks@);
    if toks.len() < props.len() {
        return Err(PlyLoadError::Data(short_row_string(row_index, toks.len(), props.len())));
    }
    let ghost total = ascii_values(ts, pv);
    assert(total == ascii_row(row_index as nat, v@.subrange(start as int, end as int), pv));
    let ghost mut raws: Seq<RawScalar> = seq![];
    let mut vals: Vec<S> = Vec::new();
    let mut j: usize = 0;
    assert(ts.subrange(0, ts.len() as int) =~= ts);
    assert(pv.subrange(0, pv.len() as int) =~= pv);
    while j < props.len()
        invariant
            pv == properties_view(props@),
            ts == span_texts(v@, toks@),
            spans_within(toks@, v@.len() as int),
            toks@.len() >= props@.len(),
            j <= props@.len(),
            total == ascii_values(ts, pv),
            total == ascii_row(row_index as nat, v@.subrange(start as int, end as int), pv),
            total == match ascii_values(ts.subrange(j as int, ts.len() as int), pv.subrange(j as int, pv.len() as int)) {
                Err(e) => Err(e),
                Ok(vs) => Ok::<Seq<ScalarValue>, LoadErrorView>(raws.map_values(|x: RawScalar| x@) + vs),
            },
            raws.len() == j,
            vals@.len() == j,
            forall|i: int| 0 <= i < j ==> convert.ensures((&raws[i],), #[trigger] vals@[i]),
            forall|x: &RawScalar| #[trigger] convert.requires((x,)),
        decreases props@.len() - j,
    {
        let ghost tr = ts.subrange(j as int, ts.len() as int);
        let ghost pr = pv.subrange(j as int, pv.len() as int);
        let (s, e) = toks[j];
        assert(toks@[j as int].0 <= toks@[j as int].1 <= v@.len());
        assert(tr[0] == v@.subrange(s as int, e as int));
        assert(tr.drop_first() =~= ts.subrange(j + 1, ts.len() as int));
        assert(pr.drop_first() =~= pv.subrange(j + 1, pv.len() as int));
        let t = props[j].scalar_type;
        assert(pr[0].scalar_type == t);
        let x = match parse_ascii_scalar(v, s, e, t) {
            Ok(x) => x,
            Err(err) => {
                assert(ascii_values(tr, pr) == Err::<Seq<ScalarValue>, LoadErrorView>(err@));
                return Err(err);
            },
        };
        let val = convert(&x);
        proof {
            match ascii_values(ts.subrange(j + 1, ts.len() as int), pv.subrange(j + 1, pv.len() as int)) {
                Err(e) => {},
                Ok(vs) => {
                    assert(raws.map_values(|y: RawScalar| y@) + (seq![x@] + vs) =~= raws.push(x).map_values(|y: RawScalar| y@) + vs);
                },
            }
            raws = raws.push(x);
        }
        vals.push(val);
        j = j + 1;
    }
    assert(ascii_values(ts.subrange(j as int, ts.len() as int), pv.subrange(j as int, pv.len() as int)) =~= Ok::<Seq<ScalarValue>, LoadErrorView>(Seq::<ScalarValue>::empty()));
    let ghost raw = raws.map_values(|y: RawScalar| y@);
    assert(raw + Seq::<ScalarValue>::empty() =~= raw);
    assert(converted_by(*convert, raw, vals@, raws));
    Ok(vals)
}

/// Decodes the ASCII vertex rows that follow the header into `set` and `sh`.
fn decode_ascii_rows<V, Q, S: Copy, FC: Fn(&RawScalar) -> S, FA: Fn(&SplatInputs<S>) -> SplatCore<V, Q, S>>(
    bytes: &[u8],
    header: &PlyHeader,
    layout: &SplatLayout,
    set: &mut GaussianSet<V, Q, S>,
    sh: &mut Vec<S>,
    zero: S,
    one: S,
    convert: &FC,
    activate: &FA,
) -> (r: Result<(), PlyLoadError>)
    requires
        header.data_offset <= bytes@.len(),
        layout_matches(*layout, properties_view(header.properties@)),
        layout_within(*layout, header.properties@.len() as nat),
        rows_decoded(*old(set), old(sh)@, properties_view(header.properties@), seq![], *convert, *activate, zero, one),
        forall|x: &RawScalar| #[trigger] convert.requires((x,)),
        forall|a: &SplatInputs<S>| #[trigger] activate.requires((a,)),
    ensures
        final(set).sh_coeffs == old(set).sh_coeffs,
        match ascii_rows(
            properties_view(header.properties@),
            bytes@.subrange(header.data_offset as int, bytes@.len() as int),
            header.vertex_count as nat,
        ) {
            Err(e) => r matches Err(x) && x@ == e,
            Ok(rows) => r is Ok && rows_decoded(
                *final(set),
                final(sh)@,
                properties_view(header.properties@),
                rows,
                *convert,
                *activate,
                zero,
                one,
            ),
        },
{
    let ghost pv = properties_view(header.properties@);
    let ghost d = bytes@.subrange(header.data_offset as int, bytes@.len() as int);
    let ghost total = ascii_rows(pv, d, header.vertex_count as nat);
    let chars = match decode_utf8_range(bytes, header.data_offset, bytes.len()) {
        Ok(c) => c,
        Err(f) => {
            return Err(PlyLoadError::Data(utf8_failure_message(&f)));
        },
    };
    let spans = line_spans(&chars, 0, chars.len());
    let ghost ls = span_texts(chars@, spans@);
    assert(chars@.subrange(0, chars@.len() as int) =~= chars@);
    assert(ls.subrange(0, ls.len() as int) =~= ls);
    let n = header.vertex_count;
    let mut li: usize = 0;
    let mut row: usize = 0;
    let ghost mut done: Seq<Seq<ScalarValue>> = seq![];
    assert(total == match ascii_row_list(at_most(nonblank(ls.subrange(li as int, ls.len() as int)), (n - row) as nat), pv, row as nat) {
        Err(e) => Err(e),
        Ok(rest) => Ok::<Seq<Seq<ScalarValue>>, LoadErrorView>(done + rest),
    }) by {
        match ascii_row_list(at_most(nonblank(ls), n as nat), pv, 0) {
            Err(e) => {},
            Ok(rest) => {
                assert(done + rest =~= rest);
            },
        }
    }
    while li < spans.len() && row < n
        invariant
            pv == properties_view(header.properties@),
            total == ascii_rows(
                pv,
                bytes@.subrange(header.data_offset as int, bytes@.len() as int),
                header.vertex_count as nat,
            ),
            ls == span_texts(chars@, spans@),
            spans_within(spans@, chars@.len() as int),
            n == header.vertex_count,
            li <= spans@.len(),
            row <= n,
            done.len() == row,
            set.sh_coeffs == old(set).sh_coeffs,
            layout_matches(*layout, pv),
            layout_within(*layout, header.properties@.len() as nat),
            total == match ascii_row_list(at_most(nonblank(ls.subrange(li as int, ls.len() as int)), (n - row) as nat), pv, row as nat) {
                Err(e) => Err(e),
                Ok(rest) => Ok::<Seq<Seq<ScalarValue>>, LoadErrorView>(done + rest),
            },
            rows_decoded(*set, sh@, pv, done, *convert, *activate, zero, one),
            forall|x: &RawScalar| #[trigger] convert.requires((x,)),
            forall|a: &SplatInputs<S>| #[trigger] activate.requires((a,)),
        decreases spans@.len() - li,
    {
        let ghost lr = ls.subrange(li as int, ls.len() as int);
        let (a, b) = spans[li];
        assert(spans@[li as int].0 <= spans@[li as int].1 <= chars@.len());
        assert(lr[0] == chars@.subrange(a as int, b as int));
        assert(lr.drop_first() =~= ls.subrange(li + 1, ls.len() as int));
        let (ta, tb) = trim_span(&chars, a, b);
        if ta == tb {
            assert(nonblank(lr) == nonblank(ls.subrange(li + 1, ls.len() as int)));
        } else {
            let ghost nb = nonblank(ls.subrange(li + 1, ls.len() as int));
            assert(nonblank(lr) == seq![lr[0]] + nb);
            assert(at_most(seq![lr[0]] + nb, (n - row) as nat) =~= seq![lr[0]] + at_most(nb, (n - row - 1) as nat));
            assert(at_most(seq![lr[0]] + nb, (n - row) as nat).drop_first() =~= at_most(nb, (n - row - 1) as nat));
            let vals = match read_ascii_row(row, &chars, a, b, &header.properties, convert) {
                Ok(v) => v,
                Err(e) => {
                    return Err(e);
                },
            };
            let ghost raw = ascii_row(row as nat, chars@.subrange(a as int, b as int), pv)->Ok_0;
            let ghost set0 = *set;
            let ghost sh0 = sh@;
            let core = push_row(set, sh, layout, &header.properties, &vals, zero, one, activate);
            proof {
                let acc = choose|acc: SplatInputs<S>| #[trigger] inputs_match(acc, pv, vals@, zero, one)
                    && activate.ensures((&acc,), core@);
                law_rows_decoded_push(set0, sh0, *set, sh@, pv, done, raw, vals@, acc, core@, *convert, *activate, zero, one);
                match ascii_row_list(at_most(nb, (n - row - 1) as nat), pv, (row + 1) as nat) {
                    Err(e) => {},
                    Ok(rest) => {
                        assert(done + (seq![raw] + rest) =~= done.push(raw) + rest);
                    },
                }
                done = done.push(raw);
            }
            row = row + 1;
        }
        li = li + 1;
    }
    proof {
        if li == spans.len() {
            assert(ls.subrange(li as int, ls.len() as int) =~= Seq::<Seq<char>>::empty());
        }
        assert(at_most(nonblank(ls.subrange(li as int, ls.len() as int)), (n - row) as nat) =~= Seq::<Seq<char>>::empty());
        assert(done + Seq::<Seq<ScalarValue>>::empty() =~= done);
    }
    Ok(())
}

/// The header and the raw vertex rows of the PLY bytes `b`, or the error that
/// loading reports for them.
pub open spec fn spec_vertex_rows(b: Seq<u8>) -> Result<(HeaderView, Seq<Seq<ScalarValue>>), LoadErrorView> {
    match spec_parse_header(b) {
        Err(e) => Err(e),
        Ok(h) => {
            let d = b.subrange(h.data_offset as int, b.len() as int);
            let rows = match h.format {
                PlyFormat::Ascii => ascii_rows(h.properties, d, h.vertex_count),
                PlyFormat::BinaryLittleEndian => binary_rows(h.properties, d, h.vertex_count, 0),
            };
            match rows {
                Err(e) => Err(e),
                Ok(rs) => Ok((h, rs)),
            }
        },
    }
}

/// Decodes a static Gaussian-splat PLY file held in `bytes`.
///
/// The header is parsed, every vertex row is read (the first `vertex_count`
/// non-blank lines of ASCII data, or `vertex_count` rows of binary
/// little-endian data), each value goes through `convert`, each row's
/// attributes through `activate`, and the SH coefficients of each row are packed
/// as `[coefficient][channel]` with missing ones set to `zero`. A file with no
/// row is refused as an empty set.
pub fn decode_gaussian_ply<V, Q, S: Copy, FC: Fn(&RawScalar) -> S, FA: Fn(&SplatInputs<S>) -> SplatCore<V, Q, S>>(
    bytes: &[u8],
    zero: S,
    one: S,
    convert: FC,
    activate: FA,
) -> (r: Result<GaussianSet<V, Q, S>, PlyLoadError>)
    requires
        forall|x: &RawScalar| #[trigger] convert.requires((x,)),
        forall|a: &SplatInputs<S>| #[trigger] activate.requires((a,)),
    ensures
        match spec_vertex_rows(bytes@) {
            Err(e) => r matches Err(x) && x@ == e,
            Ok((h, rows)) => if rows.len() == 0 {
                r matches Err(x) && x@ == LoadErrorView::Data(
                    validation_message(SetValidationError::Empty),
                )
            } else {
                r matches Ok(set) && set_decoded(set, h.properties, rows, convert, activate, zero, one)
                    && shape_check(set.shape()) is Ok
            },
        },
{
    let header = match parse_header(bytes) {
        Ok(h) => h,
        Err(e) => {
            return Err(e);
        },
    };
    let ghost pv = properties_view(header.properties@);
    let layout = splat_layout(&header.properties);
    let mut set: GaussianSet<V, Q, S> = GaussianSet::new();
    let mut sh: Vec<S> = Vec::new();
    assert(rows_decoded(set, sh@, pv, seq![], convert, activate, zero, one));
    let res = match header.format {
        PlyFormat::Ascii => decode_ascii_rows(bytes, &header, &layout, &mut set, &mut sh, zero, one, &convert, &activate),
        PlyFormat::BinaryLittleEndian => decode_binary_rows(bytes, &header, &layout, &mut set, &mut sh, zero, one, &convert, &activate),
    };
    if let Err(e) = res {
        return Err(e);
    }
    let ghost rows = spec_vertex_rows(bytes@)->Ok_0.1;
    let ghost n = rows.len();
    let ghost roles = roles_of(pv);
    let ghost k = sh_block_len(pv);
    let ghost set0 = set;
    let shl = sh.len();
    if shl > 0 {
        assert(k > 0) by (nonlinear_arith)
            requires
                shl == n * k,
                shl > 0,
        ;
        match layout.sh {
            Some(plan) => {
                set.sh_coeffs = Some(ShCoefficients { coeffs_per_channel: plan.coeffs_per_channel, coefficients: sh });
            },
            None => {},
        }
    } else {
        proof {
            if has_sh(roles) && n > 0 {
                assert(n * k > 0) by (nonlinear_arith)
                    requires
                        n > 0,
                        k >= 3,
                ;
            }
        }
    }
    proof {
        assert forall|i: int| 0 <= i < n implies core_at(set, i) == core_at(set0, i) by {}
        if has_sh(roles) && n > 0 {
            let cpc = extra_coeffs(roles) + 1;
            assert(n * k == n * cpc * 3) by (nonlinear_arith)
                requires
                    k == cpc * 3,
            ;
        }
    }
    assert(spec_vertex_rows(bytes@) matches Ok((h, rs)) && h == header@ && rs == rows);
    assert(rows_decoded(set0, sh@, pv, rows, convert, activate, zero, one));
    assert(sh_buffer(set) == sh@ || n == 0);
    assert(rows_decoded(set, sh_buffer(set), pv, rows, convert, activate, zero, one));
    assert(n > 0 ==> (set.sh_coeffs is Some <==> has_sh(roles)));
    assert(n > 0 ==> shape_check(set.shape()) is Ok);
    match set.validate() {
        Ok(()) => Ok(set),
        Err(e) => Err(PlyLoadError::Data(e.message())),
    }
}

} // verus!
