//! Where each Gaussian attribute comes from in a vertex row.
//!
//! Property names follow the GraphDECO / Brush conventions: `x y z`,
//! `scale_0..2`, `rot_0..3` (w x y z), `opacity`, `f_dc_0..2`, `red/green/blue`
//! (or `r/g/b`) and `f_rest_<n>`. When a name occurs more than once, the last
//! property with it wins.
//!
//! Higher-order spherical-harmonics coefficients are stored channel-major in the
//! file (all red `f_rest_*`, then all green, then all blue) and are regrouped
//! here as RGB triplets per coefficient, the DC term first.

use vstd::prelude::*;
use vstd::string::*;
use crate::header::{Property, PropertyView, ScalarType, properties_view};
use crate::number::{parse_usize, parse_usize_span};
use crate::text::{span_eq_str, span_starts_with_str, starts_with};

verus! {

/// What a property feeds.
#[derive(Clone, Copy, Debug, PartialEq, Eq, Structural)]
pub enum PropertyRole {
    /// A coordinate of the mean (0 = x, 1 = y, 2 = z).
    Position(usize),
    /// A log-scale component.
    LogScale(usize),
    /// A rotation component, in `w x y z` order.
    Rotation(usize),
    /// The logit opacity.
    Opacity,
    /// A DC spherical-harmonics coefficient (0 = red, 1 = green, 2 = blue).
    DcCoeff(usize),
    /// A plain color channel (0 = red, 1 = green, 2 = blue).
    Color(usize),
    /// Higher-order spherical-harmonics coefficient `f_rest_<n>`.
    ShRest(usize),
    /// A property that decoding does not read.
    Ignored,
}

/// The role that a property name gives.
pub open spec fn role_of(name: Seq<char>) -> PropertyRole {
    if name == "x"@ {
        PropertyRole::Position(0)
    } else if name == "y"@ {
        PropertyRole::Position(1)
    } else if name == "z"@ {
        PropertyRole::Position(2)
    } else if name == "scale_0"@ {
        PropertyRole::LogScale(0)
    } else if name == "scale_1"@ {
        PropertyRole::LogScale(1)
    } else if name == "scale_2"@ {
        PropertyRole::LogScale(2)
    } else if name == "rot_0"@ {
        PropertyRole::Rotation(0)
    } else if name == "rot_1"@ {
        PropertyRole::Rotation(1)
    } else if name == "rot_2"@ {
        PropertyRole::Rotation(2)
    } else if name == "rot_3"@ {
        PropertyRole::Rotation(3)
    } else if name == "opacity"@ {
        PropertyRole::Opacity
    } else if name == "f_dc_0"@ {
        PropertyRole::DcCoeff(0)
    } else if name == "f_dc_1"@ {
        PropertyRole::DcCoeff(1)
    } else if name == "f_dc_2"@ {
        PropertyRole::DcCoeff(2)
    } else if name == "red"@ || name == "r"@ {
        PropertyRole::Color(0)
    } else if name == "green"@ || name == "g"@ {
        PropertyRole::Color(1)
    } else if name == "blue"@ || name == "b"@ {
        PropertyRole::Color(2)
    } else if starts_with(name, "f_rest_"@) {
        match parse_usize(name.subrange("f_rest_"@.len() as int, name.len() as int)) {
            Ok(n) => PropertyRole::ShRest(n as usize),
            Err(_) => PropertyRole::Ignored,
        }
    } else {
        PropertyRole::Ignored
    }
}

pub open spec fn roles_of(props: Seq<PropertyView>) -> Seq<PropertyRole> {
    props.map_values(|p: PropertyView| role_of(p.name))
}

/// Index of the last role equal to `role`.
pub open spec fn last_index(roles: Seq<PropertyRole>, role: PropertyRole) -> Option<usize>
    decreases roles.len(),
{
    if roles.len() == 0 {
        None
    } else if roles.last() == role {
        Some((roles.len() - 1) as usize)
    } else {
        last_index(roles.drop_last(), role)
    }
}

pub proof fn lemma_last_index(roles: Seq<PropertyRole>, role: PropertyRole)
    requires
        roles.len() <= usize::MAX,
    ensures
        last_index(roles, role) matches Some(i) ==> i < roles.len() && roles[i as int] == role
            && forall|j: int| i < j < roles.len() ==> roles[j] != role,
        last_index(roles, role) is None ==> forall|j: int| 0 <= j < roles.len() ==> roles[j]
            != role,
    decreases roles.len(),
{
    if roles.len() > 0 && roles.last() != role {
        let prev = roles.drop_last();
        lemma_last_index(prev, role);
        assert forall|j: int| 0 <= j < roles.len() - 1 implies roles[j] == prev[j] by {}
        if let Some(i) = last_index(roles, role) {
            assert forall|j: int| i < j < roles.len() implies roles[j] != role by {
                if j < roles.len() - 1 {
                    assert(roles[j] == prev[j]);
                }
            }
        } else {
            assert forall|j: int| 0 <= j < roles.len() implies roles[j] != role by {
                if j < roles.len() - 1 {
                    assert(roles[j] == prev[j]);
                }
            }
        }
    }
}

/// Some `f_rest_<key>` property occurs among `roles`.
pub open spec fn has_rest_key(roles: Seq<PropertyRole>, key: usize) -> bool {
    exists|i: int| 0 <= i < roles.len() && roles[i] == PropertyRole::ShRest(key)
}

/// Number of distinct `f_rest_<n>` indices among `roles`.
pub open spec fn distinct_rest_count(roles: Seq<PropertyRole>) -> nat
    decreases roles.len(),
{
    if roles.len() == 0 {
        0
    } else {
        let prev = roles.drop_last();
        distinct_rest_count(prev) + match roles.last() {
            PropertyRole::ShRest(k) => if has_rest_key(prev, k) {
                0nat
            } else {
                1nat
            },
            _ => 0nat,
        }
    }
}

pub proof fn lemma_distinct_rest_count_bound(roles: Seq<PropertyRole>)
    ensures
        distinct_rest_count(roles) <= roles.len(),
    decreases roles.len(),
{
    if roles.len() > 0 {
        lemma_distinct_rest_count_bound(roles.drop_last());
    }
}

/// Some property is an `f_dc_*` coefficient.
pub open spec fn has_dc(roles: Seq<PropertyRole>) -> bool {
    exists|i: int| 0 <= i < roles.len() && (#[trigger] roles[i]) matches PropertyRole::DcCoeff(_)
}

/// Rows carry spherical harmonics when some property is `f_dc_*` or `f_rest_*`.
pub open spec fn has_sh(roles: Seq<PropertyRole>) -> bool {
    has_dc(roles) || distinct_rest_count(roles) > 0
}

/// Number of complete higher-order coefficient triplets.
pub open spec fn extra_coeffs(roles: Seq<PropertyRole>) -> nat {
    distinct_rest_count(roles) / 3
}

/// The property that feeds spherical-harmonics slot `s` (coefficient `s / 3`,
/// channel `s % 3`): `f_dc_<c>` for coefficient 0, else `f_rest_<c * extra + k - 1>`.
pub open spec fn sh_source(roles: Seq<PropertyRole>, s: int) -> Option<usize> {
    let extra = extra_coeffs(roles);
    let k = s / 3;
    let c = s % 3;
    if k == 0 {
        last_index(roles, PropertyRole::DcCoeff(c as usize))
    } else {
        last_index(roles, PropertyRole::ShRest((c * extra + k - 1) as usize))
    }
}

/// The slot sources of one row's spherical-harmonics block.
pub open spec fn sh_sources(roles: Seq<PropertyRole>) -> Seq<Option<usize>> {
    Seq::new(((extra_coeffs(roles) + 1) * 3) as nat, |s: int| sh_source(roles, s))
}

/// How the spherical-harmonics block of a row is assembled.
pub struct ShPlan {
    /// Coefficients per color channel, the DC term included.
    pub coeffs_per_channel: usize,
    /// Property index feeding each slot, `coeffs_per_channel * 3` of them; `None` is zero.
    pub sources: Vec<Option<usize>>,
}

/// Where each attribute of a row comes from.
pub struct SplatLayout {
    pub position: [Option<usize>; 3],
    pub log_scale: [Option<usize>; 3],
    pub rotation_wxyz: [Option<usize>; 4],
    pub opacity: Option<usize>,
    /// Plain color channels, with the property's scalar type.
    pub color: [Option<(usize, ScalarType)>; 3],
    /// `Some` when some `f_dc_*` property exists.
    pub dc: Option<[Option<usize>; 3]>,
    /// `Some` when the rows carry spherical harmonics.
    pub sh: Option<ShPlan>,
}

/// The index and scalar type of the last property with `role`.
pub open spec fn typed_index(props: Seq<PropertyView>, role: PropertyRole) -> Option<
    (usize, ScalarType),
> {
    match last_index(roles_of(props), role) {
        Some(i) => Some((i, props[i as int].scalar_type)),
        None => None,
    }
}

/// The layout that a property list determines.
pub open spec fn layout_matches(l: SplatLayout, props: Seq<PropertyView>) -> bool {
    let roles = roles_of(props);
    &&& l.position@ == seq![
        last_index(roles, PropertyRole::Position(0)),
        last_index(roles, PropertyRole::Position(1)),
        last_index(roles, PropertyRole::Position(2)),
    ]
    &&& l.log_scale@ == seq![
        last_index(roles, PropertyRole::LogScale(0)),
        last_index(roles, PropertyRole::LogScale(1)),
        last_index(roles, PropertyRole::LogScale(2)),
    ]
    &&& l.rotation_wxyz@ == seq![
        last_index(roles, PropertyRole::Rotation(0)),
        last_index(roles, PropertyRole::Rotation(1)),
        last_index(roles, PropertyRole::Rotation(2)),
        last_index(roles, PropertyRole::Rotation(3)),
    ]
    &&& l.opacity == last_index(roles, PropertyRole::Opacity)
    &&& l.color@ == seq![
        typed_index(props, PropertyRole::Color(0)),
        typed_index(props, PropertyRole::Color(1)),
        typed_index(props, PropertyRole::Color(2)),
    ]
    &&& (l.dc is Some <==> has_dc(roles))
    &&& (l.dc matches Some(d) ==> d@ == seq![
        last_index(roles, PropertyRole::DcCoeff(0)),
        last_index(roles, PropertyRole::DcCoeff(1)),
        last_index(roles, PropertyRole::DcCoeff(2)),
    ])
    &&& (l.sh is Some <==> has_sh(roles))
    &&& (l.sh matches Some(p) ==> p.coeffs_per_channel == extra_coeffs(roles) + 1
        && p.sources@ == sh_sources(roles))
}

/// Every index that the layout names is below `n`.
pub open spec fn layout_within(l: SplatLayout, n: nat) -> bool {
    &&& forall|i: int| 0 <= i < 3 ==> (#[trigger] l.position@[i] matches Some(j) ==> j < n)
    &&& forall|i: int| 0 <= i < 3 ==> (#[trigger] l.log_scale@[i] matches Some(j) ==> j < n)
    &&& forall|i: int| 0 <= i < 4 ==> (#[trigger] l.rotation_wxyz@[i] matches Some(j) ==> j < n)
    &&& (l.opacity matches Some(j) ==> j < n)
    &&& forall|i: int| 0 <= i < 3 ==> (#[trigger] l.color@[i] matches Some((j, _)) ==> j < n)
    &&& (l.dc matches Some(d) ==> forall|i: int| 0 <= i < 3 ==> (#[trigger] d@[i] matches Some(j) ==> j < n))
    &&& (l.sh matches Some(p) ==> {
        &&& p.sources@.len() == p.coeffs_per_channel * 3
        &&& forall|i: int| 0 <= i < p.sources@.len() ==> (#[trigger] p.sources@[i] matches Some(j) ==> j < n)
    })
}

/// Whether `v` is the text of `s`.
fn is_name(v: &Vec<char>, s: &str) -> (b: bool)
    ensures
        b == (v@ == s@),
{
    let b = span_eq_str(v, 0, v.len(), s);
    assert(v@.subrange(0, v@.len() as int) =~= v@);
    b
}

/// The role of a property named `name` (see `role_of`).
pub fn role_of_name(name: &Vec<char>) -> (r: PropertyRole)
    ensures
        r == role_of(name@),
{
    if is_name(name, "x") {
        PropertyRole::Position(0)
    } else if is_name(name, "y") {
        PropertyRole::Position(1)
    } else if is_name(name, "z") {
        PropertyRole::Position(2)
    } else if is_name(name, "scale_0") {
        PropertyRole::LogScale(0)
    } else if is_name(name, "scale_1") {
        PropertyRole::LogScale(1)
    } else if is_name(name, "scale_2") {
        PropertyRole::LogScale(2)
    } else if is_name(name, "rot_0") {
        PropertyRole::Rotation(0)
    } else if is_name(name, "rot_1") {
        PropertyRole::Rotation(1)
    } else if is_name(name, "rot_2") {
        PropertyRole::Rotation(2)
    } else if is_name(name, "rot_3") {
        PropertyRole::Rotation(3)
    } else if is_name(name, "opacity") {
        PropertyRole::Opacity
    } else if is_name(name, "f_dc_0") {
        PropertyRole::DcCoeff(0)
    } else if is_name(name, "f_dc_1") {
        PropertyRole::DcCoeff(1)
    } else if is_name(name, "f_dc_2") {
        PropertyRole::DcCoeff(2)
    } else if is_name(name, "red") || is_name(name, "r") {
        PropertyRole::Color(0)
    } else if is_name(name, "green") || is_name(name, "g") {
        PropertyRole::Color(1)
    } else if is_name(name, "blue") || is_name(name, "b") {
        PropertyRole::Color(2)
    } else if span_starts_with_str(name, 0, name.len(), "f_rest_") {
        assert(name@.subrange(0, name@.len() as int) =~= name@);
        proof {
            reveal_strlit("f_rest_");
        }
        match parse_usize_span(name, 7, name.len()) {
            Ok(n) => PropertyRole::ShRest(n),
            Err(_) => PropertyRole::Ignored,
        }
    } else {
        assert(name@.subrange(0, name@.len() as int) =~= name@);
        PropertyRole::Ignored
    }
}

/// The roles of a property list, in order.
pub fn property_roles(props: &Vec<Property>) -> (r: Vec<PropertyRole>)
    ensures
        r@ == roles_of(properties_view(props@)),
{
    let mut r: Vec<PropertyRole> = Vec::new();
    let mut i: usize = 0;
    while i < props.len()
        invariant
            i <= props@.len(),
            r@ == roles_of(properties_view(props@)).subrange(0, i as int),
        decreases props@.len() - i,
    {
        r.push(role_of_name(&props[i].name));
        assert(r@ =~= roles_of(properties_view(props@)).subrange(0, i + 1));
        i = i + 1;
    }
    assert(roles_of(properties_view(props@)).subrange(0, i as int) =~= roles_of(
        properties_view(props@),
    ));
    r
}

/// Index of the last role equal to `role` (see `last_index`).
fn find_last(roles: &Vec<PropertyRole>, role: PropertyRole) -> (r: Option<usize>)
    ensures
        r == last_index(roles@, role),
{
    let mut i = roles.len();
    assert(roles@.subrange(0, i as int) =~= roles@);
    while i > 0
        invariant
            i <= roles@.len(),
            last_index(roles@, role) == last_index(roles@.subrange(0, i as int), role),
        decreases i,
    {
        let ghost pre = roles@.subrange(0, i as int);
        if roles[i - 1] == role {
            return Some(i - 1);
        }
        assert(pre.drop_last() =~= roles@.subrange(0, i - 1));
        i = i - 1;
    }
    None
}

/// Whether some role is an `f_dc_*` coefficient.
fn find_dc(roles: &Vec<PropertyRole>) -> (b: bool)
    ensures
        b == has_dc(roles@),
{
    let mut i: usize = 0;
    while i < roles.len()
        invariant
            i <= roles@.len(),
            forall|j: int| 0 <= j < i ==> !((#[trigger] roles@[j]) matches PropertyRole::DcCoeff(_)),
        decreases roles@.len() - i,
    {
        if let PropertyRole::DcCoeff(_) = roles[i] {
            return true;
        }
        i = i + 1;
    }
    false
}

/// Number of distinct `f_rest_<n>` indices (see `distinct_rest_count`).
fn count_rest_keys(roles: &Vec<PropertyRole>) -> (n: usize)
    ensures
        n == distinct_rest_count(roles@),
{
    let mut n: usize = 0;
    let mut i: usize = 0;
    while i < roles.len()
        invariant
            i <= roles@.len(),
            n == distinct_rest_count(roles@.subrange(0, i as int)),
            n <= i,
        decreases roles@.len() - i,
    {
        let ghost pre = roles@.subrange(0, i + 1);
        assert(pre.drop_last() =~= roles@.subrange(0, i as int));
        if let PropertyRole::ShRest(k) = roles[i] {
            let mut seen = false;
            let mut j: usize = 0;
            while j < i
                invariant
                    j <= i < roles@.len(),
                    seen == (exists|m: int| 0 <= m < j && roles@[m] == PropertyRole::ShRest(k)),
                decreases i - j,
            {
                if roles[j] == PropertyRole::ShRest(k) {
                    seen = true;
                }
                j = j + 1;
            }
            assert(seen == has_rest_key(pre.drop_last(), k)) by {
                if seen {
                    let m = choose|m: int| 0 <= m < i && roles@[m] == PropertyRole::ShRest(k);
                    assert(pre.drop_last()[m] == PropertyRole::ShRest(k));
                }
                if has_rest_key(pre.drop_last(), k) {
                    let m = choose|m: int|
                        0 <= m < pre.drop_last().len() && pre.drop_last()[m]
                            == PropertyRole::ShRest(k);
                    assert(roles@[m] == PropertyRole::ShRest(k));
                }
            }
            if !seen {
                n = n + 1;
            }
        }
        i = i + 1;
    }
    assert(roles@.subrange(0, i as int) =~= roles@);
    n
}

/// The layout of rows with the given properties (see `layout_matches`).
pub fn splat_layout(props: &Vec<Property>) -> (l: SplatLayout)
    ensures
        layout_matches(l, properties_view(props@)),
        layout_within(l, props@.len() as nat),
{
    let ghost pv = properties_view(props@);
    let roles = property_roles(props);
    let rl = roles.len();
    proof {
        assert forall|role: PropertyRole| #[trigger] last_index(roles@, role) is Some implies last_index(roles@, role).unwrap() < props@.len() by {
            lemma_last_index(roles@, role);
        }
    }
    let position = [
        find_last(&roles, PropertyRole::Position(0)),
        find_last(&roles, PropertyRole::Position(1)),
        find_last(&roles, PropertyRole::Position(2)),
    ];
    let log_scale = [
        find_last(&roles, PropertyRole::LogScale(0)),
        find_last(&roles, PropertyRole::LogScale(1)),
        find_last(&roles, PropertyRole::LogScale(2)),
    ];
    let rotation_wxyz = [
        find_last(&roles, PropertyRole::Rotation(0)),
        find_last(&roles, PropertyRole::Rotation(1)),
        find_last(&roles, PropertyRole::Rotation(2)),
        find_last(&roles, PropertyRole::Rotation(3)),
    ];
    let opacity = find_last(&roles, PropertyRole::Opacity);
    let c0 = match find_last(&roles, PropertyRole::Color(0)) {
        Some(i) => Some((i, props[i].scalar_type)),
        None => None,
    };
    let c1 = match find_last(&roles, PropertyRole::Color(1)) {
        Some(i) => Some((i, props[i].scalar_type)),
        None => None,
    };
    let c2 = match find_last(&roles, PropertyRole::Color(2)) {
        Some(i) => Some((i, props[i].scalar_type)),
        None => None,
    };
    let color = [c0, c1, c2];
    let any_dc = find_dc(&roles);
    let dc = if any_dc {
        Some(
            [
                find_last(&roles, PropertyRole::DcCoeff(0)),
                find_last(&roles, PropertyRole::DcCoeff(1)),
                find_last(&roles, PropertyRole::DcCoeff(2)),
            ],
        )
    } else {
        None
    };
    let rest = count_rest_keys(&roles);
    proof {
        lemma_distinct_rest_count_bound(roles@);
    }
    let sh = if any_dc || rest > 0 {
        let extra = rest / 3;
        let mut sources: Vec<Option<usize>> = Vec::new();
        let mut k: usize = 0;
        while k <= extra
            invariant
                extra == extra_coeffs(roles@),
                extra <= roles@.len() / 3,
                roles@.len() == rl,
                k <= extra + 1,
                roles@.len() == props@.len(),
                sources@ == sh_sources(roles@).subrange(0, 3 * k),
                forall|role: PropertyRole| #[trigger] last_index(roles@, role) is Some
                    ==> last_index(roles@, role).unwrap() < props@.len(),
            decreases extra + 1 - k,
        {
            let mut c: usize = 0;
            while c < 3
                invariant
                    extra == extra_coeffs(roles@),
                    extra <= roles@.len() / 3,
                    roles@.len() == rl,
                    k <= extra,
                    c <= 3,
                    roles@.len() == props@.len(),
                    sources@ == sh_sources(roles@).subrange(0, 3 * k + c),
                decreases 3 - c,
            {
                assert((3 * k + c) / 3 == k && (3 * k + c) % 3 == c);
                let src = if k == 0 {
                    find_last(&roles, PropertyRole::DcCoeff(c))
                } else {
                    assert(c * extra <= 2 * extra) by (nonlinear_arith)
                        requires
                            c < 3,
                    ;
                    find_last(&roles, PropertyRole::ShRest(c * extra + k - 1))
                };
                sources.push(src);
                assert(sources@ =~= sh_sources(roles@).subrange(0, 3 * k + c + 1));
                c = c + 1;
            }
            k = k + 1;
        }
        assert(sh_sources(roles@).subrange(0, 3 * k) =~= sh_sources(roles@));
        Some(ShPlan { coeffs_per_channel: extra + 1, sources })
    } else {
        None
    };
    SplatLayout { position, log_scale, rotation_wxyz, opacity, color, dc, sh }
}

} // verus!
