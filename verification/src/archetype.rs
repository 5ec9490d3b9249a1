//! The component contract of the `GaussianSplats3D` archetype: the names under
//! which a splat cloud is logged and which components it must carry.

use vstd::prelude::*;
use vstd::string::*;

verus! {

/// One component of a logged splat cloud.
#[derive(Clone, Copy, Debug, PartialEq, Eq, Structural)]
pub enum SplatComponent {
    /// Per-splat world-space means.
    Centers,
    /// Per-splat orientation as unit quaternions.
    Quaternions,
    /// Per-splat anisotropic scale.
    Scales,
    /// Per-splat opacity.
    Opacities,
    /// Degree-0 color.
    Colors,
    /// Higher-order SH coefficients packed as a tensor.
    ShCoefficients,
}

pub open spec fn field_name(c: SplatComponent) -> Seq<char> {
    match c {
        SplatComponent::Centers => "centers"@,
        SplatComponent::Quaternions => "quaternions"@,
        SplatComponent::Scales => "scales"@,
        SplatComponent::Opacities => "opacities"@,
        SplatComponent::Colors => "colors"@,
        SplatComponent::ShCoefficients => "sh_coefficients"@,
    }
}

/// The components that every logged splat cloud carries, in logging order.
pub open spec fn required() -> Seq<SplatComponent> {
    seq![
        SplatComponent::Centers,
        SplatComponent::Quaternions,
        SplatComponent::Scales,
        SplatComponent::Opacities,
        SplatComponent::Colors,
    ]
}

/// The name of the archetype.
pub fn archetype_name() -> (s: String)
    ensures
        s@ == "GaussianSplats3D"@,
{
    String::from_str("GaussianSplats3D")
}

/// The name shown to users.
pub fn display_name() -> (s: &'static str)
    ensures
        s@ == "Gaussian Splats 3D"@,
{
    "Gaussian Splats 3D"
}

/// The component name of a field: the archetype name, a colon, the field name.
pub fn component_name(c: SplatComponent) -> (s: String)
    ensures
        s@ == "GaussianSplats3D:"@ + field_name(c),
{
    let mut s = String::from_str("GaussianSplats3D:");
    match c {
        SplatComponent::Centers => s.append("centers"),
        SplatComponent::Quaternions => s.append("quaternions"),
        SplatComponent::Scales => s.append("scales"),
        SplatComponent::Opacities => s.append("opacities"),
        SplatComponent::Colors => s.append("colors"),
        SplatComponent::ShCoefficients => s.append("sh_coefficients"),
    }
    s
}

/// The components that a splat cloud must carry.
pub fn required_components() -> (r: Vec<SplatComponent>)
    ensures
        r@ == required(),
{
    let r = vec![
        SplatComponent::Centers,
        SplatComponent::Quaternions,
        SplatComponent::Scales,
        SplatComponent::Opacities,
        SplatComponent::Colors,
    ];
    assert(r@ =~= required());
    r
}

/// The components that a splat cloud may carry.
pub fn optional_components() -> (r: Vec<SplatComponent>)
    ensures
        r@ == seq![SplatComponent::ShCoefficients],
{
    let r = vec![SplatComponent::ShCoefficients];
    assert(r@ =~= seq![SplatComponent::ShCoefficients]);
    r
}

/// The values present among `batches`, in order.
pub open spec fn present<T>(batches: Seq<Option<T>>) -> Seq<T>
    decreases batches.len(),
{
    if batches.len() == 0 {
        seq![]
    } else {
        match batches[0] {
            Some(b) => seq![b] + present(batches.drop_first()),
            None => present(batches.drop_first()),
        }
    }
}

/// The batches that are present, in order: what a logged cloud serializes to.
pub fn present_batches<T>(batches: Vec<Option<T>>) -> (r: Vec<T>)
    ensures
        r@ == present(batches@),
{
    let mut rest = batches;
    let mut out: Vec<T> = Vec::new();
    while rest.len() > 0
        invariant
            out@ + present(rest@) == present(batches@),
        decreases rest@.len(),
    {
        let ghost before = rest@;
        let b = rest.remove(0);
        assert(before.drop_first() =~= rest@);
        match b {
            Some(x) => {
                out.push(x);
                assert(out@ + present(rest@) =~= out@.drop_last() + present(before));
            },
            None => {},
        }
    }
    assert(out@ + Seq::<T>::empty() =~= out@);
    out
}

} // verus!
