//! The decoded Gaussian set and its consistency check.
//!
//! The set is generic over the vector, quaternion and scalar types, which the
//! caller chooses (e.g. `glam::Vec3`, `glam::Quat`, `f32`); validation here
//! only looks at buffer lengths.

use vstd::prelude::*;
use vstd::string::*;
use crate::text::{decimal, push_decimal, string_of};

verus! {

/// Higher-order spherical harmonics of every splat.
pub struct ShCoefficients<S> {
    /// Number of SH basis coefficients per color channel, including the DC term.
    pub coeffs_per_channel: usize,
    /// Flat `[splat][coefficient][channel]` buffer.
    pub coefficients: Vec<S>,
}

/// A decoded Gaussian cloud: one entry per splat in each buffer.
pub struct GaussianSet<V, Q, S> {
    /// World-space Gaussian means.
    pub means_world: Vec<V>,
    /// Unit quaternions in `xyzw` storage order.
    pub quats: Vec<Q>,
    /// Decoded anisotropic scales.
    pub scales: Vec<V>,
    /// Decoded opacity in `[0, 1]`.
    pub opacities: Vec<S>,
    /// Degree-0 color.
    pub colors_dc: Vec<[S; 3]>,
    /// Optional higher-order SH coefficients.
    pub sh_coeffs: Option<ShCoefficients<S>>,
}

/// A buffer of the set besides the means.
#[derive(Clone, Copy, Debug, PartialEq, Eq, Structural)]
pub enum SetBuffer {
    Quaternions,
    Scales,
    Opacities,
    ColorsDc,
}

/// Why a Gaussian set is inconsistent.
#[derive(Clone, Copy, Debug, PartialEq, Eq, Structural)]
pub enum SetValidationError {
    /// The set has no splat.
    Empty,
    /// A buffer's length differs from the number of means.
    MismatchedLengths { means: usize, buffer: SetBuffer, len: usize },
    /// `len * coeffs_per_channel * 3` does not fit in `usize`.
    ShCountOverflow,
    /// The SH buffer does not hold `len * coeffs_per_channel * 3` values.
    MismatchedShCount { expected: usize, got: usize },
}

/// The buffer lengths of a set, and the SH shape when there is one.
pub struct SetShape {
    pub means: nat,
    pub quats: nat,
    pub scales: nat,
    pub opacities: nat,
    pub colors: nat,
    pub sh: Option<(nat, nat)>,
}

impl<V, Q, S> GaussianSet<V, Q, S> {
    pub open spec fn shape(&self) -> SetShape {
        SetShape {
            means: self.means_world@.len(),
            quats: self.quats@.len(),
            scales: self.scales@.len(),
            opacities: self.opacities@.len(),
            colors: self.colors_dc@.len(),
            sh: match self.sh_coeffs {
                Some(sh) => Some((sh.coeffs_per_channel as nat, sh.coefficients@.len())),
                None => None,
            },
        }
    }
}

/// The outcome of checking a set of this shape: the first inconsistency, in the
/// order emptiness, quaternions, scales, opacities, colors, SH count.
pub open spec fn shape_check(s: SetShape) -> Result<(), SetValidationError> {
    if s.means == 0 {
        Err(SetValidationError::Empty)
    } else if s.quats != s.means {
        Err(
            SetValidationError::MismatchedLengths {
                means: s.means as usize,
                buffer: SetBuffer::Quaternions,
                len: s.quats as usize,
            },
        )
    } else if s.scales != s.means {
        Err(
            SetValidationError::MismatchedLengths {
                means: s.means as usize,
                buffer: SetBuffer::Scales,
                len: s.scales as usize,
            },
        )
    } else if s.opacities != s.means {
        Err(
            SetValidationError::MismatchedLengths {
                means: s.means as usize,
                buffer: SetBuffer::Opacities,
                len: s.opacities as usize,
            },
        )
    } else if s.colors != s.means {
        Err(
            SetValidationError::MismatchedLengths {
                means: s.means as usize,
                buffer: SetBuffer::ColorsDc,
                len: s.colors as usize,
            },
        )
    } else {
        match s.sh {
            None => Ok(()),
            Some((cpc, got)) => if s.means * cpc * 3 > usize::MAX {
                Err(SetValidationError::ShCountOverflow)
            } else if got != s.means * cpc * 3 {
                Err(
                    SetValidationError::MismatchedShCount {
                        expected: (s.means * cpc * 3) as usize,
                        got: got as usize,
                    },
                )
            } else {
                Ok(())
            },
        }
    }
}

pub open spec fn buffer_name(b: SetBuffer) -> Seq<char> {
    match b {
        SetBuffer::Quaternions => "quaternions"@,
        SetBuffer::Scales => "scales"@,
        SetBuffer::Opacities => "opacities"@,
        SetBuffer::ColorsDc => "colors_dc"@,
    }
}

/// The text of a validation error.
pub open spec fn validation_message(e: SetValidationError) -> Seq<char> {
    match e {
        SetValidationError::Empty => "the gaussian set is empty"@,
        SetValidationError::MismatchedLengths { means, buffer, len } => "mismatched gaussian buffer lengths: means="@
            + decimal(means as nat) + ", "@ + buffer_name(buffer) + "="@ + decimal(len as nat),
        SetValidationError::ShCountOverflow => "SH coefficient count overflow"@,
        SetValidationError::MismatchedShCount { expected, got } => "mismatched SH coefficient count: expected "@
            + decimal(expected as nat) + ", got "@ + decimal(got as nat),
    }
}

impl SetValidationError {
    /// The text of the error.
    pub fn message(&self) -> (s: String)
        ensures
            s@ == validation_message(*self),
    {
        match *self {
            SetValidationError::Empty => string_of("the gaussian set is empty"),
            SetValidationError::MismatchedLengths { means, buffer, len } => {
                let mut s = string_of("mismatched gaussian buffer lengths: means=");
                push_decimal(&mut s, means);
                s.append(", ");
                match buffer {
                    SetBuffer::Quaternions => s.append("quaternions"),
                    SetBuffer::Scales => s.append("scales"),
                    SetBuffer::Opacities => s.append("opacities"),
                    SetBuffer::ColorsDc => s.append("colors_dc"),
                }
                s.append("=");
                push_decimal(&mut s, len);
                s
            },
            SetValidationError::ShCountOverflow => string_of("SH coefficient count overflow"),
            SetValidationError::MismatchedShCount { expected, got } => {
                let mut s = string_of("mismatched SH coefficient count: expected ");
                push_decimal(&mut s, expected);
                s.append(", got ");
                push_decimal(&mut s, got);
                s
            },
        }
    }
}

impl<V, Q, S> Default for GaussianSet<V, Q, S> {
    /// An empty set.
    fn default() -> (r: Self)
        ensures
            r.means_world@.len() == 0,
            r.quats@.len() == 0,
            r.scales@.len() == 0,
            r.opacities@.len() == 0,
            r.colors_dc@.len() == 0,
            r.sh_coeffs is None,
    {
        Self::new()
    }
}

impl<V, Q, S> GaussianSet<V, Q, S> {
    /// An empty set.
    pub fn new() -> (r: Self)
        ensures
            r.means_world@.len() == 0,
            r.quats@.len() == 0,
            r.scales@.len() == 0,
            r.opacities@.len() == 0,
            r.colors_dc@.len() == 0,
            r.sh_coeffs is None,
    {
        GaussianSet {
            means_world: Vec::new(),
            quats: Vec::new(),
            scales: Vec::new(),
            opacities: Vec::new(),
            colors_dc: Vec::new(),
            sh_coeffs: None,
        }
    }

    /// Number of splats (the number of means).
    pub fn len(&self) -> (n: usize)
        ensures
            n == self.means_world@.len(),
    {
        self.means_world.len()
    }

    /// Checks that every buffer holds one entry per mean and that the SH buffer
    /// holds `len * coeffs_per_channel * 3` values (see `shape_check`).
    pub fn validate(&self) -> (r: Result<(), SetValidationError>)
        ensures
            r == shape_check(self.shape()),
    {
        let len = self.means_world.len();
        if len == 0 {
            return Err(SetValidationError::Empty);
        }
        if self.quats.len() != len {
            return Err(
                SetValidationError::MismatchedLengths {
                    means: len,
                    buffer: SetBuffer::Quaternions,
                    len: self.quats.len(),
                },
            );
        }
        if self.scales.len() != len {
            return Err(
                SetValidationError::MismatchedLengths {
                    means: len,
                    buffer: SetBuffer::Scales,
                    len: self.scales.len(),
                },
            );
        }
        if self.opacities.len() != len {
            return Err(
                SetValidationError::MismatchedLengths {
                    means: len,
                    buffer: SetBuffer::Opacities,
                    len: self.opacities.len(),
                },
            );
        }
        if self.colors_dc.len() != len {
            return Err(
                SetValidationError::MismatchedLengths {
                    means: len,
                    buffer: SetBuffer::ColorsDc,
                    len: self.colors_dc.len(),
                },
            );
        }
        match &self.sh_coeffs {
            None => Ok(()),
            Some(sh) => {
                let expected = match len.checked_mul(sh.coeffs_per_channel) {
                    Some(v) => v.checked_mul(3),
                    None => None,
                };
                match expected {
                    None => {
                        assert(len * sh.coeffs_per_channel * 3 > usize::MAX) by (nonlinear_arith)
                            requires
                                len * sh.coeffs_per_channel > usize::MAX || len
                                    * sh.coeffs_per_channel * 3 > usize::MAX,
                        ;
                        Err(SetValidationError::ShCountOverflow)
                    },
                    Some(e) => {
                        if sh.coefficients.len() != e {
                            Err(
                                SetValidationError::MismatchedShCount {
                                    expected: e,
                                    got: sh.coefficients.len(),
                                },
                            )
                        } else {
                            Ok(())
                        }
                    },
                }
            },
        }
    }
}

} // verus!
