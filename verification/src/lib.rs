//! Verified decoding of static Gaussian-splat PLY files (the GraphDECO / Brush
//! layout), and the component contract under which a decoded cloud is logged.
//!
//! `decode::decode_gaussian_ply` takes the bytes of a file and returns a
//! `gaussian::GaussianSet`; the two steps that need floating point (turning a
//! raw value into a scalar, and activating a splat's attributes) are handed in
//! by the caller.

pub mod archetype;
pub mod cli;
pub mod decode;
pub mod error;
pub mod gaussian;
pub mod header;
pub mod laws;
pub mod layout;
pub mod number;
pub mod rows;
pub mod text;
pub mod unicode;

pub use decode::{ColorSource, SplatCore, SplatInputs, decode_gaussian_ply};
pub use error::PlyLoadError;
pub use gaussian::{GaussianSet, SetBuffer, SetValidationError, ShCoefficients};
pub use header::{PlyFormat, PlyHeader, Property, ScalarType, parse_header, parse_scalar_type};
pub use rows::RawScalar;
