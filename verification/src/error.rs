//! The error of loading a Gaussian PLY file.

use vstd::prelude::*;

verus! {

#[verifier::external_type_specification]
#[verifier::external_body]
pub struct ExIoError(std::io::Error);

/// Why a PLY file could not be loaded.
#[derive(Debug)]
pub enum PlyLoadError {
    /// The file could not be read.
    Io { path: String, source: std::io::Error },
    /// The header is malformed.
    Header(String),
    /// The header names a format or a scalar type that is not supported.
    Unsupported(String),
    /// The vertex data is malformed.
    Data(String),
}

/// A load error as the variant and its text.
pub enum LoadErrorView {
    Io(Seq<char>),
    Header(Seq<char>),
    Unsupported(Seq<char>),
    Data(Seq<char>),
}

impl View for PlyLoadError {
    type V = LoadErrorView;

    open spec fn view(&self) -> LoadErrorView {
        match self {
            PlyLoadError::Io { path, .. } => LoadErrorView::Io(path@),
            PlyLoadError::Header(m) => LoadErrorView::Header(m@),
            PlyLoadError::Unsupported(m) => LoadErrorView::Unsupported(m@),
            PlyLoadError::Data(m) => LoadErrorView::Data(m@),
        }
    }
}

} // verus!
