//! A verified parser for a line-oriented 3D mesh dialect.
//!
//! The library turns the text of a mesh file, together with the text of its
//! material file and a decoded texture image, into a list of polygonal faces
//! whose vertices carry a fully resolved position, colour and normal.  All
//! file reading and image decoding stays outside the library: callers hand in
//! bytes and decoded pixel grids, and get back owned faces or a structured
//! error.

use vstd::prelude::*;

pub use crate::face::{Face, Vertex};

pub mod face;
pub mod mesh;
pub mod mtl;
pub mod scalar;
pub mod texture;
pub mod tokenize;

verus! {

/// Why a parse was aborted.  Every error is terminal for the whole parse and
/// carries the 1-based line number of the offending record where one exists.
#[derive(Debug, PartialEq, Eq, Structural, Clone, Copy)]
pub enum ParseError {
    /// The mesh or material file could not be read.  Raised by the caller
    /// that performs the reading; the line is the `mtllib` record's line for
    /// a material file, or 0 for the mesh file itself.
    IoError { line: usize },
    /// The referenced texture image could not be decoded.  Raised by the
    /// caller that performs the decoding.
    ImageDecodeError { line: usize },
    /// A record had fewer tokens than required, a numeric token did not
    /// parse, or a face index group was malformed.
    FormatError { line: usize },
    /// A face record referenced a position, colour or normal index that is
    /// not present in the corresponding table (index 0 included).
    IndexOutOfRange { line: usize },
    /// A texture-coordinate lookup fell outside the bounds of the currently
    /// loaded image, including any lookup against a never-loaded 0x0 image.
    SampleOutOfRange { line: usize },
}

} // verus!
