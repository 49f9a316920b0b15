//! Verified core of a command-line file converter: choosing the file type of a
//! path, looking up a converter able to go from one type to another, and
//! building the command line that runs it.
use vstd::prelude::*;

pub mod converters;
pub mod converting;
pub mod extension;
pub mod file_types;
pub mod text;

verus! {

/// Declares `std::path::PathBuf`, carried opaquely in error values.
#[verifier::external_type_specification]
#[verifier::external_body]
pub struct ExPathBuf(std::path::PathBuf);

/// Errors in the command-line arguments.
#[derive(Debug, PartialEq)]
pub enum ArgError {
    InvalidArgumentCount { len: usize },
    UnrecognizedExtension { file: std::path::PathBuf },
    InvalidFileName,
}

/// No loaded converter goes from the input type to the output type.
#[derive(Debug, Clone, PartialEq)]
pub enum RunError {
    NoConversionPossible { in_ext: String, out_ext: String },
}

} // verus!
