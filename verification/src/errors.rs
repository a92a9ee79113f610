//! The failures that the library reports.

use vstd::prelude::*;

verus! {

/// `std::io::Error`, carried through as an opaque value.
#[verifier::external_type_specification]
#[verifier::external_body]
pub struct ExIoError(std::io::Error);

/// `image::ImageError`, carried through as an opaque value.
#[verifier::external_type_specification]
#[verifier::external_body]
pub struct ExImageError(image::ImageError);

/// `csv::Error`, carried through as an opaque value.
#[verifier::external_type_specification]
#[verifier::external_body]
pub struct ExCsvError(csv::Error);

/// Why an operation failed.
#[derive(Debug)]
pub enum SemantiXelError {
    /// The file system refused an access.
    IoError(std::io::Error),
    /// An image could not be decoded.
    CodecError(image::ImageError),
    /// The path names nothing.
    InvalidPath(String),
    /// The extension is not one that is handled.
    InvalidExtension(String),
    /// The inputs of an operation do not fit together.
    ProcessingError(String),
    /// A table could not be parsed or written.
    SerializationError(csv::Error),
}

} // verus!
