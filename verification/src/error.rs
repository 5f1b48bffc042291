//! Error types of the library.
use vstd::prelude::*;

verus! {

#[verifier::external_type_specification]
#[verifier::external_body]
pub struct ExJsonError(serde_json::Error);

#[verifier::external_type_specification]
#[verifier::external_body]
pub struct ExIoError(std::io::Error);

#[verifier::external_type_specification]
#[verifier::external_body]
pub struct ExZipError(zip::result::ZipError);

/// Errors of the core library: reading and writing packages, and edits
/// that name something the deck does not have.
#[derive(Debug)]
pub enum DeckMasterError {
    Serialization(serde_json::Error),
    Io(std::io::Error),
    Zip(zip::result::ZipError),
    Unsupported(String),
}

/// Errors of PPTX import and export, and of the other exporters.
#[derive(Debug)]
pub enum PptxError {
    ImportNotImplemented,
    ExportNotImplemented,
    Io(std::io::Error),
    Zip(zip::result::ZipError),
    Json(serde_json::Error),
    Core(DeckMasterError),
    InvalidImageSource(String),
    /// A part that should be XML could not be read as XML.
    Xml(String),
}

} // verus!
