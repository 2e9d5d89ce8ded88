//! Bridge errors: caller-input faults raised before any engine work begins.

use vstd::prelude::*;

verus! {

/// The bridge's error taxonomy. Every variant is raised synchronously while
/// reading caller input and is safe to surface verbatim.
///
/// - `UnsupportedValue`: a dynamic value with no decoding arm (a tag with no
///   meaning to the codec), or an attempt to encode an engine `Media` value.
/// - `UnresolvedDeclaration`: a declaration or type-expression discriminator
///   tag that the schema parser does not recognize.
/// - `MissingField`: a declaration lacks a required entry; carries that
///   entry's name.
/// - `InvalidShape`: a declaration part has the wrong shape; carries the
///   expected kind and a description of what was found.
#[derive(Debug, PartialEq)]
pub enum BridgeError {
    UnsupportedValue(String),
    UnresolvedDeclaration(String),
    MissingField(String),
    InvalidShape(String, String),
}

/// Mathematical model of a `BridgeError`.
pub enum ErrorModel {
    UnsupportedValue(Seq<char>),
    UnresolvedDeclaration(Seq<char>),
    MissingField(Seq<char>),
    InvalidShape(Seq<char>, Seq<char>),
}

impl View for BridgeError {
    type V = ErrorModel;

    open spec fn view(&self) -> ErrorModel {
        match self {
            BridgeError::UnsupportedValue(s) => ErrorModel::UnsupportedValue(s@),
            BridgeError::UnresolvedDeclaration(s) => ErrorModel::UnresolvedDeclaration(s@),
            BridgeError::MissingField(s) => ErrorModel::MissingField(s@),
            BridgeError::InvalidShape(k, g) => ErrorModel::InvalidShape(k@, g@),
        }
    }
}

} // verus!
