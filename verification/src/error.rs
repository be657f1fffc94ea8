//! The closed set of failures a parse can end in, one variant per cause,
//! each carrying the data that reproduces its message.

use vstd::prelude::*;

verus! {

/// The mathematical image of an [`Error`]: token payloads as character
/// sequences, the object count as a natural number.
pub enum ErrorV {
    Generic(Seq<char>),
    IO(Seq<char>),
    ParseFloat(Seq<char>),
    ParseInt(Seq<char>),
    UnrecognizedToken(Seq<char>),
    ParseSingleObj(nat),
    MissingObjectDeclaration,
    InvalidVertexFormat,
    InvalidNormalFormat,
    InvalidUVTextureFormat,
    InvalidSmoothingFormat,
    InvalidFaceDefinitionString,
}

/// Why a parse failed. Numeric variants carry the offending token; the
/// cardinality variant carries the number of objects that were found.
#[derive(Clone, Debug, PartialEq, Eq)]
pub enum Error {
    /// An otherwise uncategorized failure, with its message.
    Generic(String),
    /// A file could not be read; carries the report of the read. Produced
    /// by callers that read files, never by parsing itself.
    IO(String),
    /// A coordinate token does not lie in the float grammar.
    ParseFloat(String),
    /// An index or smoothing token is not an unsigned integer in range.
    ParseInt(String),
    /// A directive outside the vocabulary, for callers that reject rather
    /// than skip such lines. Parsing skips them and never yields this.
    UnrecognizedToken(String),
    /// Exactly one object was asked for; carries how many were found.
    ParseSingleObj(usize),
    /// A mutating directive arrived before any object declaration.
    MissingObjectDeclaration,
    /// A vertex line with the wrong token count or leading directive.
    InvalidVertexFormat,
    /// A normal line with the wrong token count or leading directive.
    InvalidNormalFormat,
    /// A texture-coordinate line with the wrong token count or leading
    /// directive.
    InvalidUVTextureFormat,
    /// A smoothing line with other than one argument token.
    InvalidSmoothingFormat,
    /// A face-vertex token without exactly three slash-separated parts, or
    /// with a zero part, which no one-based index may hold.
    InvalidFaceDefinitionString,
}

impl View for Error {
    type V = ErrorV;

    open spec fn view(&self) -> ErrorV {
        match self {
            Error::Generic(s) => ErrorV::Generic(s@),
            Error::IO(s) => ErrorV::IO(s@),
            Error::ParseFloat(s) => ErrorV::ParseFloat(s@),
            Error::ParseInt(s) => ErrorV::ParseInt(s@),
            Error::UnrecognizedToken(s) => ErrorV::UnrecognizedToken(s@),
            Error::ParseSingleObj(n) => ErrorV::ParseSingleObj(*n as nat),
            Error::MissingObjectDeclaration => ErrorV::MissingObjectDeclaration,
            Error::InvalidVertexFormat => ErrorV::InvalidVertexFormat,
            Error::InvalidNormalFormat => ErrorV::InvalidNormalFormat,
            Error::InvalidUVTextureFormat => ErrorV::InvalidUVTextureFormat,
            Error::InvalidSmoothingFormat => ErrorV::InvalidSmoothingFormat,
            Error::InvalidFaceDefinitionString => ErrorV::InvalidFaceDefinitionString,
        }
    }
}

impl DeepView for Error {
    type V = ErrorV;

    open spec fn deep_view(&self) -> ErrorV {
        self.view()
    }
}

} // verus!
