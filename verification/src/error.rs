//! The error type shared by both codecs.

use vstd::prelude::*;

verus! {

/// Errors raised while parsing or serializing SPARQL query result
/// documents in SRX or SRJ form.
#[derive(Debug, Clone, PartialEq, Eq)]
pub enum SparqlResultsError {
    /// The underlying XML reader or writer failed.
    Xml(String),
    /// The underlying JSON reader or writer failed.
    Json(String),
    /// An element or field was not valid in the current document context.
    UnexpectedElement(String),
    /// A required element or field was absent.
    MissingElement(String),
    /// The document structure is internally inconsistent.
    InvalidDocument(String),
}

/// The variant of a [`SparqlResultsError`], without its message.
#[derive(PartialEq, Eq, Structural, Debug, Clone, Copy)]
pub enum ErrKind {
    Xml,
    Json,
    UnexpectedElement,
    MissingElement,
    InvalidDocument,
}

impl SparqlResultsError {
    /// The variant of this error.
    pub open spec fn kind(&self) -> ErrKind {
        match self {
            SparqlResultsError::Xml(_) => ErrKind::Xml,
            SparqlResultsError::Json(_) => ErrKind::Json,
            SparqlResultsError::UnexpectedElement(_) => ErrKind::UnexpectedElement,
            SparqlResultsError::MissingElement(_) => ErrKind::MissingElement,
            SparqlResultsError::InvalidDocument(_) => ErrKind::InvalidDocument,
        }
    }

    /// The message carried by this error.
    pub open spec fn message(&self) -> Seq<char> {
        match self {
            SparqlResultsError::Xml(m) => m@,
            SparqlResultsError::Json(m) => m@,
            SparqlResultsError::UnexpectedElement(m) => m@,
            SparqlResultsError::MissingElement(m) => m@,
            SparqlResultsError::InvalidDocument(m) => m@,
        }
    }

    /// The variant of this error, computed.
    pub fn error_kind(&self) -> (k: ErrKind)
        ensures
            k == self.kind(),
    {
        match self {
            SparqlResultsError::Xml(_) => ErrKind::Xml,
            SparqlResultsError::Json(_) => ErrKind::Json,
            SparqlResultsError::UnexpectedElement(_) => ErrKind::UnexpectedElement,
            SparqlResultsError::MissingElement(_) => ErrKind::MissingElement,
            SparqlResultsError::InvalidDocument(_) => ErrKind::InvalidDocument,
        }
    }
}

/// Builds an error of the given kind carrying `msg`.
pub fn make_error(kind: ErrKind, msg: String) -> (e: SparqlResultsError)
    ensures
        e.kind() == kind,
        e.message() == msg@,
{
    match kind {
        ErrKind::Xml => SparqlResultsError::Xml(msg),
        ErrKind::Json => SparqlResultsError::Json(msg),
        ErrKind::UnexpectedElement => SparqlResultsError::UnexpectedElement(msg),
        ErrKind::MissingElement => SparqlResultsError::MissingElement(msg),
        ErrKind::InvalidDocument => SparqlResultsError::InvalidDocument(msg),
    }
}

/// Builds an error of the given kind carrying a fixed message.
pub fn error_with(kind: ErrKind, msg: &str) -> (e: SparqlResultsError)
    ensures
        e.kind() == kind,
        e.message() == msg@,
{
    make_error(kind, msg.to_owned())
}

} // verus!
