//! Verified parsers and serializers for the W3C SPARQL Query Results
//! interchange formats: SPARQL Query Results XML (SRX) and SPARQL Query
//! Results JSON (SRJ).
//!
//! The library is a set of pure, verified state machines and encoders.
//! Readers and writers hand it bytes or XML events and perform the actions
//! it returns, so memory stays independent of the number of solution rows.

pub mod error;
pub mod types;
pub mod text;
pub mod srj;
pub mod srx;
mod messages;

pub use error::{ErrKind, SparqlResultsError};
pub use srj::parse::parse_srj_document;
pub use srj::serialize::{write_srj_bytes, SrjWriter};
pub use srj::stream::{SrjEvent, SrjOutcome, SrjParser, SrjStepOut, SrjStreamKind, SrjStreamSummary};
pub use srj::token::{scan_token, Scanned, Token};
pub use srx::canonical::{CanonOut, SrxCanonicalizer};
pub use srx::event::{XmlAttribute, XmlEvent, XmlTag};
pub use srx::parse::parse_srx_events;
pub use srx::stream::{SrxEvent, SrxOutcome, SrxParser, SrxStepOut, SrxStreamKind, SrxStreamSummary};
pub use srx::write::{write_srx_bytes, SrxWriter};
pub use types::{BaseDirection, ParseBaseDirectionError, ResultRow, ResultValue, SparqlResult, Term};
