//! SPARQL Query Results XML Format (SRX): the XML events the parser reads,
//! the streaming parser state machine, the incremental serializer and the
//! canonical form.

pub mod event;
pub mod text;
pub mod grammar;
pub mod stream;
pub mod parse;
pub mod write;
pub mod canonical;
pub mod fixpoint;
pub mod prefix;
pub mod readback;
pub mod roundtrip;
