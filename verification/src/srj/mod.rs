//! SPARQL Query Results JSON Format (SRJ): tokenizer, streaming parser
//! state machine and incremental serializer.

pub mod token;
pub mod whitespace;
pub mod grammar;
pub mod document;
pub mod stream;
pub mod wire;
pub mod serialize;
pub mod parse;
pub mod readback;
pub mod roundtrip;
