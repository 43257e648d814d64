//! Diagnostic messages carried inside errors.
//!
//! These only build the human-readable text carried inside an error; the
//! kind of each error is decided, and proved, by the calling code.

use vstd::prelude::*;
use vstd::string::StringExecFns;

use crate::srj::token::{Token, TokenKind};

verus! {

/// `expected {kind:?}, got {token:?}`.
#[verifier::external_body]
pub(crate) fn expected_kind_message(kind: TokenKind, got: &Token) -> String {
    format!("expected {kind:?}, got {got:?}")
}

/// `expected JSON {what}, got {token:?}`.
#[verifier::external_body]
pub(crate) fn expected_json_message(what: &str, got: &Token) -> String {
    format!("expected JSON {what}, got {got:?}")
}

/// `trailing JSON after SRJ document: {token:?}`.
#[verifier::external_body]
pub(crate) fn trailing_json_message(got: &Token) -> String {
    format!("trailing JSON after SRJ document: {got:?}")
}

/// `{prefix}{text}`.
pub(crate) fn prefixed_message(prefix: &str, text: &str) -> (r: String)
    ensures
        r@ == prefix@ + text@,
{
    let s = prefix.to_owned();
    s.concat(text)
}

/// `{prefix}{lossy UTF-8 of bytes}`.
#[verifier::external_body]
pub(crate) fn prefixed_bytes_message(prefix: &str, bytes: &[u8]) -> String {
    format!("{prefix}{}", String::from_utf8_lossy(bytes))
}

/// The display text of a rejected base direction token.
#[verifier::external_body]
pub(crate) fn invalid_direction_message(token: &str) -> String {
    format!("invalid base direction {token:?}, expected \"ltr\" or \"rtl\"")
}

/// The message for text that is not an SRX boolean.
#[verifier::external_body]
pub(crate) fn invalid_boolean_message(text: &str) -> String {
    format!("invalid SRX boolean {text:?}")
}

/// The debug rendering of an XML event.
#[verifier::external_body]
pub(crate) fn event_message(event: &crate::srx::event::XmlEvent) -> String {
    format!("{event:?}")
}

} // verus!
