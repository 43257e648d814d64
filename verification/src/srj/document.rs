//! Executable SRJ value, binding and head parsers over a token slice.
//!
//! Every function here is proved to compute exactly the corresponding
//! grammar function of [`crate::srj::grammar`].

use vstd::prelude::*;

use crate::error::{error_with, make_error, ErrKind, SparqlResultsError};
use crate::messages::{expected_json_message, expected_kind_message, prefixed_message};
use crate::srj::grammar::{
    fail_as, finish_term, no_fields, sp_binding_members, sp_comma_or_end, sp_expect, sp_expect_bool,
    sp_expect_string, sp_head_members, sp_next_is, sp_parse_binding, sp_parse_head, sp_parse_value,
    sp_parse_vars, sp_skip_elements, sp_skip_members, sp_skip_value, sp_triple_member,
    sp_triple_members, sp_value_field, sp_value_member, sp_value_members, sp_vars_elements, toks,
    Fields, Parsed, TripleParts, ValueField,
};
use crate::srj::token::{tok_kind, Tok, Token, TokenKind};
use crate::text::str_is;
use crate::types::{
    binding_entries, direction_of_token, entries_insert, insert_binding, new_bindings, opt_text,
    parse_base_direction, BaseDirection, ResultRow, ResultValue, Term,
};

verus! {

/// Outcome of an executable parser: the parsed value and the next
/// position, an error, or a request for more tokens.
pub enum Progress<T> {
    Incomplete,
    Failed(SparqlResultsError),
    Done(T, usize),
}

/// The executable outcome `r` is the grammar outcome `s`, values compared
/// through `f`.
pub open spec fn agrees<T, V>(r: Progress<T>, s: Parsed<V>, f: spec_fn(T) -> V) -> bool {
    match r {
        Progress::Incomplete => s is Incomplete,
        Progress::Failed(e) => s == Parsed::<V>::Failed(e.kind()),
        Progress::Done(v, q) => s == Parsed::Done(f(v), q as int),
    }
}

/// A `Done` outcome ends strictly after `p` and within the tokens.
pub open spec fn advances<T>(r: Progress<T>, p: int, len: int) -> bool {
    r matches Progress::Done(_, q) ==> p < q <= len
}

pub fn next_is(ts: &[Token], p: usize, k: TokenKind) -> (r: Progress<bool>)
    requires
        p <= ts@.len(),
    ensures
        agrees(r, sp_next_is(toks(ts@), p as int, k), (|b: bool| b)),
        r matches Progress::Done(b, q) ==> (b ==> q == p + 1) && (!b ==> q == p) && q <= ts@.len(),
{
    if p >= ts.len() {
        return Progress::Incomplete;
    }
    if ts[p].kind() == k {
        Progress::Done(true, p + 1)
    } else {
        Progress::Done(false, p)
    }
}

pub fn expect(ts: &[Token], p: usize, k: TokenKind) -> (r: Progress<()>)
    requires
        p <= ts@.len(),
    ensures
        agrees(r, sp_expect(toks(ts@), p as int, k), (|u: ()| u)),
        r matches Progress::Done(_, q) ==> q == p + 1 && q <= ts@.len(),
{
    if p >= ts.len() {
        return Progress::Incomplete;
    }
    if ts[p].kind() == k {
        Progress::Done((), p + 1)
    } else {
        Progress::Failed(make_error(ErrKind::Json, expected_kind_message(k, &ts[p])))
    }
}

pub fn expect_string(ts: &[Token], p: usize) -> (r: Progress<String>)
    requires
        p <= ts@.len(),
    ensures
        agrees(r, sp_expect_string(toks(ts@), p as int), (|s: String| s@)),
        r matches Progress::Done(_, q) ==> q == p + 1 && q <= ts@.len(),
{
    if p >= ts.len() {
        return Progress::Incomplete;
    }
    match &ts[p] {
        Token::String(s) => Progress::Done(s.clone(), p + 1),
        other => Progress::Failed(make_error(ErrKind::Json, expected_json_message("string", other))),
    }
}

pub fn expect_bool(ts: &[Token], p: usize) -> (r: Progress<bool>)
    requires
        p <= ts@.len(),
    ensures
        agrees(r, sp_expect_bool(toks(ts@), p as int), (|b: bool| b)),
        r matches Progress::Done(_, q) ==> q == p + 1 && q <= ts@.len(),
{
    if p >= ts.len() {
        return Progress::Incomplete;
    }
    match &ts[p] {
        Token::Bool(b) => Progress::Done(*b, p + 1),
        other => Progress::Failed(make_error(ErrKind::Json, expected_json_message("boolean", other))),
    }
}

pub fn comma_or_end(ts: &[Token], p: usize) -> (r: Progress<bool>)
    requires
        p <= ts@.len(),
    ensures
        agrees(r, sp_comma_or_end(toks(ts@), p as int), (|b: bool| b)),
        r matches Progress::Done(_, q) ==> q == p + 1 && q <= ts@.len(),
{
    if p >= ts.len() {
        return Progress::Incomplete;
    }
    match &ts[p] {
        Token::Comma => {
            if p + 1 >= ts.len() {
                return Progress::Incomplete;
            }
            match &ts[p + 1] {
                Token::ObjectEnd | Token::ArrayEnd => Progress::Failed(
                    error_with(ErrKind::Json, "trailing comma in SRJ document"),
                ),
                _ => Progress::Done(true, p + 1),
            }
        },
        Token::ObjectEnd | Token::ArrayEnd => Progress::Done(false, p + 1),
        _ => Progress::Failed(error_with(ErrKind::Json, "expected comma or closing delimiter")),
    }
}

/// Skips one JSON value.
pub fn skip_value(ts: &[Token], p: usize) -> (r: Progress<()>)
    requires
        p <= ts@.len(),
    ensures
        agrees(r, sp_skip_value(toks(ts@), p as int), (|u: ()| u)),
        advances(r, p as int, ts@.len() as int),
    decreases ts@.len() - p, 0int,
{
    if p >= ts.len() {
        return Progress::Incomplete;
    }
    match &ts[p] {
        Token::ObjectStart => skip_members(ts, p + 1),
        Token::ArrayStart => skip_elements(ts, p + 1),
        Token::String(_) | Token::Bool(_) | Token::Null | Token::Number => Progress::Done((), p + 1),
        _ => Progress::Failed(error_with(ErrKind::Json, "invalid JSON value")),
    }
}

/// Skips the members of an object whose `{` has been read.
pub fn skip_members(ts: &[Token], p0: usize) -> (r: Progress<()>)
    requires
        p0 <= ts@.len(),
    ensures
        agrees(r, sp_skip_members(toks(ts@), p0 as int), (|u: ()| u)),
        advances(r, p0 as int, ts@.len() as int),
    decreases ts@.len() - p0, 1int,
{
    let ghost t = toks(ts@);
    let mut p = p0;
    loop
        invariant
            p0 <= p <= ts@.len(),
            t == toks(ts@),
            sp_skip_members(t, p0 as int) == sp_skip_members(t, p as int),
        decreases ts@.len() - p,
    {
        let q = match next_is(ts, p, TokenKind::ObjectEnd) {
            Progress::Incomplete => return Progress::Incomplete,
            Progress::Failed(e) => return Progress::Failed(e),
            Progress::Done(true, q) => return Progress::Done((), q),
            Progress::Done(false, q) => q,
        };
        let q1 = match expect_string(ts, q) {
            Progress::Incomplete => return Progress::Incomplete,
            Progress::Failed(e) => return Progress::Failed(e),
            Progress::Done(_, q1) => q1,
        };
        let q2 = match expect(ts, q1, TokenKind::Colon) {
            Progress::Incomplete => return Progress::Incomplete,
            Progress::Failed(e) => return Progress::Failed(e),
            Progress::Done(_, q2) => q2,
        };
        let q3 = match skip_value(ts, q2) {
            Progress::Incomplete => return Progress::Incomplete,
            Progress::Failed(e) => return Progress::Failed(e),
            Progress::Done(_, q3) => q3,
        };
        match comma_or_end(ts, q3) {
            Progress::Incomplete => return Progress::Incomplete,
            Progress::Failed(e) => return Progress::Failed(e),
            Progress::Done(true, q4) => {
                p = q4;
            },
            Progress::Done(false, q4) => return Progress::Done((), q4),
        }
    }
}

/// Skips the elements of an array whose `[` has been read.
pub fn skip_elements(ts: &[Token], p0: usize) -> (r: Progress<()>)
    requires
        p0 <= ts@.len(),
    ensures
        agrees(r, sp_skip_elements(toks(ts@), p0 as int), (|u: ()| u)),
        advances(r, p0 as int, ts@.len() as int),
    decreases ts@.len() - p0, 1int,
{
    let ghost t = toks(ts@);
    let mut p = p0;
    loop
        invariant
            p0 <= p <= ts@.len(),
            t == toks(ts@),
            sp_skip_elements(t, p0 as int) == sp_skip_elements(t, p as int),
        decreases ts@.len() - p,
    {
        let q = match next_is(ts, p, TokenKind::ArrayEnd) {
            Progress::Incomplete => return Progress::Incomplete,
            Progress::Failed(e) => return Progress::Failed(e),
            Progress::Done(true, q) => return Progress::Done((), q),
            Progress::Done(false, q) => q,
        };
        let q1 = match skip_value(ts, q) {
            Progress::Incomplete => return Progress::Incomplete,
            Progress::Failed(e) => return Progress::Failed(e),
            Progress::Done(_, q1) => q1,
        };
        match comma_or_end(ts, q1) {
            Progress::Incomplete => return Progress::Incomplete,
            Progress::Failed(e) => return Progress::Failed(e),
            Progress::Done(true, q2) => {
                p = q2;
            },
            Progress::Done(false, q2) => return Progress::Done((), q2),
        }
    }
}

} // verus!

verus! {

/// The `value` member of a term object.
pub enum ValueFieldExec {
    Text(String),
    Triple(ResultValue, ResultValue, ResultValue),
}

pub open spec fn value_field_view(v: ValueFieldExec) -> ValueField {
    match v {
        ValueFieldExec::Text(s) => ValueField::Text(s@),
        ValueFieldExec::Triple(s, p, o) => ValueField::Triple(s@, p@, o@),
    }
}

pub open spec fn opt_value_field_view(v: Option<ValueFieldExec>) -> Option<ValueField> {
    match v {
        Some(x) => Some(value_field_view(x)),
        None => None,
    }
}

/// The members of a term object read so far.
pub struct FieldsExec {
    pub term_type: Option<String>,
    pub value: Option<ValueFieldExec>,
    pub lang: Option<String>,
    pub datatype: Option<String>,
    pub dir: Option<BaseDirection>,
}

pub open spec fn fields_view(f: FieldsExec) -> Fields {
    Fields {
        term_type: opt_text(f.term_type),
        value: opt_value_field_view(f.value),
        lang: opt_text(f.lang),
        datatype: opt_text(f.datatype),
        dir: f.dir,
    }
}

/// The parts of a triple object read so far.
pub type PartsExec = (Option<ResultValue>, Option<ResultValue>, Option<ResultValue>);

pub open spec fn opt_term(v: Option<ResultValue>) -> Option<Term> {
    match v {
        Some(x) => Some(x@),
        None => None,
    }
}

pub open spec fn parts_view(p: PartsExec) -> TripleParts {
    (opt_term(p.0), opt_term(p.1), opt_term(p.2))
}

/// The views of a list of texts.
pub open spec fn texts(v: Seq<String>) -> Seq<Seq<char>> {
    v.map_values(|s: String| s@)
}

/// The string of a `value` member, which must be present and a string.
fn expect_string_value(value: Option<ValueFieldExec>) -> (r: Result<String, SparqlResultsError>)
    ensures
        match opt_value_field_view(value) {
            Some(ValueField::Text(s)) => r matches Ok(t) && t@ == s,
            _ => r matches Err(e) && e.kind() == ErrKind::MissingElement,
        },
{
    match value {
        Some(ValueFieldExec::Text(value)) => Ok(value),
        _ => Err(error_with(ErrKind::MissingElement, "SRJ term value")),
    }
}

/// The error for a triple object without the given part.
fn missing_triple_part(part: &str) -> (e: SparqlResultsError)
    ensures
        e.kind() == ErrKind::MissingElement,
{
    make_error(ErrKind::MissingElement, prefixed_message("SRJ triple ", part))
}

/// Builds the term that the members of a term object denote.
fn finish_term_exec(f: FieldsExec) -> (r: Result<ResultValue, SparqlResultsError>)
    ensures
        match finish_term(fields_view(f)) {
            Ok(t) => r matches Ok(v) && v@ == t,
            Err(k) => r matches Err(e) && e.kind() == k,
        },
{
    let term_type = match f.term_type {
        Some(t) => t,
        None => return Err(error_with(ErrKind::MissingElement, "SRJ term type")),
    };
    if str_is(term_type.as_str(), "uri") {
        Ok(ResultValue::Uri(expect_string_value(f.value)?))
    } else if str_is(term_type.as_str(), "bnode") {
        Ok(ResultValue::BNode(expect_string_value(f.value)?))
    } else if str_is(term_type.as_str(), "literal") {
        let value = expect_string_value(f.value)?;
        Ok(ResultValue::Literal { value, lang: f.lang, datatype: f.datatype, dir: f.dir })
    } else if str_is(term_type.as_str(), "triple") {
        match f.value {
            Some(ValueFieldExec::Triple(subject, predicate, object)) => Ok(
                ResultValue::Triple {
                    subject: Box::new(subject),
                    predicate: Box::new(predicate),
                    object: Box::new(object),
                },
            ),
            _ => Err(error_with(ErrKind::InvalidDocument, "SRJ triple value must be an object")),
        }
    } else {
        Err(make_error(ErrKind::UnexpectedElement, prefixed_message("SRJ term type ", term_type.as_str())))
    }
}

/// Parses one term object: `{"type": ..., "value": ..., ...}`.
pub fn parse_value(ts: &[Token], p: usize) -> (r: Progress<ResultValue>)
    requires
        p <= ts@.len(),
    ensures
        agrees(r, sp_parse_value(toks(ts@), p as int), (|v: ResultValue| v@)),
        advances(r, p as int, ts@.len() as int),
    decreases ts@.len() - p, 0int,
{
    let q = match expect(ts, p, TokenKind::ObjectStart) {
        Progress::Incomplete => return Progress::Incomplete,
        Progress::Failed(e) => return Progress::Failed(e),
        Progress::Done(_, q) => q,
    };
    let empty = FieldsExec { term_type: None, value: None, lang: None, datatype: None, dir: None };
    match value_members(ts, q, empty) {
        Progress::Incomplete => Progress::Incomplete,
        Progress::Failed(e) => Progress::Failed(e),
        Progress::Done(f, q2) => match finish_term_exec(f) {
            Ok(v) => Progress::Done(v, q2),
            Err(e) => Progress::Failed(e),
        },
    }
}

/// The members of a term object whose `{` has been read.
fn value_members(ts: &[Token], p0: usize, f0: FieldsExec) -> (r: Progress<FieldsExec>)
    requires
        p0 <= ts@.len(),
    ensures
        agrees(r, sp_value_members(toks(ts@), p0 as int, fields_view(f0)), (|f: FieldsExec| fields_view(f))),
        advances(r, p0 as int, ts@.len() as int),
    decreases ts@.len() - p0, 1int,
{
    let ghost t = toks(ts@);
    let mut p = p0;
    let mut f = f0;
    loop
        invariant
            p0 <= p <= ts@.len(),
            t == toks(ts@),
            sp_value_members(t, p0 as int, fields_view(f0)) == sp_value_members(t, p as int, fields_view(f)),
        decreases ts@.len() - p,
    {
        let q = match next_is(ts, p, TokenKind::ObjectEnd) {
            Progress::Incomplete => return Progress::Incomplete,
            Progress::Failed(e) => return Progress::Failed(e),
            Progress::Done(true, q) => return Progress::Done(f, q),
            Progress::Done(false, q) => q,
        };
        let (key, q1) = match expect_string(ts, q) {
            Progress::Incomplete => return Progress::Incomplete,
            Progress::Failed(e) => return Progress::Failed(e),
            Progress::Done(key, q1) => (key, q1),
        };
        let q2 = match expect(ts, q1, TokenKind::Colon) {
            Progress::Incomplete => return Progress::Incomplete,
            Progress::Failed(e) => return Progress::Failed(e),
            Progress::Done(_, q2) => q2,
        };
        let (f2, q3) = match value_member(ts, q2, &key, f) {
            Progress::Incomplete => return Progress::Incomplete,
            Progress::Failed(e) => return Progress::Failed(e),
            Progress::Done(f2, q3) => (f2, q3),
        };
        match comma_or_end(ts, q3) {
            Progress::Incomplete => return Progress::Incomplete,
            Progress::Failed(e) => return Progress::Failed(e),
            Progress::Done(true, q4) => {
                p = q4;
                f = f2;
            },
            Progress::Done(false, q4) => return Progress::Done(f2, q4),
        }
    }
}

/// Reads the value of one member of a term object.
fn value_member(ts: &[Token], p: usize, key: &String, f: FieldsExec) -> (r: Progress<FieldsExec>)
    requires
        p <= ts@.len(),
    ensures
        agrees(r, sp_value_member(toks(ts@), p as int, key@, fields_view(f)), (|f: FieldsExec| fields_view(f))),
        advances(r, p as int, ts@.len() as int),
    decreases ts@.len() - p, 3int,
{
    let mut f = f;
    if str_is(key.as_str(), "type") {
        match expect_string(ts, p) {
            Progress::Incomplete => Progress::Incomplete,
            Progress::Failed(e) => Progress::Failed(e),
            Progress::Done(s, q) => {
                f.term_type = Some(s);
                Progress::Done(f, q)
            },
        }
    } else if str_is(key.as_str(), "value") {
        match value_field(ts, p) {
            Progress::Incomplete => Progress::Incomplete,
            Progress::Failed(e) => Progress::Failed(e),
            Progress::Done(v, q) => {
                f.value = Some(v);
                Progress::Done(f, q)
            },
        }
    } else if str_is(key.as_str(), "xml:lang") || str_is(key.as_str(), "lang") {
        match expect_string(ts, p) {
            Progress::Incomplete => Progress::Incomplete,
            Progress::Failed(e) => Progress::Failed(e),
            Progress::Done(s, q) => {
                f.lang = Some(s);
                Progress::Done(f, q)
            },
        }
    } else if str_is(key.as_str(), "datatype") {
        match expect_string(ts, p) {
            Progress::Incomplete => Progress::Incomplete,
            Progress::Failed(e) => Progress::Failed(e),
            Progress::Done(s, q) => {
                f.datatype = Some(s);
                Progress::Done(f, q)
            },
        }
    } else if str_is(key.as_str(), "its:dir") {
        match skip_value(ts, p) {
            Progress::Incomplete => Progress::Incomplete,
            Progress::Failed(e) => Progress::Failed(e),
            Progress::Done(_, q) => {
                if let Token::String(s) = &ts[p] {
                    if let Ok(d) = parse_base_direction(s.as_str()) {
                        f.dir = Some(d);
                    }
                }
                Progress::Done(f, q)
            },
        }
    } else {
        match skip_value(ts, p) {
            Progress::Incomplete => Progress::Incomplete,
            Progress::Failed(e) => Progress::Failed(e),
            Progress::Done(_, q) => Progress::Done(f, q),
        }
    }
}

/// The `value` member: a string, or a triple object.
fn value_field(ts: &[Token], p: usize) -> (r: Progress<ValueFieldExec>)
    requires
        p <= ts@.len(),
    ensures
        agrees(r, sp_value_field(toks(ts@), p as int), (|v: ValueFieldExec| value_field_view(v))),
        advances(r, p as int, ts@.len() as int),
    decreases ts@.len() - p, 2int,
{
    if p >= ts.len() {
        return Progress::Incomplete;
    }
    match &ts[p] {
        Token::String(s) => Progress::Done(ValueFieldExec::Text(s.clone()), p + 1),
        Token::ObjectStart => match triple_members(ts, p + 1, (None, None, None)) {
            Progress::Incomplete => Progress::Incomplete,
            Progress::Failed(e) => Progress::Failed(e),
            Progress::Done(parts, q) => {
                let (subject, predicate, object) = parts;
                let subject = match subject {
                    Some(v) => v,
                    None => return Progress::Failed(missing_triple_part("subject")),
                };
                let predicate = match predicate {
                    Some(v) => v,
                    None => return Progress::Failed(missing_triple_part("predicate")),
                };
                let object = match object {
                    Some(v) => v,
                    None => return Progress::Failed(missing_triple_part("object")),
                };
                Progress::Done(ValueFieldExec::Triple(subject, predicate, object), q)
            },
        },
        _ => Progress::Failed(error_with(ErrKind::Json, "SRJ value must be a string or object")),
    }
}

/// The members of a triple object whose `{` has been read.
fn triple_members(ts: &[Token], p0: usize, parts0: PartsExec) -> (r: Progress<PartsExec>)
    requires
        p0 <= ts@.len(),
    ensures
        agrees(r, sp_triple_members(toks(ts@), p0 as int, parts_view(parts0)), (|x: PartsExec| parts_view(x))),
        advances(r, p0 as int, ts@.len() as int),
    decreases ts@.len() - p0, 1int,
{
    let ghost t = toks(ts@);
    let mut p = p0;
    let mut parts = parts0;
    loop
        invariant
            p0 <= p <= ts@.len(),
            t == toks(ts@),
            sp_triple_members(t, p0 as int, parts_view(parts0)) == sp_triple_members(t, p as int, parts_view(parts)),
        decreases ts@.len() - p,
    {
        let q = match next_is(ts, p, TokenKind::ObjectEnd) {
            Progress::Incomplete => return Progress::Incomplete,
            Progress::Failed(e) => return Progress::Failed(e),
            Progress::Done(true, q) => return Progress::Done(parts, q),
            Progress::Done(false, q) => q,
        };
        let (key, q1) = match expect_string(ts, q) {
            Progress::Incomplete => return Progress::Incomplete,
            Progress::Failed(e) => return Progress::Failed(e),
            Progress::Done(key, q1) => (key, q1),
        };
        let q2 = match expect(ts, q1, TokenKind::Colon) {
            Progress::Incomplete => return Progress::Incomplete,
            Progress::Failed(e) => return Progress::Failed(e),
            Progress::Done(_, q2) => q2,
        };
        let (parts2, q3) = match triple_member(ts, q2, &key, parts) {
            Progress::Incomplete => return Progress::Incomplete,
            Progress::Failed(e) => return Progress::Failed(e),
            Progress::Done(parts2, q3) => (parts2, q3),
        };
        match comma_or_end(ts, q3) {
            Progress::Incomplete => return Progress::Incomplete,
            Progress::Failed(e) => return Progress::Failed(e),
            Progress::Done(true, q4) => {
                p = q4;
                parts = parts2;
            },
            Progress::Done(false, q4) => return Progress::Done(parts2, q4),
        }
    }
}

/// Reads the value of one member of a triple object.
fn triple_member(ts: &[Token], p: usize, key: &String, parts: PartsExec) -> (r: Progress<PartsExec>)
    requires
        p <= ts@.len(),
    ensures
        agrees(r, sp_triple_member(toks(ts@), p as int, key@, parts_view(parts)), (|x: PartsExec| parts_view(x))),
        advances(r, p as int, ts@.len() as int),
    decreases ts@.len() - p, 3int,
{
    let (s0, p1, o0) = parts;
    if str_is(key.as_str(), "subject") {
        match parse_value(ts, p) {
            Progress::Incomplete => Progress::Incomplete,
            Progress::Failed(e) => Progress::Failed(e),
            Progress::Done(v, q) => Progress::Done((Some(v), p1, o0), q),
        }
    } else if str_is(key.as_str(), "predicate") {
        match parse_value(ts, p) {
            Progress::Incomplete => Progress::Incomplete,
            Progress::Failed(e) => Progress::Failed(e),
            Progress::Done(v, q) => Progress::Done((s0, Some(v), o0), q),
        }
    } else if str_is(key.as_str(), "object") {
        match parse_value(ts, p) {
            Progress::Incomplete => Progress::Incomplete,
            Progress::Failed(e) => Progress::Failed(e),
            Progress::Done(v, q) => Progress::Done((s0, p1, Some(v)), q),
        }
    } else {
        match skip_value(ts, p) {
            Progress::Incomplete => Progress::Incomplete,
            Progress::Failed(e) => Progress::Failed(e),
            Progress::Done(_, q) => Progress::Done((s0, p1, o0), q),
        }
    }
}

} // verus!

verus! {

/// Parses one binding object `{"var": term, ...}` into a row; a repeated
/// variable keeps its first position and takes the later value.
pub fn parse_binding(ts: &[Token], p: usize) -> (r: Progress<ResultRow>)
    requires
        p <= ts@.len(),
    ensures
        agrees(r, sp_parse_binding(toks(ts@), p as int), (|row: ResultRow| row.entries())),
        advances(r, p as int, ts@.len() as int),
{
    let ghost t = toks(ts@);
    let p1 = match expect(ts, p, TokenKind::ObjectStart) {
        Progress::Incomplete => return Progress::Incomplete,
        Progress::Failed(e) => return Progress::Failed(e),
        Progress::Done(_, q) => q,
    };
    let mut bindings = new_bindings();
    let mut pos = p1;
    loop
        invariant
            p1 <= pos <= ts@.len(),
            p1 == p + 1,
            t == toks(ts@),
            sp_parse_binding(t, p as int) == sp_binding_members(t, pos as int, binding_entries(bindings)),
        decreases ts@.len() - pos,
    {
        let q = match next_is(ts, pos, TokenKind::ObjectEnd) {
            Progress::Incomplete => return Progress::Incomplete,
            Progress::Failed(e) => return Progress::Failed(e),
            Progress::Done(true, q) => return Progress::Done(ResultRow { bindings }, q),
            Progress::Done(false, q) => q,
        };
        let (variable, q1) = match expect_string(ts, q) {
            Progress::Incomplete => return Progress::Incomplete,
            Progress::Failed(e) => return Progress::Failed(e),
            Progress::Done(key, q1) => (key, q1),
        };
        let q2 = match expect(ts, q1, TokenKind::Colon) {
            Progress::Incomplete => return Progress::Incomplete,
            Progress::Failed(e) => return Progress::Failed(e),
            Progress::Done(_, q2) => q2,
        };
        let (value, q3) = match parse_value(ts, q2) {
            Progress::Incomplete => return Progress::Incomplete,
            Progress::Failed(e) => return Progress::Failed(e),
            Progress::Done(v, q3) => (v, q3),
        };
        insert_binding(&mut bindings, variable, value);
        match comma_or_end(ts, q3) {
            Progress::Incomplete => return Progress::Incomplete,
            Progress::Failed(e) => return Progress::Failed(e),
            Progress::Done(true, q4) => {
                pos = q4;
            },
            Progress::Done(false, q4) => return Progress::Done(ResultRow { bindings }, q4),
        }
    }
}

/// Parses the `vars` array of strings.
pub fn parse_vars(ts: &[Token], p: usize) -> (r: Progress<Vec<String>>)
    requires
        p <= ts@.len(),
    ensures
        agrees(r, sp_parse_vars(toks(ts@), p as int), (|v: Vec<String>| texts(v@))),
        advances(r, p as int, ts@.len() as int),
{
    let ghost t = toks(ts@);
    let p1 = match expect(ts, p, TokenKind::ArrayStart) {
        Progress::Incomplete => return Progress::Incomplete,
        Progress::Failed(e) => return Progress::Failed(e),
        Progress::Done(_, q) => q,
    };
    let mut vars: Vec<String> = Vec::new();
    let mut pos = p1;
    assert(texts(vars@) =~= Seq::<Seq<char>>::empty());
    loop
        invariant
            p1 <= pos <= ts@.len(),
            p1 == p + 1,
            t == toks(ts@),
            sp_parse_vars(t, p as int) == sp_vars_elements(t, pos as int, texts(vars@)),
        decreases ts@.len() - pos,
    {
        let q = match next_is(ts, pos, TokenKind::ArrayEnd) {
            Progress::Incomplete => return Progress::Incomplete,
            Progress::Failed(e) => return Progress::Failed(e),
            Progress::Done(true, q) => return Progress::Done(vars, q),
            Progress::Done(false, q) => q,
        };
        let (name, q1) = match expect_string(ts, q) {
            Progress::Incomplete => return Progress::Incomplete,
            Progress::Failed(e) => return Progress::Failed(e),
            Progress::Done(s, q1) => (s, q1),
        };
        let ghost before = vars@;
        vars.push(name);
        assert(texts(vars@) =~= texts(before).push(name@));
        match comma_or_end(ts, q1) {
            Progress::Incomplete => return Progress::Incomplete,
            Progress::Failed(e) => return Progress::Failed(e),
            Progress::Done(true, q2) => {
                pos = q2;
            },
            Progress::Done(false, q2) => return Progress::Done(vars, q2),
        }
    }
}

/// Parses the `head` object and yields the declared variables.
pub fn parse_head(ts: &[Token], p: usize) -> (r: Progress<Vec<String>>)
    requires
        p <= ts@.len(),
    ensures
        agrees(r, sp_parse_head(toks(ts@), p as int), (|v: Vec<String>| texts(v@))),
        advances(r, p as int, ts@.len() as int),
{
    let ghost t = toks(ts@);
    let p1 = match expect(ts, p, TokenKind::ObjectStart) {
        Progress::Incomplete => return Progress::Incomplete,
        Progress::Failed(e) => return Progress::Failed(e),
        Progress::Done(_, q) => q,
    };
    let mut vars: Vec<String> = Vec::new();
    let mut pos = p1;
    assert(texts(vars@) =~= Seq::<Seq<char>>::empty());
    loop
        invariant
            p1 <= pos <= ts@.len(),
            p1 == p + 1,
            t == toks(ts@),
            sp_parse_head(t, p as int) == sp_head_members(t, pos as int, texts(vars@)),
        decreases ts@.len() - pos,
    {
        let q = match next_is(ts, pos, TokenKind::ObjectEnd) {
            Progress::Incomplete => return Progress::Incomplete,
            Progress::Failed(e) => return Progress::Failed(e),
            Progress::Done(true, q) => return Progress::Done(vars, q),
            Progress::Done(false, q) => q,
        };
        let (key, q1) = match expect_string(ts, q) {
            Progress::Incomplete => return Progress::Incomplete,
            Progress::Failed(e) => return Progress::Failed(e),
            Progress::Done(key, q1) => (key, q1),
        };
        let q2 = match expect(ts, q1, TokenKind::Colon) {
            Progress::Incomplete => return Progress::Incomplete,
            Progress::Failed(e) => return Progress::Failed(e),
            Progress::Done(_, q2) => q2,
        };
        let q3 = if str_is(key.as_str(), "vars") {
            match parse_vars(ts, q2) {
                Progress::Incomplete => return Progress::Incomplete,
                Progress::Failed(e) => return Progress::Failed(e),
                Progress::Done(v, q3) => {
                    vars = v;
                    q3
                },
            }
        } else {
            match skip_value(ts, q2) {
                Progress::Incomplete => return Progress::Incomplete,
                Progress::Failed(e) => return Progress::Failed(e),
                Progress::Done(_, q3) => q3,
            }
        };
        match comma_or_end(ts, q3) {
            Progress::Incomplete => return Progress::Incomplete,
            Progress::Failed(e) => return Progress::Failed(e),
            Progress::Done(true, q4) => {
                pos = q4;
            },
            Progress::Done(false, q4) => return Progress::Done(vars, q4),
        }
    }
}

} // verus!
