//! The SRJ grammar over a token sequence.
//!
//! Each function reads tokens from position `p` and yields the value it
//! parsed with the position after it, an error kind, or `Incomplete` when
//! it needs a token beyond the end of the sequence. The definitions follow
//! the accepted SRJ surface syntax exactly, including its leniencies:
//! unknown keys are skipped, either closing bracket ends an object or array,
//! and a later duplicate key overrides an earlier one.

use vstd::prelude::*;

use crate::error::ErrKind;
use crate::srj::token::{tok_kind, Tok, Token, TokenKind};
use crate::types::{direction_of_token, entries_insert, BaseDirection, Term};

verus! {

/// Outcome of parsing from a position.
pub enum Parsed<V> {
    Incomplete,
    Failed(ErrKind),
    Done(V, int),
}

/// The same failure or incompleteness at another result type.
pub open spec fn fail_as<A, B>(r: Parsed<A>) -> Parsed<B> {
    match r {
        Parsed::Failed(e) => Parsed::Failed(e),
        _ => Parsed::Incomplete,
    }
}

/// The token values of a token slice.
pub open spec fn toks(ts: Seq<Token>) -> Seq<Tok> {
    ts.map_values(|t: Token| t@)
}

/// The token at `p`, or `None` past the end.
pub open spec fn tok_at(ts: Seq<Tok>, p: int) -> Option<Tok> {
    if 0 <= p < ts.len() {
        Some(ts[p])
    } else {
        None
    }
}

/// `next_is`: consumes the token if it has the kind.
pub open spec fn sp_next_is(ts: Seq<Tok>, p: int, k: TokenKind) -> Parsed<bool> {
    match tok_at(ts, p) {
        None => Parsed::Incomplete,
        Some(t) => if tok_kind(t) == k {
            Parsed::Done(true, p + 1)
        } else {
            Parsed::Done(false, p)
        },
    }
}

/// `expect`: the token must have the kind.
pub open spec fn sp_expect(ts: Seq<Tok>, p: int, k: TokenKind) -> Parsed<()> {
    match tok_at(ts, p) {
        None => Parsed::Incomplete,
        Some(t) => if tok_kind(t) == k {
            Parsed::Done((), p + 1)
        } else {
            Parsed::Failed(ErrKind::Json)
        },
    }
}

/// `expect_string`: the token must be a string.
pub open spec fn sp_expect_string(ts: Seq<Tok>, p: int) -> Parsed<Seq<char>> {
    match tok_at(ts, p) {
        None => Parsed::Incomplete,
        Some(Tok::Str(s)) => Parsed::Done(s, p + 1),
        Some(_) => Parsed::Failed(ErrKind::Json),
    }
}

/// `expect_bool`: the token must be a boolean.
pub open spec fn sp_expect_bool(ts: Seq<Tok>, p: int) -> Parsed<bool> {
    match tok_at(ts, p) {
        None => Parsed::Incomplete,
        Some(Tok::Bool(b)) => Parsed::Done(b, p + 1),
        Some(_) => Parsed::Failed(ErrKind::Json),
    }
}

/// A closing bracket of either kind.
pub open spec fn is_close(t: Tok) -> bool {
    t is ObjectEnd || t is ArrayEnd
}

/// `consume_comma_or_end`: `true` after a comma (which must not be followed
/// by a closing bracket), `false` after a closing bracket of either kind.
pub open spec fn sp_comma_or_end(ts: Seq<Tok>, p: int) -> Parsed<bool> {
    match tok_at(ts, p) {
        None => Parsed::Incomplete,
        Some(Tok::Comma) => match tok_at(ts, p + 1) {
            None => Parsed::Incomplete,
            Some(t) => if is_close(t) {
                Parsed::Failed(ErrKind::Json)
            } else {
                Parsed::Done(true, p + 1)
            },
        },
        Some(t) => if is_close(t) {
            Parsed::Done(false, p + 1)
        } else {
            Parsed::Failed(ErrKind::Json)
        },
    }
}

/// Skips one JSON value.
pub open spec fn sp_skip_value(ts: Seq<Tok>, p: int) -> Parsed<()>
    decreases ts.len() - p, 0int,
{
    match tok_at(ts, p) {
        None => Parsed::Incomplete,
        Some(Tok::ObjectStart) => sp_skip_members(ts, p + 1),
        Some(Tok::ArrayStart) => sp_skip_elements(ts, p + 1),
        Some(Tok::Str(_)) => Parsed::Done((), p + 1),
        Some(Tok::Bool(_)) => Parsed::Done((), p + 1),
        Some(Tok::Null) => Parsed::Done((), p + 1),
        Some(Tok::Number) => Parsed::Done((), p + 1),
        Some(_) => Parsed::Failed(ErrKind::Json),
    }
}

/// Skips the members of an object whose `{` has been read.
pub open spec fn sp_skip_members(ts: Seq<Tok>, p: int) -> Parsed<()>
    decreases ts.len() - p, 1int,
{
    match sp_next_is(ts, p, TokenKind::ObjectEnd) {
        Parsed::Done(true, q) => Parsed::Done((), q),
        Parsed::Done(false, q) => match sp_expect_string(ts, q) {
            Parsed::Done(_, q1) => match sp_expect(ts, q1, TokenKind::Colon) {
                Parsed::Done(_, q2) => match sp_skip_value(ts, q2) {
                    Parsed::Done(_, q3) => match sp_comma_or_end(ts, q3) {
                        Parsed::Done(true, q4) => if p < q4 {
                            sp_skip_members(ts, q4)
                        } else {
                            Parsed::Failed(ErrKind::Json)
                        },
                        Parsed::Done(false, q4) => Parsed::Done((), q4),
                        r => fail_as(r),
                    },
                    r => fail_as(r),
                },
                r => fail_as(r),
            },
            r => fail_as(r),
        },
        r => fail_as(r),
    }
}

/// Skips the elements of an array whose `[` has been read.
pub open spec fn sp_skip_elements(ts: Seq<Tok>, p: int) -> Parsed<()>
    decreases ts.len() - p, 1int,
{
    match sp_next_is(ts, p, TokenKind::ArrayEnd) {
        Parsed::Done(true, q) => Parsed::Done((), q),
        Parsed::Done(false, q) => match sp_skip_value(ts, q) {
            Parsed::Done(_, q1) => match sp_comma_or_end(ts, q1) {
                Parsed::Done(true, q2) => if p < q2 {
                    sp_skip_elements(ts, q2)
                } else {
                    Parsed::Failed(ErrKind::Json)
                },
                Parsed::Done(false, q2) => Parsed::Done((), q2),
                r => fail_as(r),
            },
            r => fail_as(r),
        },
        r => fail_as(r),
    }
}

/// The `value` member of a term: a string, or the object of a triple term.
pub enum ValueField {
    Text(Seq<char>),
    Triple(Term, Term, Term),
}

/// The members of a term object read so far.
pub struct Fields {
    pub term_type: Option<Seq<char>>,
    pub value: Option<ValueField>,
    pub lang: Option<Seq<char>>,
    pub datatype: Option<Seq<char>>,
    pub dir: Option<BaseDirection>,
}

/// No member read yet.
pub open spec fn no_fields() -> Fields {
    Fields { term_type: None, value: None, lang: None, datatype: None, dir: None }
}

/// The term that the members of a term object denote.
pub open spec fn finish_term(f: Fields) -> Result<Term, ErrKind> {
    match f.term_type {
        None => Err(ErrKind::MissingElement),
        Some(t) => if t == "uri"@ {
            match f.value {
                Some(ValueField::Text(s)) => Ok(Term::Uri(s)),
                _ => Err(ErrKind::MissingElement),
            }
        } else if t == "bnode"@ {
            match f.value {
                Some(ValueField::Text(s)) => Ok(Term::BNode(s)),
                _ => Err(ErrKind::MissingElement),
            }
        } else if t == "literal"@ {
            match f.value {
                Some(ValueField::Text(s)) => Ok(
                    Term::Literal { value: s, lang: f.lang, datatype: f.datatype, dir: f.dir },
                ),
                _ => Err(ErrKind::MissingElement),
            }
        } else if t == "triple"@ {
            match f.value {
                Some(ValueField::Triple(s, pr, o)) => Ok(
                    Term::Triple { subject: Box::new(s), predicate: Box::new(pr), object: Box::new(o) },
                ),
                _ => Err(ErrKind::InvalidDocument),
            }
        } else {
            Err(ErrKind::UnexpectedElement)
        },
    }
}

/// Parses one term object: `{"type": ..., "value": ..., ...}`.
pub open spec fn sp_parse_value(ts: Seq<Tok>, p: int) -> Parsed<Term>
    decreases ts.len() - p, 0int,
{
    match sp_expect(ts, p, TokenKind::ObjectStart) {
        Parsed::Done(_, q) => match sp_value_members(ts, q, no_fields()) {
            Parsed::Done(f, q2) => match finish_term(f) {
                Ok(term) => Parsed::Done(term, q2),
                Err(e) => Parsed::Failed(e),
            },
            r => fail_as(r),
        },
        r => fail_as(r),
    }
}

/// The members of a term object whose `{` has been read.
pub open spec fn sp_value_members(ts: Seq<Tok>, p: int, f: Fields) -> Parsed<Fields>
    decreases ts.len() - p, 1int,
{
    match sp_next_is(ts, p, TokenKind::ObjectEnd) {
        Parsed::Done(true, q) => Parsed::Done(f, q),
        Parsed::Done(false, q) => match sp_expect_string(ts, q) {
            Parsed::Done(key, q1) => match sp_expect(ts, q1, TokenKind::Colon) {
                Parsed::Done(_, q2) => match sp_value_member(ts, q2, key, f) {
                    Parsed::Done(f2, q3) => match sp_comma_or_end(ts, q3) {
                        Parsed::Done(true, q4) => if p < q4 {
                            sp_value_members(ts, q4, f2)
                        } else {
                            Parsed::Failed(ErrKind::Json)
                        },
                        Parsed::Done(false, q4) => Parsed::Done(f2, q4),
                        r => fail_as(r),
                    },
                    r => fail_as(r),
                },
                r => fail_as(r),
            },
            r => fail_as(r),
        },
        r => fail_as(r),
    }
}

/// Reads the value of one member of a term object.
pub open spec fn sp_value_member(ts: Seq<Tok>, p: int, key: Seq<char>, f: Fields) -> Parsed<Fields>
    decreases ts.len() - p, 3int,
{
    if key == "type"@ {
        match sp_expect_string(ts, p) {
            Parsed::Done(s, q) => Parsed::Done(Fields { term_type: Some(s), ..f }, q),
            r => fail_as(r),
        }
    } else if key == "value"@ {
        match sp_value_field(ts, p) {
            Parsed::Done(v, q) => Parsed::Done(Fields { value: Some(v), ..f }, q),
            r => fail_as(r),
        }
    } else if key == "xml:lang"@ || key == "lang"@ {
        match sp_expect_string(ts, p) {
            Parsed::Done(s, q) => Parsed::Done(Fields { lang: Some(s), ..f }, q),
            r => fail_as(r),
        }
    } else if key == "datatype"@ {
        match sp_expect_string(ts, p) {
            Parsed::Done(s, q) => Parsed::Done(Fields { datatype: Some(s), ..f }, q),
            r => fail_as(r),
        }
    } else if key == "its:dir"@ {
        match sp_skip_value(ts, p) {
            Parsed::Done(_, q) => Parsed::Done(
                match tok_at(ts, p) {
                    Some(Tok::Str(s)) => match direction_of_token(s) {
                        Some(d) => Fields { dir: Some(d), ..f },
                        None => f,
                    },
                    _ => f,
                },
                q,
            ),
            r => fail_as(r),
        }
    } else {
        match sp_skip_value(ts, p) {
            Parsed::Done(_, q) => Parsed::Done(f, q),
            r => fail_as(r),
        }
    }
}

/// The `value` member: a string, or a triple object.
pub open spec fn sp_value_field(ts: Seq<Tok>, p: int) -> Parsed<ValueField>
    decreases ts.len() - p, 2int,
{
    match tok_at(ts, p) {
        None => Parsed::Incomplete,
        Some(Tok::Str(s)) => Parsed::Done(ValueField::Text(s), p + 1),
        Some(Tok::ObjectStart) => match sp_triple_members(ts, p + 1, (None, None, None)) {
            Parsed::Done(parts, q) => match parts {
                (Some(s), Some(pr), Some(o)) => Parsed::Done(ValueField::Triple(s, pr, o), q),
                _ => Parsed::Failed(ErrKind::MissingElement),
            },
            r => fail_as(r),
        },
        Some(_) => Parsed::Failed(ErrKind::Json),
    }
}

/// The parts of a triple object read so far.
pub type TripleParts = (Option<Term>, Option<Term>, Option<Term>);

/// The members of a triple object whose `{` has been read.
pub open spec fn sp_triple_members(ts: Seq<Tok>, p: int, parts: TripleParts) -> Parsed<TripleParts>
    decreases ts.len() - p, 1int,
{
    match sp_next_is(ts, p, TokenKind::ObjectEnd) {
        Parsed::Done(true, q) => Parsed::Done(parts, q),
        Parsed::Done(false, q) => match sp_expect_string(ts, q) {
            Parsed::Done(key, q1) => match sp_expect(ts, q1, TokenKind::Colon) {
                Parsed::Done(_, q2) => match sp_triple_member(ts, q2, key, parts) {
                    Parsed::Done(parts2, q3) => match sp_comma_or_end(ts, q3) {
                        Parsed::Done(true, q4) => if p < q4 {
                            sp_triple_members(ts, q4, parts2)
                        } else {
                            Parsed::Failed(ErrKind::Json)
                        },
                        Parsed::Done(false, q4) => Parsed::Done(parts2, q4),
                        r => fail_as(r),
                    },
                    r => fail_as(r),
                },
                r => fail_as(r),
            },
            r => fail_as(r),
        },
        r => fail_as(r),
    }
}

/// Reads the value of one member of a triple object.
pub open spec fn sp_triple_member(ts: Seq<Tok>, p: int, key: Seq<char>, parts: TripleParts) -> Parsed<TripleParts>
    decreases ts.len() - p, 3int,
{
    if key == "subject"@ {
        match sp_parse_value(ts, p) {
            Parsed::Done(t, q) => Parsed::Done((Some(t), parts.1, parts.2), q),
            r => fail_as(r),
        }
    } else if key == "predicate"@ {
        match sp_parse_value(ts, p) {
            Parsed::Done(t, q) => Parsed::Done((parts.0, Some(t), parts.2), q),
            r => fail_as(r),
        }
    } else if key == "object"@ {
        match sp_parse_value(ts, p) {
            Parsed::Done(t, q) => Parsed::Done((parts.0, parts.1, Some(t)), q),
            r => fail_as(r),
        }
    } else {
        match sp_skip_value(ts, p) {
            Parsed::Done(_, q) => Parsed::Done(parts, q),
            r => fail_as(r),
        }
    }
}

/// Parses one binding object: `{"var": term, ...}`.
pub open spec fn sp_parse_binding(ts: Seq<Tok>, p: int) -> Parsed<Seq<(Seq<char>, Term)>> {
    match sp_expect(ts, p, TokenKind::ObjectStart) {
        Parsed::Done(_, q) => sp_binding_members(ts, q, seq![]),
        r => fail_as(r),
    }
}

/// The members of a binding object whose `{` has been read.
pub open spec fn sp_binding_members(ts: Seq<Tok>, p: int, e: Seq<(Seq<char>, Term)>) -> Parsed<Seq<(Seq<char>, Term)>>
    decreases ts.len() - p,
{
    match sp_next_is(ts, p, TokenKind::ObjectEnd) {
        Parsed::Done(true, q) => Parsed::Done(e, q),
        Parsed::Done(false, q) => match sp_expect_string(ts, q) {
            Parsed::Done(key, q1) => match sp_expect(ts, q1, TokenKind::Colon) {
                Parsed::Done(_, q2) => match sp_parse_value(ts, q2) {
                    Parsed::Done(v, q3) => {
                        let e2 = entries_insert(e, key, v);
                        match sp_comma_or_end(ts, q3) {
                            Parsed::Done(true, q4) => if p < q4 {
                                sp_binding_members(ts, q4, e2)
                            } else {
                                Parsed::Failed(ErrKind::Json)
                            },
                            Parsed::Done(false, q4) => Parsed::Done(e2, q4),
                            r => fail_as(r),
                        }
                    },
                    r => fail_as(r),
                },
                r => fail_as(r),
            },
            r => fail_as(r),
        },
        r => fail_as(r),
    }
}

/// Parses the `head` object and yields the declared variables (the last
/// `vars` member wins; none yields no variables).
pub open spec fn sp_parse_head(ts: Seq<Tok>, p: int) -> Parsed<Seq<Seq<char>>> {
    match sp_expect(ts, p, TokenKind::ObjectStart) {
        Parsed::Done(_, q) => sp_head_members(ts, q, seq![]),
        r => fail_as(r),
    }
}

/// The members of the `head` object whose `{` has been read.
pub open spec fn sp_head_members(ts: Seq<Tok>, p: int, vars: Seq<Seq<char>>) -> Parsed<Seq<Seq<char>>>
    decreases ts.len() - p,
{
    match sp_next_is(ts, p, TokenKind::ObjectEnd) {
        Parsed::Done(true, q) => Parsed::Done(vars, q),
        Parsed::Done(false, q) => match sp_expect_string(ts, q) {
            Parsed::Done(key, q1) => match sp_expect(ts, q1, TokenKind::Colon) {
                Parsed::Done(_, q2) => {
                    let member = if key == "vars"@ {
                        sp_parse_vars(ts, q2)
                    } else {
                        match sp_skip_value(ts, q2) {
                            Parsed::Done(_, q3) => Parsed::Done(vars, q3),
                            r => fail_as(r),
                        }
                    };
                    match member {
                        Parsed::Done(vars2, q3) => match sp_comma_or_end(ts, q3) {
                            Parsed::Done(true, q4) => if p < q4 {
                                sp_head_members(ts, q4, vars2)
                            } else {
                                Parsed::Failed(ErrKind::Json)
                            },
                            Parsed::Done(false, q4) => Parsed::Done(vars2, q4),
                            r => fail_as(r),
                        },
                        r => fail_as(r),
                    }
                },
                r => fail_as(r),
            },
            r => fail_as(r),
        },
        r => fail_as(r),
    }
}

/// Parses the `vars` array of strings.
pub open spec fn sp_parse_vars(ts: Seq<Tok>, p: int) -> Parsed<Seq<Seq<char>>> {
    match sp_expect(ts, p, TokenKind::ArrayStart) {
        Parsed::Done(_, q) => sp_vars_elements(ts, q, seq![]),
        r => fail_as(r),
    }
}

/// The elements of the `vars` array whose `[` has been read.
pub open spec fn sp_vars_elements(ts: Seq<Tok>, p: int, acc: Seq<Seq<char>>) -> Parsed<Seq<Seq<char>>>
    decreases ts.len() - p,
{
    match sp_next_is(ts, p, TokenKind::ArrayEnd) {
        Parsed::Done(true, q) => Parsed::Done(acc, q),
        Parsed::Done(false, q) => match sp_expect_string(ts, q) {
            Parsed::Done(s, q1) => match sp_comma_or_end(ts, q1) {
                Parsed::Done(true, q2) => if p < q2 {
                    sp_vars_elements(ts, q2, acc.push(s))
                } else {
                    Parsed::Failed(ErrKind::Json)
                },
                Parsed::Done(false, q2) => Parsed::Done(acc.push(s), q2),
                r => fail_as(r),
            },
            r => fail_as(r),
        },
        r => fail_as(r),
    }
}

} // verus!
