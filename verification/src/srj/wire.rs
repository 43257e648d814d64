//! The SRJ wire form: the token sequence that the serializer writes for a
//! result, and the bytes of each token.

use vstd::prelude::*;
use vstd::utf8::encode_utf8;

use crate::srj::token::{json_quoted, json_string_decoding, Tok};
use crate::text::bytes_lt;
use crate::types::{direction_token, Term};

verus! {

/// The bytes of a JSON string token for `s`, as `serde_json` writes it.
pub open spec fn str_bytes(s: Seq<char>) -> Seq<u8> {
    json_quoted(encode_utf8(s))
}

/// The bytes that the serializer writes for one token.
pub open spec fn tok_bytes(t: Tok) -> Seq<u8> {
    match t {
        Tok::ObjectStart => seq![123u8],
        Tok::ObjectEnd => seq![125u8],
        Tok::ArrayStart => seq![91u8],
        Tok::ArrayEnd => seq![93u8],
        Tok::Colon => seq![58u8],
        Tok::Comma => seq![44u8],
        Tok::Str(s) => str_bytes(s),
        Tok::Bool(b) => if b {
            seq![116u8, 114u8, 117u8, 101u8]
        } else {
            seq![102u8, 97u8, 108u8, 115u8, 101u8]
        },
        Tok::Null => seq![110u8, 117u8, 108u8, 108u8],
        _ => seq![],
    }
}

/// The bytes of a token sequence written without separators.
pub open spec fn toks_bytes(ts: Seq<Tok>) -> Seq<u8>
    decreases ts.len(),
{
    if ts.len() == 0 {
        seq![]
    } else {
        toks_bytes(ts.drop_last()) + tok_bytes(ts.last())
    }
}

/// `"key":` before a member value.
pub open spec fn key_toks(k: Seq<char>) -> Seq<Tok> {
    seq![Tok::Str(k), Tok::Colon]
}

/// An optional member `,"key":"text"` of a literal.
pub open spec fn opt_member_toks(k: Seq<char>, v: Option<Seq<char>>) -> Seq<Tok> {
    match v {
        Some(s) => seq![Tok::Comma] + key_toks(k) + seq![Tok::Str(s)],
        None => seq![],
    }
}

/// The tokens of a term object, members in the order `serde` writes them:
/// `type`, `value`, then `xml:lang`, `its:dir`, `datatype` when present.
pub open spec fn value_toks(t: Term) -> Seq<Tok>
    decreases t,
{
    match t {
        Term::Uri(s) => seq![Tok::ObjectStart] + key_toks("type"@) + seq![Tok::Str("uri"@), Tok::Comma]
            + key_toks("value"@) + seq![Tok::Str(s), Tok::ObjectEnd],
        Term::BNode(s) => seq![Tok::ObjectStart] + key_toks("type"@) + seq![Tok::Str("bnode"@), Tok::Comma]
            + key_toks("value"@) + seq![Tok::Str(s), Tok::ObjectEnd],
        Term::Literal { value, lang, datatype, dir } => seq![Tok::ObjectStart] + key_toks("type"@)
            + seq![Tok::Str("literal"@), Tok::Comma] + key_toks("value"@) + seq![Tok::Str(value)]
            + opt_member_toks("xml:lang"@, lang) + opt_member_toks(
            "its:dir"@,
            match dir {
                Some(d) => Some(direction_token(d)),
                None => None,
            },
        ) + opt_member_toks("datatype"@, datatype) + seq![Tok::ObjectEnd],
        Term::Triple { subject, predicate, object } => seq![Tok::ObjectStart] + key_toks("type"@)
            + seq![Tok::Str("triple"@), Tok::Comma] + key_toks("value"@) + seq![Tok::ObjectStart]
            + key_toks("subject"@) + value_toks(*subject) + seq![Tok::Comma] + key_toks("predicate"@)
            + value_toks(*predicate) + seq![Tok::Comma] + key_toks("object"@) + value_toks(*object)
            + seq![Tok::ObjectEnd, Tok::ObjectEnd],
    }
}

/// `a` sorts before `b` in the order of their keys' UTF-8 bytes.
pub open spec fn entry_lt(a: (Seq<char>, Term), b: (Seq<char>, Term)) -> bool {
    bytes_lt(encode_utf8(a.0), encode_utf8(b.0))
}

/// Inserts `x` into `s` before the first entry that sorts after it.
pub open spec fn sort_insert(s: Seq<(Seq<char>, Term)>, x: (Seq<char>, Term)) -> Seq<(Seq<char>, Term)>
    decreases s.len(),
{
    if s.len() == 0 {
        seq![x]
    } else if entry_lt(x, s[0]) {
        seq![x] + s
    } else {
        seq![s[0]] + sort_insert(s.drop_first(), x)
    }
}

/// The entries sorted by key, as a `BTreeMap` keyed by the variable walks
/// them.
pub open spec fn sorted_entries(e: Seq<(Seq<char>, Term)>) -> Seq<(Seq<char>, Term)>
    decreases e.len(),
{
    if e.len() == 0 {
        seq![]
    } else {
        sort_insert(sorted_entries(e.drop_last()), e.last())
    }
}

/// The members `"k":v,...` of a binding object, for entries in order.
pub open spec fn members_toks(e: Seq<(Seq<char>, Term)>) -> Seq<Tok>
    decreases e.len(),
{
    if e.len() == 0 {
        seq![]
    } else if e.len() == 1 {
        key_toks(e[0].0) + value_toks(e[0].1)
    } else {
        members_toks(e.drop_last()) + seq![Tok::Comma] + key_toks(e.last().0) + value_toks(e.last().1)
    }
}

/// The tokens of one binding object: its members sorted by variable.
pub open spec fn binding_toks(e: Seq<(Seq<char>, Term)>) -> Seq<Tok> {
    seq![Tok::ObjectStart] + members_toks(sorted_entries(e)) + seq![Tok::ObjectEnd]
}

/// The elements of a string array, separated by commas.
pub open spec fn strings_toks(v: Seq<Seq<char>>) -> Seq<Tok>
    decreases v.len(),
{
    if v.len() == 0 {
        seq![]
    } else if v.len() == 1 {
        seq![Tok::Str(v[0])]
    } else {
        strings_toks(v.drop_last()) + seq![Tok::Comma, Tok::Str(v.last())]
    }
}

/// `{"head":{"vars":[...]},"results":{"bindings":[`: the start of a SELECT
/// document.
pub open spec fn select_start_toks(vars: Seq<Seq<char>>) -> Seq<Tok> {
    seq![Tok::ObjectStart] + key_toks("head"@) + seq![Tok::ObjectStart] + key_toks("vars"@)
        + seq![Tok::ArrayStart] + strings_toks(vars) + seq![Tok::ArrayEnd, Tok::ObjectEnd, Tok::Comma]
        + key_toks("results"@) + seq![Tok::ObjectStart] + key_toks("bindings"@) + seq![Tok::ArrayStart]
}

/// `]}}`: the end of a SELECT document.
pub open spec fn select_end_toks() -> Seq<Tok> {
    seq![Tok::ArrayEnd, Tok::ObjectEnd, Tok::ObjectEnd]
}

/// The binding objects of the rows, separated by commas.
pub open spec fn rows_toks(rows: Seq<Seq<(Seq<char>, Term)>>) -> Seq<Tok>
    decreases rows.len(),
{
    if rows.len() == 0 {
        seq![]
    } else if rows.len() == 1 {
        binding_toks(rows[0])
    } else {
        rows_toks(rows.drop_last()) + seq![Tok::Comma] + binding_toks(rows.last())
    }
}

/// The tokens of a whole SELECT document.
pub open spec fn select_toks(vars: Seq<Seq<char>>, rows: Seq<Seq<(Seq<char>, Term)>>) -> Seq<Tok> {
    select_start_toks(vars) + rows_toks(rows) + select_end_toks()
}

/// The tokens of an ASK document: `{"head":{},"boolean":b}`.
pub open spec fn ask_toks(b: bool) -> Seq<Tok> {
    seq![Tok::ObjectStart] + key_toks("head"@) + seq![Tok::ObjectStart, Tok::ObjectEnd, Tok::Comma]
        + key_toks("boolean"@) + seq![Tok::Bool(b), Tok::ObjectEnd]
}

/// Writing two token runs one after the other writes their bytes one after
/// the other.
pub proof fn lemma_toks_bytes_concat(a: Seq<Tok>, b: Seq<Tok>)
    ensures
        toks_bytes(a + b) == toks_bytes(a) + toks_bytes(b),
    decreases b.len(),
{
    if b.len() == 0 {
        assert(a + b =~= a);
    } else {
        lemma_toks_bytes_concat(a, b.drop_last());
        assert((a + b).drop_last() =~= a + b.drop_last());
        assert((a + b).last() == b.last());
    }
}

/// `serde_json` reads back the text of the literal it writes for a string
/// token.
pub open spec fn str_reads_back(t: Tok) -> bool {
    t matches Tok::Str(s) ==> json_string_decoding(str_bytes(s)) == Some(s)
}

/// `serde_json` reads back every string literal of the run.
pub open spec fn strings_read_back(ts: Seq<Tok>) -> bool {
    forall|i: int| 0 <= i < ts.len() ==> str_reads_back(#[trigger] ts[i])
}

pub proof fn lemma_read_back_push(ts: Seq<Tok>, t: Tok)
    requires
        strings_read_back(ts),
        str_reads_back(t),
    ensures
        strings_read_back(ts.push(t)),
{
    assert forall|i: int| 0 <= i < ts.push(t).len() implies str_reads_back(#[trigger] ts.push(t)[i]) by {
        if i < ts.len() {
            assert(ts.push(t)[i] == ts[i]);
        }
    }
}

pub proof fn lemma_read_back_concat(a: Seq<Tok>, b: Seq<Tok>)
    requires
        strings_read_back(a),
        strings_read_back(b),
    ensures
        strings_read_back(a + b),
{
    assert forall|i: int| 0 <= i < (a + b).len() implies str_reads_back(#[trigger] (a + b)[i]) by {
        if i < a.len() {
            assert((a + b)[i] == a[i]);
        } else {
            assert((a + b)[i] == b[i - a.len()]);
        }
    }
}

} // verus!
