//! Incremental SRJ serialization to bytes.
//!
//! The serializer frames the document itself and hands every string to
//! `serde_json` for quoting and escaping, so the output is byte-for-byte
//! what the `serde` derives of the SRJ wire structs produce.

use vstd::prelude::*;

use crate::error::{error_with, ErrKind, SparqlResultsError};
use crate::srj::token::{encode_json_string, Tok};
use crate::srj::wire::{
    ask_toks, binding_toks, entry_lt, key_toks, lemma_toks_bytes_concat, members_toks, opt_member_toks,
    rows_toks, select_end_toks, select_start_toks, select_toks, sort_insert, sorted_entries,
    strings_toks, tok_bytes, toks_bytes, value_toks, strings_read_back, lemma_read_back_push,
    lemma_read_back_concat,
};
use crate::srj::document::texts;
use crate::srj::parse::{srj_parse, ResultView};
use crate::srj::roundtrip::{lemma_srj_round_trip, srj_document_toks, srj_read_back};
use crate::text::{append_bytes, bytes_less};
use indexmap::IndexMap;
use crate::types::{
    binding_at, binding_count, binding_entries, direction_token, keys_unique, BaseDirection, opt_text, ResultRow,
    ResultValue, SparqlResult, Term,
};

verus! {

proof fn lemma_push_bytes(ts: Seq<Tok>, t: Tok)
    ensures
        toks_bytes(ts.push(t)) == toks_bytes(ts) + tok_bytes(t),
{
    assert(ts.push(t).drop_last() =~= ts);
}

/// Writes one single-byte token.
fn put_byte(out: &mut Vec<u8>, b: u8, Ghost(start): Ghost<Seq<u8>>, Ghost(em): Ghost<Seq<Tok>>, Ghost(t): Ghost<Tok>)
    requires
        old(out)@ == start + toks_bytes(em),
        tok_bytes(t) == seq![b],
        strings_read_back(em),
        !(t is Str),
    ensures
        final(out)@ == start + toks_bytes(em.push(t)),
        strings_read_back(em.push(t)),
{
    out.push(b);
    proof {
        lemma_push_bytes(em, t);
        lemma_read_back_push(em, t);
    }
}

/// Writes one string token, quoted and escaped by `serde_json`.
fn put_str(out: &mut Vec<u8>, s: &str, Ghost(start): Ghost<Seq<u8>>, Ghost(em): Ghost<Seq<Tok>>)
    requires
        old(out)@ == start + toks_bytes(em),
        strings_read_back(em),
    ensures
        final(out)@ == start + toks_bytes(em.push(Tok::Str(s@))),
        strings_read_back(em.push(Tok::Str(s@))),
{
    let bytes = encode_json_string(s);
    append_bytes(out, bytes.as_slice());
    proof {
        lemma_push_bytes(em, Tok::Str(s@));
        lemma_read_back_push(em, Tok::Str(s@));
    }
}

/// Writes a run of tokens produced by a nested writer.
proof fn lemma_put_run(start: Seq<u8>, em: Seq<Tok>, run: Seq<Tok>, before: Seq<u8>, after: Seq<u8>)
    requires
        before == start + toks_bytes(em),
        after == before + toks_bytes(run),
        strings_read_back(em),
        strings_read_back(run),
    ensures
        after == start + toks_bytes(em + run),
        strings_read_back(em + run),
{
    lemma_toks_bytes_concat(em, run);
    lemma_read_back_concat(em, run);
}

/// Writes an optional `,"key":"text"` member.
fn put_opt_member(
    out: &mut Vec<u8>,
    key: &str,
    v: Option<&str>,
    Ghost(start): Ghost<Seq<u8>>,
    Ghost(em): Ghost<Seq<Tok>>,
)
    requires
        old(out)@ == start + toks_bytes(em),
        strings_read_back(em),
    ensures
        final(out)@ == start + toks_bytes(
            em + opt_member_toks(
                key@,
                match v {
                    Some(s) => Some(s@),
                    None => None,
                },
            ),
        ),
        strings_read_back(
            em + opt_member_toks(
                key@,
                match v {
                    Some(s) => Some(s@),
                    None => None,
                },
            ),
        ),
{
    match v {
        Some(s) => {
            put_byte(out, 44, Ghost(start), Ghost(em), Ghost(Tok::Comma));
            let ghost e1 = em.push(Tok::Comma);
            put_str(out, key, Ghost(start), Ghost(e1));
            let ghost e2 = e1.push(Tok::Str(key@));
            put_byte(out, 58, Ghost(start), Ghost(e2), Ghost(Tok::Colon));
            let ghost e3 = e2.push(Tok::Colon);
            put_str(out, s, Ghost(start), Ghost(e3));
            assert(e3.push(Tok::Str(s@)) =~= em + opt_member_toks(key@, Some(s@)));
        },
        None => {
            assert(em + opt_member_toks(key@, None) =~= em);
        },
    }
}

/// `{"type":kind,"value":`: the members before a term's value.
pub open spec fn head_toks(kind: Seq<char>) -> Seq<Tok> {
    seq![Tok::ObjectStart] + key_toks("type"@) + seq![Tok::Str(kind), Tok::Comma] + key_toks("value"@)
}

/// The rest of a literal's object after `"value":`.
pub open spec fn literal_rest_toks(
    value: Seq<char>,
    lang: Option<Seq<char>>,
    datatype: Option<Seq<char>>,
    dir: Option<Seq<char>>,
) -> Seq<Tok> {
    seq![Tok::Str(value)] + opt_member_toks("xml:lang"@, lang) + opt_member_toks("its:dir"@, dir)
        + opt_member_toks("datatype"@, datatype) + seq![Tok::ObjectEnd]
}

fn put_head(out: &mut Vec<u8>, kind: &str, Ghost(start): Ghost<Seq<u8>>, Ghost(em): Ghost<Seq<Tok>>)
    requires
        old(out)@ == start + toks_bytes(em),
        strings_read_back(em),
    ensures
        final(out)@ == start + toks_bytes(em + head_toks(kind@)),
        strings_read_back(em + head_toks(kind@)),
{
    put_byte(out, 123, Ghost(start), Ghost(em), Ghost(Tok::ObjectStart));
    let ghost e1 = em.push(Tok::ObjectStart);
    put_str(out, "type", Ghost(start), Ghost(e1));
    let ghost e2 = e1.push(Tok::Str("type"@));
    put_byte(out, 58, Ghost(start), Ghost(e2), Ghost(Tok::Colon));
    let ghost e3 = e2.push(Tok::Colon);
    put_str(out, kind, Ghost(start), Ghost(e3));
    let ghost e4 = e3.push(Tok::Str(kind@));
    put_byte(out, 44, Ghost(start), Ghost(e4), Ghost(Tok::Comma));
    let ghost e5 = e4.push(Tok::Comma);
    put_str(out, "value", Ghost(start), Ghost(e5));
    let ghost e6 = e5.push(Tok::Str("value"@));
    put_byte(out, 58, Ghost(start), Ghost(e6), Ghost(Tok::Colon));
    assert(e6.push(Tok::Colon) =~= em + head_toks(kind@));
}

#[verifier::rlimit(60)]
fn put_literal_rest(
    out: &mut Vec<u8>,
    value: &String,
    lang: &Option<String>,
    datatype: &Option<String>,
    dir: &Option<BaseDirection>,
    Ghost(start): Ghost<Seq<u8>>,
    Ghost(em): Ghost<Seq<Tok>>,
)
    requires
        old(out)@ == start + toks_bytes(em),
        strings_read_back(em),
    ensures
        final(out)@ == start + toks_bytes(
            em + literal_rest_toks(
                value@,
                opt_text(*lang),
                opt_text(*datatype),
                match *dir {
                    Some(d) => Some(direction_token(d)),
                    None => None,
                },
            ),
        ),
        strings_read_back(
            em + literal_rest_toks(
                value@,
                opt_text(*lang),
                opt_text(*datatype),
                match *dir {
                    Some(d) => Some(direction_token(d)),
                    None => None,
                },
            ),
        ),
{
    put_str(out, value.as_str(), Ghost(start), Ghost(em));
    let ghost e8 = em.push(Tok::Str(value@));
    let lang_text: Option<&str> = match lang {
        Some(l) => Some(l.as_str()),
        None => None,
    };
    put_opt_member(out, "xml:lang", lang_text, Ghost(start), Ghost(e8));
    let ghost e9 = e8 + opt_member_toks("xml:lang"@, opt_text(*lang));
    let dir_text: Option<&str> = match dir {
        Some(d) => Some(d.as_str()),
        None => None,
    };
    put_opt_member(out, "its:dir", dir_text, Ghost(start), Ghost(e9));
    let ghost dv = match *dir {
        Some(d) => Some(direction_token(d)),
        None => None,
    };
    let ghost e10 = e9 + opt_member_toks("its:dir"@, dv);
    let dt_text: Option<&str> = match datatype {
        Some(t) => Some(t.as_str()),
        None => None,
    };
    put_opt_member(out, "datatype", dt_text, Ghost(start), Ghost(e10));
    let ghost e11 = e10 + opt_member_toks("datatype"@, opt_text(*datatype));
    put_byte(out, 125, Ghost(start), Ghost(e11), Ghost(Tok::ObjectEnd));
    assert(e11.push(Tok::ObjectEnd) =~= em + literal_rest_toks(value@, opt_text(*lang), opt_text(*datatype), dv));
}

/// Writes `,"key":` for a triple member, then the member's term.
fn put_member_key(out: &mut Vec<u8>, key: &str, comma: bool, Ghost(start): Ghost<Seq<u8>>, Ghost(em): Ghost<Seq<Tok>>)
    requires
        old(out)@ == start + toks_bytes(em),
        strings_read_back(em),
    ensures
        final(out)@ == start + toks_bytes(em + (if comma { seq![Tok::Comma] } else { seq![Tok::ObjectStart] }) + key_toks(key@)),
        strings_read_back(em + (if comma { seq![Tok::Comma] } else { seq![Tok::ObjectStart] }) + key_toks(key@)),
{
    let ghost t = if comma { Tok::Comma } else { Tok::ObjectStart };
    if comma {
        put_byte(out, 44, Ghost(start), Ghost(em), Ghost(t));
    } else {
        put_byte(out, 123, Ghost(start), Ghost(em), Ghost(t));
    }
    let ghost e1 = em.push(t);
    put_str(out, key, Ghost(start), Ghost(e1));
    let ghost e2 = e1.push(Tok::Str(key@));
    put_byte(out, 58, Ghost(start), Ghost(e2), Ghost(Tok::Colon));
    assert(e2.push(Tok::Colon) =~= em + (if comma { seq![Tok::Comma] } else { seq![Tok::ObjectStart] }) + key_toks(key@));
}

/// Writes the term object of a value.
#[verifier::rlimit(40)]
pub fn write_value(out: &mut Vec<u8>, v: &ResultValue)
    ensures
        final(out)@ == old(out)@ + toks_bytes(value_toks(v@)),
        strings_read_back(value_toks(v@)),
    decreases v,
{
    let ghost start = out@;
    let ghost e0: Seq<Tok> = seq![];
    assert(start + toks_bytes(e0) =~= start);
    let kind = match v {
        ResultValue::Uri(_) => "uri",
        ResultValue::BNode(_) => "bnode",
        ResultValue::Literal { .. } => "literal",
        ResultValue::Triple { .. } => "triple",
    };
    put_head(out, kind, Ghost(start), Ghost(e0));
    let ghost e7 = e0 + head_toks(kind@);
    match v {
        ResultValue::Uri(s) | ResultValue::BNode(s) => {
            put_str(out, s.as_str(), Ghost(start), Ghost(e7));
            let ghost e8 = e7.push(Tok::Str(s@));
            put_byte(out, 125, Ghost(start), Ghost(e8), Ghost(Tok::ObjectEnd));
            assert(e8.push(Tok::ObjectEnd) =~= value_toks(v@));
        },
        ResultValue::Literal { value, lang, datatype, dir } => {
            put_literal_rest(out, value, lang, datatype, dir, Ghost(start), Ghost(e7));
            assert(e7 + literal_rest_toks(
                value@,
                opt_text(*lang),
                opt_text(*datatype),
                match *dir {
                    Some(d) => Some(direction_token(d)),
                    None => None,
                },
            ) =~= value_toks(v@));
        },
        ResultValue::Triple { subject, predicate, object } => {
            put_member_key(out, "subject", false, Ghost(start), Ghost(e7));
            let ghost e10 = e7 + seq![Tok::ObjectStart] + key_toks("subject"@);
            let ghost b10 = out@;
            write_value(out, subject);
            proof {
                lemma_put_run(start, e10, value_toks(subject@), b10, out@);
            }
            let ghost e11 = e10 + value_toks(subject@);
            put_member_key(out, "predicate", true, Ghost(start), Ghost(e11));
            let ghost e14 = e11 + seq![Tok::Comma] + key_toks("predicate"@);
            let ghost b14 = out@;
            write_value(out, predicate);
            proof {
                lemma_put_run(start, e14, value_toks(predicate@), b14, out@);
            }
            let ghost e15 = e14 + value_toks(predicate@);
            put_member_key(out, "object", true, Ghost(start), Ghost(e15));
            let ghost e18 = e15 + seq![Tok::Comma] + key_toks("object"@);
            let ghost b18 = out@;
            write_value(out, object);
            proof {
                lemma_put_run(start, e18, value_toks(object@), b18, out@);
            }
            let ghost e19 = e18 + value_toks(object@);
            put_byte(out, 125, Ghost(start), Ghost(e19), Ghost(Tok::ObjectEnd));
            let ghost e20 = e19.push(Tok::ObjectEnd);
            put_byte(out, 125, Ghost(start), Ghost(e20), Ghost(Tok::ObjectEnd));
            assert(e20.push(Tok::ObjectEnd) =~= value_toks(v@));
        },
    }
}

/// The entries of `e` picked in the order of the positions `order`.
pub open spec fn pick(e: Seq<(Seq<char>, Term)>, order: Seq<usize>) -> Seq<(Seq<char>, Term)> {
    order.map_values(|i: usize| e[i as int])
}

/// Inserting before the first entry that sorts after `x` is `sort_insert`.
proof fn lemma_sort_insert_at(s: Seq<(Seq<char>, Term)>, x: (Seq<char>, Term), p: int)
    requires
        0 <= p <= s.len(),
        forall|k: int| 0 <= k < p ==> !entry_lt(x, #[trigger] s[k]),
        p < s.len() ==> entry_lt(x, s[p]),
    ensures
        sort_insert(s, x) == s.insert(p, x),
    decreases s.len(),
{
    if s.len() == 0 {
        assert(seq![x] =~= s.insert(p, x));
    } else if p == 0 {
        assert(seq![x] + s =~= s.insert(0, x));
    } else {
        assert(!entry_lt(x, s[0]));
        let t = s.drop_first();
        assert forall|k: int| 0 <= k < p - 1 implies !entry_lt(x, #[trigger] t[k]) by {
            assert(t[k] == s[k + 1]);
        }
        lemma_sort_insert_at(t, x, p - 1);
        assert(seq![s[0]] + t.insert(p - 1, x) =~= s.insert(p, x));
    }
}

/// The positions of a row's entries, in the order of their keys' bytes.
fn sorted_order(m: &IndexMap<String, ResultValue>) -> (order: Vec<usize>)
    ensures
        keys_unique(binding_entries(*m)),
        forall|k: int| 0 <= k < order@.len() ==> (order@[k] as int) < binding_entries(*m).len(),
        pick(binding_entries(*m), order@) == sorted_entries(binding_entries(*m)),
{
    let ghost e = binding_entries(*m);
    let n = binding_count(m);
    let mut order: Vec<usize> = Vec::new();
    let mut i: usize = 0;
    assert(e.subrange(0, 0) =~= Seq::<(Seq<char>, Term)>::empty());
    assert(pick(e, order@) =~= Seq::<(Seq<char>, Term)>::empty());
    while i < n
        invariant
            n == e.len(),
            e == binding_entries(*m),
            0 <= i <= n,
            forall|k: int| 0 <= k < order@.len() ==> (order@[k] as int) < i,
            pick(e, order@) == sorted_entries(e.subrange(0, i as int)),
            forall|a: int, b: int| 0 <= a < i && 0 <= b < n && a != b ==> #[trigger] e[a].0 != #[trigger] e[b].0,
        decreases n - i,
    {
        let (key_i, _) = binding_at(m, i);
        assert(forall|b: int| 0 <= b < n && b != i ==> e[b].0 != e[i as int].0);
        let ghost x = e[i as int];
        let ghost s = pick(e, order@);
        let mut j: usize = 0;
        while j < order.len()
            invariant
                0 <= j <= order@.len(),
                i < n,
                n == e.len(),
                e == binding_entries(*m),
                key_i@ == x.0,
                x == e[i as int],
                s == pick(e, order@),
                forall|k: int| 0 <= k < order@.len() ==> (order@[k] as int) < i,
                forall|k: int| 0 <= k < j ==> !entry_lt(x, #[trigger] s[k]),
            ensures
                0 <= j <= order@.len(),
                forall|k: int| 0 <= k < j ==> !entry_lt(x, #[trigger] s[k]),
                j < order@.len() ==> entry_lt(x, s[j as int]),
            decreases order@.len() - j,
        {
            let (key_j, _) = binding_at(m, order[j]);
            assert(s[j as int] == e[order@[j as int] as int]);
            if bytes_less(key_i.as_str().as_bytes(), key_j.as_str().as_bytes()) {
                break;
            }
            j = j + 1;
        }
        proof {
            if j < order@.len() {
                assert(s[j as int] == e[order@[j as int] as int]);
            }
            lemma_sort_insert_at(s, x, j as int);
            let sub = e.subrange(0, i + 1);
            assert(sub.drop_last() =~= e.subrange(0, i as int));
            assert(sub.last() == x);
        }
        order.insert(j, i);
        proof {
            assert(pick(e, order@) =~= s.insert(j as int, x));
        }
        i = i + 1;
    }
    assert(e.subrange(0, n as int) =~= e);
    assert(keys_unique(e)) by {
        assert forall|a: int, b: int| 0 <= a < b < e.len() implies e[a].0 != e[b].0 by {
            assert(e[a].0 != e[b].0);
        }
    }
    order
}

/// Writes `"key":`.
fn put_key(out: &mut Vec<u8>, key: &str, Ghost(start): Ghost<Seq<u8>>, Ghost(em): Ghost<Seq<Tok>>)
    requires
        old(out)@ == start + toks_bytes(em),
        strings_read_back(em),
    ensures
        final(out)@ == start + toks_bytes(em + key_toks(key@)),
        strings_read_back(em + key_toks(key@)),
{
    put_str(out, key, Ghost(start), Ghost(em));
    let ghost e1 = em.push(Tok::Str(key@));
    put_byte(out, 58, Ghost(start), Ghost(e1), Ghost(Tok::Colon));
    assert(e1.push(Tok::Colon) =~= em + key_toks(key@));
}

/// Writes one row's binding object, its members sorted by variable name.
pub fn write_binding(out: &mut Vec<u8>, row: &ResultRow)
    ensures
        final(out)@ == old(out)@ + toks_bytes(binding_toks(row.entries())),
        strings_read_back(binding_toks(row.entries())),
        keys_unique(row.entries()),
{
    let ghost e = row.entries();
    let ghost sorted = sorted_entries(e);
    let order = sorted_order(&row.bindings);
    let ghost start = out@;
    let ghost e0: Seq<Tok> = seq![];
    assert(start + toks_bytes(e0) =~= start);
    put_byte(out, 123, Ghost(start), Ghost(e0), Ghost(Tok::ObjectStart));
    let ghost em = e0.push(Tok::ObjectStart);
    let mut k: usize = 0;
    assert(em + members_toks(sorted.take(0)) =~= em);
    while k < order.len()
        invariant
            e == binding_entries(row.bindings),
            sorted == sorted_entries(e),
            pick(e, order@) == sorted,
            forall|j: int| 0 <= j < order@.len() ==> (order@[j] as int) < e.len(),
            0 <= k <= order@.len(),
            out@ == start + toks_bytes(em + members_toks(sorted.take(k as int))),
            strings_read_back(em + members_toks(sorted.take(k as int))),
        decreases order@.len() - k,
    {
        let (key, value) = binding_at(&row.bindings, order[k]);
        let ghost cur = em + members_toks(sorted.take(k as int));
        let ghost sep: Seq<Tok> = if k > 0 { seq![Tok::Comma] } else { seq![] };
        if k > 0 {
            put_byte(out, 44, Ghost(start), Ghost(cur), Ghost(Tok::Comma));
            assert(cur.push(Tok::Comma) =~= cur + sep);
        } else {
            assert(cur + sep =~= cur);
        }
        let ghost c2 = cur + sep;
        put_key(out, key.as_str(), Ghost(start), Ghost(c2));
        let ghost c3 = c2 + key_toks(key@);
        let ghost b = out@;
        write_value(out, value);
        proof {
            lemma_put_run(start, c3, value_toks(value@), b, out@);
            assert(sorted[k as int] == e[order@[k as int] as int]);
            let t = sorted.take(k + 1);
            assert(t.drop_last() =~= sorted.take(k as int));
            assert(t.last() == sorted[k as int]);
            if k == 0 {
                assert(members_toks(sorted.take(0)) =~= Seq::<Tok>::empty());
            }
            assert(c3 + value_toks(value@) =~= em + members_toks(t));
        }
        k = k + 1;
    }
    proof {
        assert(sorted.take(order@.len() as int) =~= sorted);
    }
    let ghost fin = em + members_toks(sorted);
    put_byte(out, 125, Ghost(start), Ghost(fin), Ghost(Tok::ObjectEnd));
    assert(fin.push(Tok::ObjectEnd) =~= binding_toks(e));
}

/// The entries of each row.
pub open spec fn rows_entries(rows: Seq<ResultRow>) -> Seq<Seq<(Seq<char>, Term)>> {
    rows.map_values(|r: ResultRow| r.entries())
}

/// The bytes that a writer emits for a whole result.
pub open spec fn srj_document(result: SparqlResult) -> Seq<u8> {
    match result {
        SparqlResult::Select { vars, rows } => toks_bytes(select_toks(texts(vars@), rows_entries(rows@))),
        SparqlResult::Ask { result } => toks_bytes(ask_toks(result)),
    }
}

/// Writes the string array of the variable names.
fn put_strings(out: &mut Vec<u8>, vars: &[String], Ghost(start): Ghost<Seq<u8>>, Ghost(em): Ghost<Seq<Tok>>)
    requires
        old(out)@ == start + toks_bytes(em),
        strings_read_back(em),
    ensures
        final(out)@ == start + toks_bytes(em + strings_toks(texts(vars@))),
        strings_read_back(em + strings_toks(texts(vars@))),
{
    let ghost v = texts(vars@);
    let mut k: usize = 0;
    assert(em + strings_toks(v.take(0)) =~= em);
    while k < vars.len()
        invariant
            v == texts(vars@),
            0 <= k <= vars@.len(),
            out@ == start + toks_bytes(em + strings_toks(v.take(k as int))),
            strings_read_back(em),
            strings_read_back(em + strings_toks(v.take(k as int))),
        decreases vars@.len() - k,
    {
        let ghost cur = em + strings_toks(v.take(k as int));
        let ghost sep: Seq<Tok> = if k > 0 { seq![Tok::Comma] } else { seq![] };
        if k > 0 {
            put_byte(out, 44, Ghost(start), Ghost(cur), Ghost(Tok::Comma));
            assert(cur.push(Tok::Comma) =~= cur + sep);
        } else {
            assert(cur + sep =~= cur);
        }
        put_str(out, vars[k].as_str(), Ghost(start), Ghost(cur + sep));
        proof {
            let t = v.take(k + 1);
            assert(t.drop_last() =~= v.take(k as int));
            assert(t.last() == vars@[k as int]@);
            if k == 0 {
                assert(strings_toks(v.take(0)) =~= Seq::<Tok>::empty());
            }
            assert((cur + sep).push(Tok::Str(vars@[k as int]@)) =~= em + strings_toks(t));
        }
        k = k + 1;
    }
    assert(v.take(vars@.len() as int) =~= v);
}

/// Writes the start of a SELECT document, up to the opening of its
/// bindings array.
fn put_select_start(out: &mut Vec<u8>, vars: &[String])
    ensures
        final(out)@ == old(out)@ + toks_bytes(select_start_toks(texts(vars@))),
        strings_read_back(select_start_toks(texts(vars@))),
{
    let ghost start = out@;
    let ghost e0: Seq<Tok> = seq![];
    assert(start + toks_bytes(e0) =~= start);
    put_byte(out, 123, Ghost(start), Ghost(e0), Ghost(Tok::ObjectStart));
    let ghost e1 = e0.push(Tok::ObjectStart);
    put_key(out, "head", Ghost(start), Ghost(e1));
    let ghost e2 = e1 + key_toks("head"@);
    put_byte(out, 123, Ghost(start), Ghost(e2), Ghost(Tok::ObjectStart));
    let ghost e3 = e2.push(Tok::ObjectStart);
    put_key(out, "vars", Ghost(start), Ghost(e3));
    let ghost e4 = e3 + key_toks("vars"@);
    put_byte(out, 91, Ghost(start), Ghost(e4), Ghost(Tok::ArrayStart));
    let ghost e5 = e4.push(Tok::ArrayStart);
    put_strings(out, vars, Ghost(start), Ghost(e5));
    let ghost e6 = e5 + strings_toks(texts(vars@));
    put_byte(out, 93, Ghost(start), Ghost(e6), Ghost(Tok::ArrayEnd));
    let ghost e7 = e6.push(Tok::ArrayEnd);
    put_byte(out, 125, Ghost(start), Ghost(e7), Ghost(Tok::ObjectEnd));
    let ghost e8 = e7.push(Tok::ObjectEnd);
    put_byte(out, 44, Ghost(start), Ghost(e8), Ghost(Tok::Comma));
    let ghost e9 = e8.push(Tok::Comma);
    put_key(out, "results", Ghost(start), Ghost(e9));
    let ghost e10 = e9 + key_toks("results"@);
    put_byte(out, 123, Ghost(start), Ghost(e10), Ghost(Tok::ObjectStart));
    let ghost e11 = e10.push(Tok::ObjectStart);
    put_key(out, "bindings", Ghost(start), Ghost(e11));
    let ghost e12 = e11 + key_toks("bindings"@);
    put_byte(out, 91, Ghost(start), Ghost(e12), Ghost(Tok::ArrayStart));
    assert(e12.push(Tok::ArrayStart) =~= select_start_toks(texts(vars@)));
}

/// Writes the end of a SELECT document.
fn put_select_end(out: &mut Vec<u8>)
    ensures
        final(out)@ == old(out)@ + toks_bytes(select_end_toks()),
        strings_read_back(select_end_toks()),
{
    let ghost start = out@;
    let ghost e0: Seq<Tok> = seq![];
    assert(start + toks_bytes(e0) =~= start);
    put_byte(out, 93, Ghost(start), Ghost(e0), Ghost(Tok::ArrayEnd));
    let ghost e1 = e0.push(Tok::ArrayEnd);
    put_byte(out, 125, Ghost(start), Ghost(e1), Ghost(Tok::ObjectEnd));
    let ghost e2 = e1.push(Tok::ObjectEnd);
    put_byte(out, 125, Ghost(start), Ghost(e2), Ghost(Tok::ObjectEnd));
    assert(e2.push(Tok::ObjectEnd) =~= select_end_toks());
}

/// Writes a whole ASK document.
fn put_ask(out: &mut Vec<u8>, b: bool)
    ensures
        final(out)@ == old(out)@ + toks_bytes(ask_toks(b)),
        strings_read_back(ask_toks(b)),
{
    let ghost start = out@;
    let ghost e0: Seq<Tok> = seq![];
    assert(start + toks_bytes(e0) =~= start);
    put_byte(out, 123, Ghost(start), Ghost(e0), Ghost(Tok::ObjectStart));
    let ghost e1 = e0.push(Tok::ObjectStart);
    put_key(out, "head", Ghost(start), Ghost(e1));
    let ghost e2 = e1 + key_toks("head"@);
    put_byte(out, 123, Ghost(start), Ghost(e2), Ghost(Tok::ObjectStart));
    let ghost e3 = e2.push(Tok::ObjectStart);
    put_byte(out, 125, Ghost(start), Ghost(e3), Ghost(Tok::ObjectEnd));
    let ghost e4 = e3.push(Tok::ObjectEnd);
    put_byte(out, 44, Ghost(start), Ghost(e4), Ghost(Tok::Comma));
    let ghost e5 = e4.push(Tok::Comma);
    put_key(out, "boolean", Ghost(start), Ghost(e5));
    let ghost e6 = e5 + key_toks("boolean"@);
    let ghost before = out@;
    if b {
        out.push(116);
        out.push(114);
        out.push(117);
        out.push(101);
    } else {
        out.push(102);
        out.push(97);
        out.push(108);
        out.push(115);
        out.push(101);
    }
    proof {
        lemma_push_bytes(e6, Tok::Bool(b));
        assert(out@ =~= before + tok_bytes(Tok::Bool(b)));
    }
    let ghost e7 = e6.push(Tok::Bool(b));
    assert(out@ =~= start + toks_bytes(e7));
    put_byte(out, 125, Ghost(start), Ghost(e7), Ghost(Tok::ObjectEnd));
    assert(e7.push(Tok::ObjectEnd) =~= ask_toks(b));
}

/// The bytes a writer gives for one row: a comma unless it is the first
/// row, then the binding object.
pub open spec fn srj_row_piece(first: bool, e: Seq<(Seq<char>, Term)>) -> Seq<u8> {
    (if first {
        Seq::<u8>::empty()
    } else {
        seq![44u8]
    }) + toks_bytes(binding_toks(e))
}

/// The bytes a writer gives for the rows, one piece after another.
pub open spec fn srj_row_pieces(rs: Seq<Seq<(Seq<char>, Term)>>) -> Seq<u8>
    decreases rs.len(),
{
    if rs.len() == 0 {
        seq![]
    } else {
        srj_row_pieces(rs.drop_last()) + srj_row_piece(rs.len() == 1, rs.last())
    }
}

proof fn lemma_row_pieces(rs: Seq<Seq<(Seq<char>, Term)>>)
    ensures
        srj_row_pieces(rs) == toks_bytes(rows_toks(rs)),
    decreases rs.len(),
{
    assert(toks_bytes(Seq::<Tok>::empty()) =~= Seq::<u8>::empty());
    if rs.len() == 1 {
        assert(rs.drop_last() =~= Seq::<Seq<(Seq<char>, Term)>>::empty());
        assert(rs.last() == rs[0]);
        assert(srj_row_pieces(rs.drop_last()) =~= Seq::<u8>::empty());
        assert(srj_row_pieces(rs) =~= toks_bytes(binding_toks(rs[0])));
    } else if rs.len() > 1 {
        lemma_row_pieces(rs.drop_last());
        assert(toks_bytes(seq![Tok::Comma]) =~= seq![44u8]) by {
            assert(seq![Tok::Comma].drop_last() =~= Seq::<Tok>::empty());
        }
        lemma_toks_bytes_concat(rows_toks(rs.drop_last()) + seq![Tok::Comma], binding_toks(rs.last()));
        lemma_toks_bytes_concat(rows_toks(rs.drop_last()), seq![Tok::Comma]);
        assert(srj_row_pieces(rs) =~= toks_bytes(rows_toks(rs)));
    }
}

/// The writer's pieces joined are the whole document: the bytes of
/// `start_select`, then of each `write_row` in order, then of `finish` are
/// the bytes of the SELECT result with these variables and rows.
pub proof fn lemma_srj_writer_pieces(r: SparqlResult)
    ensures
        r matches SparqlResult::Select { vars, rows } ==> toks_bytes(select_start_toks(texts(vars@)))
            + srj_row_pieces(rows_entries(rows@)) + toks_bytes(select_end_toks()) == srj_document(r),
{
    if let SparqlResult::Select { vars, rows } = r {
        let rs = rows_entries(rows@);
        let head = select_start_toks(texts(vars@));
        lemma_row_pieces(rs);
        lemma_toks_bytes_concat(head + rows_toks(rs), select_end_toks());
        lemma_toks_bytes_concat(head, rows_toks(rs));
    }
}

/// Incremental SRJ SELECT serializer. It produces the bytes of the
/// document piece by piece; the caller writes each piece out before asking
/// for the next, so no more than one row is ever held.
pub struct SrjWriter {
    first_row: bool,
    finished: bool,
}

impl SrjWriter {
    /// No row has been written yet.
    pub closed spec fn awaits_first_row(&self) -> bool {
        self.first_row
    }

    /// The document has been closed.
    pub closed spec fn is_finished(&self) -> bool {
        self.finished
    }

    /// Starts a SELECT document: returns the writer and the header bytes
    /// `{"head":{"vars":[...]},"results":{"bindings":[`.
    pub fn start_select(vars: &[String]) -> (r: (SrjWriter, Vec<u8>))
        ensures
            r.0.awaits_first_row(),
            !r.0.is_finished(),
            r.1@ == toks_bytes(select_start_toks(texts(vars@))),
            strings_read_back(select_start_toks(texts(vars@))),
    {
        let mut out: Vec<u8> = Vec::new();
        put_select_start(&mut out, vars);
        assert(Seq::<u8>::empty() + toks_bytes(select_start_toks(texts(vars@))) =~= toks_bytes(select_start_toks(texts(vars@))));
        (SrjWriter { first_row: true, finished: false }, out)
    }

    /// The bytes of one binding row, preceded by a comma after the first
    /// row. A finished writer refuses with `InvalidDocument`.
    pub fn write_row(&mut self, row: &ResultRow) -> (r: Result<Vec<u8>, SparqlResultsError>)
        ensures
            old(self).is_finished() ==> (r matches Err(e) && e.kind() == ErrKind::InvalidDocument
                && e.message() == "SRJ writer already finished"@ && *final(self) == *old(self)),
            !old(self).is_finished() ==> (r matches Ok(b) && b@ == srj_row_piece(old(self).awaits_first_row(), row.entries()) && strings_read_back(binding_toks(row.entries())) && keys_unique(row.entries()) && !final(self).is_finished()
                && !final(self).awaits_first_row()),
    {
        if self.finished {
            return Err(error_with(ErrKind::InvalidDocument, "SRJ writer already finished"));
        }
        let mut out: Vec<u8> = Vec::new();
        if !self.first_row {
            out.push(44);
        }
        let ghost before = out@;
        self.first_row = false;
        write_binding(&mut out, row);
        Ok(out)
    }

    /// Closes the document: the bytes `]}}`. A finished writer refuses with
    /// `InvalidDocument`.
    pub fn finish(&mut self) -> (r: Result<Vec<u8>, SparqlResultsError>)
        ensures
            old(self).is_finished() ==> (r matches Err(e) && e.kind() == ErrKind::InvalidDocument
                && e.message() == "SRJ writer already finished"@ && *final(self) == *old(self)),
            !old(self).is_finished() ==> (r matches Ok(b) && b@ == toks_bytes(select_end_toks())
                && final(self).is_finished()),
    {
        if self.finished {
            return Err(error_with(ErrKind::InvalidDocument, "SRJ writer already finished"));
        }
        self.finished = true;
        let mut out: Vec<u8> = Vec::new();
        put_select_end(&mut out);
        assert(Seq::<u8>::empty() + toks_bytes(select_end_toks()) =~= toks_bytes(select_end_toks()));
        Ok(out)
    }
}

/// The whole SRJ document of a result: a SELECT written through
/// [`SrjWriter`] row by row, or an ASK document.
pub fn write_srj_bytes(result: &SparqlResult) -> (bytes: Vec<u8>)
    ensures
        bytes@ == srj_document(*result),
        strings_read_back(srj_document_toks(*result)),
        result matches SparqlResult::Select { rows, .. } ==> forall|i: int|
            0 <= i < rows@.len() ==> keys_unique(#[trigger] rows@[i].entries()),
        (result matches SparqlResult::Select { rows, .. } ==> rows@.len() < u64::MAX) ==> srj_parse(bytes@)
            == Ok::<ResultView, ErrKind>(srj_read_back(*result)),
{
    match result {
        SparqlResult::Select { vars, rows } => {
            let (mut w, mut out) = SrjWriter::start_select(vars.as_slice());
            let ghost rs = rows_entries(rows@);
            let ghost head = select_start_toks(texts(vars@));
            let mut k: usize = 0;
            assert(head + rows_toks(rs.take(0)) =~= head);
            while k < rows.len()
                invariant
                    rs == rows_entries(rows@),
                    head == select_start_toks(texts(vars@)),
                    0 <= k <= rows@.len(),
                    !w.is_finished(),
                    w.awaits_first_row() == (k == 0),
                    out@ == toks_bytes(head + rows_toks(rs.take(k as int))),
                    strings_read_back(head + rows_toks(rs.take(k as int))),
                    forall|i: int| 0 <= i < k ==> keys_unique(#[trigger] rows@[i].entries()),
                decreases rows@.len() - k,
            {
                let piece = w.write_row(&rows[k]);
                match piece {
                    Ok(b) => {
                        let ghost before = out@;
                        append_bytes(&mut out, b.as_slice());
                        proof {
                            let cur = head + rows_toks(rs.take(k as int));
                            let sep: Seq<Tok> = if k > 0 { seq![Tok::Comma] } else { seq![] };
                            let run = sep + binding_toks(rs[k as int]);
                            lemma_toks_bytes_concat(sep, binding_toks(rs[k as int]));
                            assert(toks_bytes(seq![Tok::Comma]) =~= seq![44u8]) by {
                                assert(seq![Tok::Comma].drop_last() =~= Seq::<Tok>::empty());
                                assert(toks_bytes(Seq::<Tok>::empty()) =~= Seq::<u8>::empty());
                            }
                            assert(toks_bytes(Seq::<Tok>::empty()) =~= Seq::<u8>::empty());
                            assert(b@ == toks_bytes(run));
                            lemma_toks_bytes_concat(cur, run);
                            let t = rs.take(k + 1);
                            assert(t.drop_last() =~= rs.take(k as int));
                            assert(t.last() == rs[k as int]);
                            if k == 0 {
                                assert(rows_toks(rs.take(0)) =~= Seq::<Tok>::empty());
                            }
                            assert(cur + run =~= head + rows_toks(t));
                            assert(strings_read_back(sep)) by {
                                assert forall|i: int| 0 <= i < sep.len() implies crate::srj::wire::str_reads_back(
                                    #[trigger] sep[i],
                                ) by {
                                    assert(sep[i] == Tok::Comma);
                                }
                            }
                            lemma_read_back_concat(sep, binding_toks(rs[k as int]));
                            lemma_read_back_concat(cur, run);
                        }
                    },
                    Err(_) => {},
                }
                k = k + 1;
            }
            assert(rs.take(rows@.len() as int) =~= rs);
            let end = w.finish();
            match end {
                Ok(b) => {
                    append_bytes(&mut out, b.as_slice());
                    proof {
                        lemma_toks_bytes_concat(head + rows_toks(rs), select_end_toks());
                    }
                },
                Err(_) => {},
            }
            proof {
                assert(strings_read_back(select_end_toks())) by {
                    assert forall|i: int| 0 <= i < select_end_toks().len() implies crate::srj::wire::str_reads_back(
                        #[trigger] select_end_toks()[i],
                    ) by {}
                }
                lemma_read_back_concat(head + rows_toks(rs), select_end_toks());
                if rows@.len() < u64::MAX {
                    lemma_srj_round_trip(*result);
                }
            }
            out
        },
        SparqlResult::Ask { result } => {
            let mut out: Vec<u8> = Vec::new();
            put_ask(&mut out, *result);
            assert(Seq::<u8>::empty() + toks_bytes(ask_toks(*result)) =~= toks_bytes(ask_toks(*result)));
            proof {
                lemma_srj_round_trip(SparqlResult::Ask { result: *result });
            }
            out
        },
    }
}

} // verus!
