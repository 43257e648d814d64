//! The SRJ grammar reads back the token runs that the serializer writes.

use vstd::prelude::*;

use crate::error::ErrKind;
use crate::srj::grammar::{
    finish_term, no_fields, sp_comma_or_end, sp_triple_member, sp_triple_members, sp_expect, sp_expect_string, sp_head_members,
    sp_parse_head, sp_parse_value, sp_parse_vars, sp_value_field, sp_value_member, sp_value_members,
    sp_vars_elements, sp_binding_members, sp_parse_binding, tok_at, Fields, Parsed, ValueField,
};
use crate::srj::token::Tok;
use crate::srj::wire::{binding_toks, key_toks, members_toks, opt_member_toks, sorted_entries, strings_toks, value_toks};
use crate::types::{
    direction_token, entries_insert, key_position_from, keys_unique, lemma_direction_token_round_trip, BaseDirection, Term,
};

verus! {

/// The run `w` stands in `ts` from position `p`.
pub open spec fn at(ts: Seq<Tok>, p: int, w: Seq<Tok>) -> bool {
    0 <= p && p + w.len() <= ts.len() && ts.subrange(p, p + w.len()) == w
}

/// A run that stands at `p` splits into its two parts.
pub proof fn lemma_at_split(ts: Seq<Tok>, p: int, a: Seq<Tok>, b: Seq<Tok>)
    requires
        at(ts, p, a + b),
    ensures
        at(ts, p, a),
        at(ts, p + a.len(), b),
{
    assert(ts.subrange(p, p + a.len()) =~= (a + b).subrange(0, a.len() as int));
    assert((a + b).subrange(0, a.len() as int) =~= a);
    assert(ts.subrange(p + a.len(), p + a.len() + b.len()) =~= (a + b).subrange(
        a.len() as int,
        (a + b).len() as int,
    ));
    assert((a + b).subrange(a.len() as int, (a + b).len() as int) =~= b);
}

/// The tokens of a run that stands at `p`.
pub proof fn lemma_at_index(ts: Seq<Tok>, p: int, w: Seq<Tok>, i: int)
    requires
        at(ts, p, w),
        0 <= i < w.len(),
    ensures
        tok_at(ts, p + i) == Some(w[i]),
{
    assert(ts.subrange(p, p + w.len())[i] == ts[p + i]);
}

/// The fixed keys of the wire form differ from one another.
pub proof fn lemma_keys_distinct()
    ensures
        "type"@ != "value"@,
        "type"@ != "xml:lang"@,
        "type"@ != "lang"@,
        "type"@ != "datatype"@,
        "type"@ != "its:dir"@,
        "value"@ != "xml:lang"@,
        "value"@ != "lang"@,
        "value"@ != "datatype"@,
        "value"@ != "its:dir"@,
        "xml:lang"@ != "lang"@,
        "xml:lang"@ != "datatype"@,
        "xml:lang"@ != "its:dir"@,
        "lang"@ != "datatype"@,
        "lang"@ != "its:dir"@,
        "datatype"@ != "its:dir"@,
        "subject"@ != "predicate"@,
        "subject"@ != "object"@,
        "predicate"@ != "object"@,
        "uri"@ != "bnode"@,
        "uri"@ != "literal"@,
        "uri"@ != "triple"@,
        "bnode"@ != "literal"@,
        "bnode"@ != "triple"@,
        "literal"@ != "triple"@,
        "head"@ != "results"@,
        "head"@ != "boolean"@,
        "results"@ != "boolean"@,
{
    reveal_strlit("type");
    reveal_strlit("value");
    reveal_strlit("xml:lang");
    reveal_strlit("lang");
    reveal_strlit("datatype");
    reveal_strlit("its:dir");
    reveal_strlit("subject");
    reveal_strlit("predicate");
    reveal_strlit("object");
    reveal_strlit("uri");
    reveal_strlit("bnode");
    reveal_strlit("literal");
    reveal_strlit("triple");
    reveal_strlit("head");
    reveal_strlit("results");
    reveal_strlit("boolean");
    assert("type"@[0] != "lang"@[0]);
    assert("xml:lang"@[0] != "datatype"@[0]);
    assert("head"@.len() != "results"@.len());
    assert("bnode"@[0] != "value"@[0]);
    assert("subject"@[0] != "predicate"@[0]);
    assert("subject"@[0] != "object"@[0]);
    assert("type"@[0] != "value"@[0]);
    assert("type"@[0] != "xml:lang"@[0]);
    assert("type"@[0] != "datatype"@[0]);
    assert("type"@[0] != "its:dir"@[0]);
    assert("value"@[0] != "xml:lang"@[0]);
    assert("value"@[0] != "lang"@[0]);
    assert("value"@[0] != "datatype"@[0]);
    assert("value"@[0] != "its:dir"@[0]);
    assert("xml:lang"@[0] != "lang"@[0]);
    assert("xml:lang"@[0] != "its:dir"@[0]);
    assert("lang"@[0] != "datatype"@[0]);
    assert("lang"@[0] != "its:dir"@[0]);
    assert("datatype"@[0] != "its:dir"@[0]);
    assert("predicate"@[0] != "object"@[0]);
    assert("uri"@[0] != "bnode"@[0]);
    assert("uri"@[0] != "literal"@[0]);
    assert("uri"@[0] != "triple"@[0]);
    assert("bnode"@[0] != "literal"@[0]);
    assert("bnode"@[0] != "triple"@[0]);
    assert("literal"@[0] != "triple"@[0]);
    assert("head"@[0] != "boolean"@[0]);
    assert("results"@[0] != "boolean"@[0]);
}

/// The elements of a string array split after the first one.
pub proof fn lemma_strings_front(v: Seq<Seq<char>>)
    requires
        v.len() > 0,
    ensures
        strings_toks(v) == if v.len() == 1 {
            seq![Tok::Str(v[0])]
        } else {
            seq![Tok::Str(v[0]), Tok::Comma] + strings_toks(v.drop_first())
        },
    decreases v.len(),
{
    if v.len() == 1 {
    } else if v.len() == 2 {
        assert(v.drop_first().len() == 1);
        assert(v.drop_last().len() == 1);
        assert(strings_toks(v.drop_last()) == seq![Tok::Str(v[0])]);
        assert(strings_toks(v.drop_first()) == seq![Tok::Str(v[1])]);
        assert(strings_toks(v) =~= seq![Tok::Str(v[0]), Tok::Comma] + strings_toks(v.drop_first()));
    } else {
        lemma_strings_front(v.drop_last());
        assert(v.drop_last().drop_first() =~= v.drop_first().drop_last());
        assert(v.drop_first().last() == v.last());
        assert(v.drop_last()[0] == v[0]);
        assert(strings_toks(v) =~= seq![Tok::Str(v[0]), Tok::Comma] + strings_toks(v.drop_first()));
    }
}

/// The array elements read back as the written strings.
pub proof fn lemma_read_vars(ts: Seq<Tok>, p: int, v: Seq<Seq<char>>, acc: Seq<Seq<char>>)
    requires
        at(ts, p, strings_toks(v) + seq![Tok::ArrayEnd]),
    ensures
        sp_vars_elements(ts, p, acc) == Parsed::Done(acc + v, p + strings_toks(v).len() + 1),
    decreases v.len(),
{
    if v.len() == 0 {
        assert(strings_toks(v) =~= Seq::<Tok>::empty());
        lemma_at_index(ts, p, strings_toks(v) + seq![Tok::ArrayEnd], 0);
        assert(acc + v =~= acc);
    } else {
        lemma_strings_front(v);
        let w = strings_toks(v) + seq![Tok::ArrayEnd];
        lemma_at_index(ts, p, w, 0);
        lemma_at_index(ts, p, w, 1);
        if v.len() == 1 {
            assert(acc.push(v[0]) =~= acc + v);
        } else {
            lemma_at_index(ts, p, w, 2);
            let tail = strings_toks(v.drop_first()) + seq![Tok::ArrayEnd];
            assert(w =~= seq![Tok::Str(v[0]), Tok::Comma] + tail);
            lemma_at_split(ts, p, seq![Tok::Str(v[0]), Tok::Comma], tail);
            lemma_strings_front(v.drop_first());
            lemma_read_vars(ts, p + 2, v.drop_first(), acc.push(v[0]));
            assert(acc.push(v[0]) + v.drop_first() =~= acc + v);
        }
    }
}

/// The `head` object as the serializer writes it.
pub open spec fn head_object_toks(vars: Seq<Seq<char>>) -> Seq<Tok> {
    seq![Tok::ObjectStart] + key_toks("vars"@) + seq![Tok::ArrayStart] + strings_toks(vars) + seq![
        Tok::ArrayEnd,
        Tok::ObjectEnd,
    ]
}

/// The `head` object reads back as its variables.
#[verifier::rlimit(40)]
pub proof fn lemma_read_head(vars: Seq<Seq<char>>)
    ensures
        sp_parse_head(head_object_toks(vars), 0) == Parsed::Done(vars, head_object_toks(vars).len() as int),
{
    let ts = head_object_toks(vars);
    let n = strings_toks(vars).len() as int;
    assert(at(ts, 0, ts)) by {
        assert(ts.subrange(0, ts.len() as int) =~= ts);
    }
    let pre = seq![Tok::ObjectStart, Tok::Str("vars"@), Tok::Colon, Tok::ArrayStart];
    let rest = strings_toks(vars) + seq![Tok::ArrayEnd];
    assert(ts =~= pre + rest + seq![Tok::ObjectEnd]);
    lemma_at_split(ts, 0, pre + rest, seq![Tok::ObjectEnd]);
    lemma_at_split(ts, 0, pre, rest);
    lemma_at_index(ts, 0, pre, 0);
    lemma_at_index(ts, 0, pre, 1);
    lemma_at_index(ts, 0, pre, 2);
    lemma_at_index(ts, 0, pre, 3);
    lemma_at_index(ts, 4 + n + 1, seq![Tok::ObjectEnd], 0);
    lemma_read_vars(ts, 4, vars, seq![]);
    assert(Seq::<Seq<char>>::empty() + vars =~= vars);
    assert(sp_parse_vars(ts, 3) == Parsed::Done(vars, 4 + n + 1));
    assert(sp_head_members(ts, 1, seq![]) == Parsed::Done(vars, 4 + n + 2));
}

/// What follows a member of a term object that ended before `q`.
pub open spec fn after_value_member(ts: Seq<Tok>, q: int, f: Fields) -> Parsed<Fields> {
    match sp_comma_or_end(ts, q) {
        Parsed::Done(true, q4) => sp_value_members(ts, q4, f),
        Parsed::Done(false, q4) => Parsed::Done(f, q4),
        r => crate::srj::grammar::fail_as(r),
    }
}

/// One member `"key": ...` of a term object at `p`.
proof fn lemma_value_member_step(ts: Seq<Tok>, p: int, f: Fields, key: Seq<char>, f2: Fields, q3: int)
    requires
        tok_at(ts, p) == Some(Tok::Str(key)),
        tok_at(ts, p + 1) == Some(Tok::Colon),
        sp_value_member(ts, p + 2, key, f) == Parsed::Done(f2, q3),
        q3 >= p + 2,
    ensures
        sp_value_members(ts, p, f) == after_value_member(ts, q3, f2),
{
}

/// A comma, then the next member.
proof fn lemma_after_comma(ts: Seq<Tok>, q: int, f: Fields, k: Seq<char>)
    requires
        tok_at(ts, q) == Some(Tok::Comma),
        tok_at(ts, q + 1) == Some(Tok::Str(k)),
    ensures
        after_value_member(ts, q, f) == sp_value_members(ts, q + 1, f),
{
}

/// An optional member `,"key":"x"` that is present.
proof fn lemma_after_opt(ts: Seq<Tok>, q: int, f: Fields, key: Seq<char>, f2: Fields)
    requires
        tok_at(ts, q) == Some(Tok::Comma),
        tok_at(ts, q + 1) matches Some(Tok::Str(k)) && k == key,
        tok_at(ts, q + 2) == Some(Tok::Colon),
        sp_value_member(ts, q + 3, key, f) == Parsed::Done(f2, q + 4),
    ensures
        after_value_member(ts, q, f) == after_value_member(ts, q + 4, f2),
{
    lemma_value_member_step(ts, q + 1, f, key, f2, q + 4);
}

/// An optional member `,"key":"x"`, present or not.
proof fn lemma_opt_member(ts: Seq<Tok>, q: int, f: Fields, key: Seq<char>, v: Option<Seq<char>>, f2: Fields)
    requires
        at(ts, q, opt_member_toks(key, v)),
        v matches Some(x) ==> sp_value_member(ts, q + 3, key, f) == Parsed::Done(f2, q + 4),
        v is None ==> f2 == f,
    ensures
        after_value_member(ts, q, f) == after_value_member(ts, q + opt_member_toks(key, v).len(), f2),
{
    match v {
        Some(x) => {
            let a = opt_member_toks(key, v);
            assert(a =~= seq![Tok::Comma, Tok::Str(key), Tok::Colon, Tok::Str(x)]);
            lemma_at_index(ts, q, a, 0);
            lemma_at_index(ts, q, a, 1);
            lemma_at_index(ts, q, a, 2);
            lemma_after_opt(ts, q, f, key, f2);
        },
        None => {},
    }
}

proof fn lemma_member_lang(ts: Seq<Tok>, p: int, f: Fields, x: Seq<char>)
    requires
        tok_at(ts, p) == Some(Tok::Str(x)),
    ensures
        sp_value_member(ts, p, "xml:lang"@, f) == Parsed::Done(Fields { lang: Some(x), ..f }, p + 1),
{
    lemma_keys_distinct();
}

proof fn lemma_member_dir(ts: Seq<Tok>, p: int, f: Fields, d: BaseDirection)
    requires
        tok_at(ts, p) == Some(Tok::Str(direction_token(d))),
    ensures
        sp_value_member(ts, p, "its:dir"@, f) == Parsed::Done(Fields { dir: Some(d), ..f }, p + 1),
{
    lemma_keys_distinct();
    lemma_direction_token_round_trip(d, direction_token(d));
}

proof fn lemma_member_datatype(ts: Seq<Tok>, p: int, f: Fields, x: Seq<char>)
    requires
        tok_at(ts, p) == Some(Tok::Str(x)),
    ensures
        sp_value_member(ts, p, "datatype"@, f) == Parsed::Done(Fields { datatype: Some(x), ..f }, p + 1),
{
    lemma_keys_distinct();
}

pub open spec fn dir_text(dir: Option<BaseDirection>) -> Option<Seq<char>> {
    match dir {
        Some(d) => Some(direction_token(d)),
        None => None,
    }
}

/// The optional members of a literal read back into its fields.
proof fn lemma_read_literal_rest(
    ts: Seq<Tok>,
    q: int,
    f: Fields,
    lang: Option<Seq<char>>,
    dir: Option<BaseDirection>,
    dt: Option<Seq<char>>,
)
    requires
        at(
            ts,
            q,
            opt_member_toks("xml:lang"@, lang) + opt_member_toks("its:dir"@, dir_text(dir))
                + opt_member_toks("datatype"@, dt) + seq![Tok::ObjectEnd],
        ),
        f.lang is None,
        f.dir is None,
        f.datatype is None,
    ensures
        after_value_member(ts, q, f) == Parsed::Done(
            Fields { lang, dir, datatype: dt, ..f },
            q + opt_member_toks("xml:lang"@, lang).len() + opt_member_toks("its:dir"@, dir_text(dir)).len()
                + opt_member_toks("datatype"@, dt).len() + 1,
        ),
{
    let a = opt_member_toks("xml:lang"@, lang);
    let b = opt_member_toks("its:dir"@, dir_text(dir));
    let c = opt_member_toks("datatype"@, dt);
    let e = seq![Tok::ObjectEnd];
    lemma_at_split(ts, q, a + b + c, e);
    lemma_at_split(ts, q, a + b, c);
    lemma_at_split(ts, q, a, b);
    let f1 = Fields { lang, ..f };
    if let Some(x) = lang {
        lemma_at_index(ts, q, a, 3);
        lemma_member_lang(ts, q + 3, f, x);
    }
    lemma_opt_member(ts, q, f, "xml:lang"@, lang, f1);
    let q1 = q + a.len();
    let f2 = Fields { dir, ..f1 };
    if let Some(d) = dir {
        lemma_at_index(ts, q1, b, 3);
        lemma_member_dir(ts, q1 + 3, f1, d);
    }
    lemma_opt_member(ts, q1, f1, "its:dir"@, dir_text(dir), f2);
    let q2 = q1 + b.len();
    let f3 = Fields { datatype: dt, ..f2 };
    if let Some(x) = dt {
        lemma_at_index(ts, q2, c, 3);
        lemma_member_datatype(ts, q2 + 3, f2, x);
    }
    lemma_opt_member(ts, q2, f2, "datatype"@, dt, f3);
    let q3 = q2 + c.len();
    lemma_at_index(ts, q3, e, 0);
    assert(f3 == Fields { lang, dir, datatype: dt, ..f });
}

/// The members `"type":"kind","value":` of a term object from `p + 1`,
/// then whatever follows the value member.
proof fn lemma_type_then_value(ts: Seq<Tok>, p: int, kind: Seq<char>, fv: ValueField, q: int)
    requires
        at(ts, p, seq![Tok::ObjectStart, Tok::Str("type"@), Tok::Colon, Tok::Str(kind), Tok::Comma, Tok::Str("value"@), Tok::Colon]),
        sp_value_field(ts, p + 7) == Parsed::Done(fv, q),
        q >= p + 7,
    ensures
        sp_value_members(ts, p + 1, no_fields()) == after_value_member(
            ts,
            q,
            Fields { term_type: Some(kind), value: Some(fv), ..no_fields() },
        ),
{
    lemma_keys_distinct();
    let w = seq![Tok::ObjectStart, Tok::Str("type"@), Tok::Colon, Tok::Str(kind), Tok::Comma, Tok::Str("value"@), Tok::Colon];
    lemma_at_index(ts, p, w, 0);
    lemma_at_index(ts, p, w, 1);
    lemma_at_index(ts, p, w, 2);
    lemma_at_index(ts, p, w, 3);
    lemma_at_index(ts, p, w, 4);
    lemma_at_index(ts, p, w, 5);
    lemma_at_index(ts, p, w, 6);
    let f1 = Fields { term_type: Some(kind), ..no_fields() };
    assert(sp_value_member(ts, p + 3, "type"@, no_fields()) == Parsed::Done(f1, p + 4));
    lemma_value_member_step(ts, p + 1, no_fields(), "type"@, f1, p + 4);
    lemma_after_comma(ts, p + 4, f1, "value"@);
    let f2 = Fields { value: Some(fv), ..f1 };
    assert(sp_value_member(ts, p + 7, "value"@, f1) == Parsed::Done(f2, q));
    lemma_value_member_step(ts, p + 5, f1, "value"@, f2, q);
}

/// What follows a member of a triple object that ended before `q`.
pub open spec fn after_triple_member(
    ts: Seq<Tok>,
    q: int,
    parts: (Option<Term>, Option<Term>, Option<Term>),
) -> Parsed<(Option<Term>, Option<Term>, Option<Term>)> {
    match sp_comma_or_end(ts, q) {
        Parsed::Done(true, q4) => sp_triple_members(ts, q4, parts),
        Parsed::Done(false, q4) => Parsed::Done(parts, q4),
        r => crate::srj::grammar::fail_as(r),
    }
}

/// One member `"key": term` of a triple object at `p`, whose term reads
/// back as `t` up to `q3`.
proof fn lemma_triple_member_step(
    ts: Seq<Tok>,
    p: int,
    parts: (Option<Term>, Option<Term>, Option<Term>),
    key: Seq<char>,
    parts2: (Option<Term>, Option<Term>, Option<Term>),
    q3: int,
)
    requires
        tok_at(ts, p) == Some(Tok::Str(key)),
        tok_at(ts, p + 1) == Some(Tok::Colon),
        sp_triple_member(ts, p + 2, key, parts) == Parsed::Done(parts2, q3),
        q3 >= p + 2,
    ensures
        sp_triple_members(ts, p, parts) == after_triple_member(ts, q3, parts2),
{
}

/// The member of a triple object at `p` named `key` reads up to `q`.
#[verifier::opaque]
pub open spec fn member_reads(
    ts: Seq<Tok>,
    p: int,
    key: Seq<char>,
    parts: (Option<Term>, Option<Term>, Option<Term>),
    parts2: (Option<Term>, Option<Term>, Option<Term>),
    q: int,
) -> bool {
    sp_triple_member(ts, p, key, parts) == Parsed::Done(parts2, q)
}

/// The term object at `p` reads back as `t` up to `q`.
#[verifier::opaque]
pub open spec fn value_reads(ts: Seq<Tok>, p: int, t: Term, q: int) -> bool {
    sp_parse_value(ts, p) == Parsed::Done(t, q)
}

/// The member of a triple object named `key` reads its term.
proof fn lemma_triple_key(
    ts: Seq<Tok>,
    p: int,
    key: Seq<char>,
    parts: (Option<Term>, Option<Term>, Option<Term>),
    t: Term,
    q: int,
)
    requires
        value_reads(ts, p, t, q),
        key == "subject"@ || key == "predicate"@ || key == "object"@,
    ensures
        member_reads(
            ts,
            p,
            key,
            parts,
            if key == "subject"@ {
                (Some(t), parts.1, parts.2)
            } else if key == "predicate"@ {
                (parts.0, Some(t), parts.2)
            } else {
                (parts.0, parts.1, Some(t))
            },
            q,
        ),
{
    reveal(member_reads);
    reveal(value_reads);
}

/// A comma and the next member of a triple object.
proof fn lemma_triple_after_comma(
    ts: Seq<Tok>,
    q: int,
    parts: (Option<Term>, Option<Term>, Option<Term>),
    k: Seq<char>,
)
    requires
        tok_at(ts, q) == Some(Tok::Comma),
        tok_at(ts, q + 1) == Some(Tok::Str(k)),
    ensures
        after_triple_member(ts, q, parts) == sp_triple_members(ts, q + 1, parts),
{
}

/// The members of a triple object after its `{`, given what each member
/// reads.
#[verifier::rlimit(80)]
#[verifier::spinoff_prover]
proof fn lemma_triple_chain(
    ts: Seq<Tok>,
    p: int,
    p1: (Option<Term>, Option<Term>, Option<Term>),
    p2: (Option<Term>, Option<Term>, Option<Term>),
    p3: (Option<Term>, Option<Term>, Option<Term>),
    a: int,
    b: int,
    c: int,
)
    requires
        p + 3 <= a,
        a + 4 <= b,
        b + 4 <= c,
        tok_at(ts, p + 1) == Some(Tok::Str("subject"@)),
        tok_at(ts, p + 2) == Some(Tok::Colon),
        member_reads(ts, p + 3, "subject"@, (None, None, None), p1, a),
        tok_at(ts, a) == Some(Tok::Comma),
        tok_at(ts, a + 1) == Some(Tok::Str("predicate"@)),
        tok_at(ts, a + 2) == Some(Tok::Colon),
        member_reads(ts, a + 3, "predicate"@, p1, p2, b),
        tok_at(ts, b) == Some(Tok::Comma),
        tok_at(ts, b + 1) == Some(Tok::Str("object"@)),
        tok_at(ts, b + 2) == Some(Tok::Colon),
        member_reads(ts, b + 3, "object"@, p2, p3, c),
        tok_at(ts, c) == Some(Tok::ObjectEnd),
    ensures
        sp_triple_members(ts, p + 1, (None, None, None)) == Parsed::Done(p3, c + 1),
{
    reveal(member_reads);
    lemma_triple_member_step(ts, b + 1, p2, "object"@, p3, c);
    lemma_triple_after_comma(ts, b, p2, "object"@);
    lemma_triple_member_step(ts, a + 1, p1, "predicate"@, p2, b);
    lemma_triple_after_comma(ts, a, p1, "predicate"@);
    lemma_triple_member_step(ts, p + 1, (None, None, None), "subject"@, p1, a);
}

/// A triple object whose members read back as three terms.
proof fn lemma_triple_field(ts: Seq<Tok>, p: int, s: Term, pr: Term, o: Term, q: int)
    requires
        tok_at(ts, p) == Some(Tok::ObjectStart),
        sp_triple_members(ts, p + 1, (None, None, None)) == Parsed::Done((Some(s), Some(pr), Some(o)), q),
    ensures
        sp_value_field(ts, p) == Parsed::Done(ValueField::Triple(s, pr, o), q),
{
}

/// A triple object whose three terms read back reads back as the triple.
#[verifier::rlimit(40)]
proof fn lemma_read_triple_object(ts: Seq<Tok>, p: int, s: Term, pr: Term, o: Term, a: int, b: int, c: int)
    requires
        p + 3 <= a,
        a + 4 <= b,
        b + 4 <= c,
        at(ts, p, seq![Tok::ObjectStart, Tok::Str("subject"@), Tok::Colon]),
        member_reads(ts, p + 3, "subject"@, (None, None, None), (Some(s), None, None), a),
        at(ts, a, seq![Tok::Comma, Tok::Str("predicate"@), Tok::Colon]),
        member_reads(ts, a + 3, "predicate"@, (Some(s), None, None), (Some(s), Some(pr), None), b),
        at(ts, b, seq![Tok::Comma, Tok::Str("object"@), Tok::Colon]),
        member_reads(ts, b + 3, "object"@, (Some(s), Some(pr), None), (Some(s), Some(pr), Some(o)), c),
        tok_at(ts, c) == Some(Tok::ObjectEnd),
    ensures
        sp_value_field(ts, p) == Parsed::Done(ValueField::Triple(s, pr, o), c + 1),
{
    let w0 = seq![Tok::ObjectStart, Tok::Str("subject"@), Tok::Colon];
    let w1 = seq![Tok::Comma, Tok::Str("predicate"@), Tok::Colon];
    let w2 = seq![Tok::Comma, Tok::Str("object"@), Tok::Colon];
    lemma_at_index(ts, p, w0, 0);
    lemma_at_index(ts, p, w0, 1);
    lemma_at_index(ts, p, w0, 2);
    lemma_at_index(ts, a, w1, 0);
    lemma_at_index(ts, a, w1, 1);
    lemma_at_index(ts, a, w1, 2);
    lemma_at_index(ts, b, w2, 0);
    lemma_at_index(ts, b, w2, 1);
    lemma_at_index(ts, b, w2, 2);
    lemma_triple_chain(ts, p, (Some(s), None, None), (Some(s), Some(pr), None), (Some(s), Some(pr), Some(o)), a, b, c);
    lemma_triple_field(ts, p, s, pr, o, c + 1);
}

/// The first tokens of a term object: `{"type":"kind","value":`.
pub open spec fn term_head(kind: Seq<char>) -> Seq<Tok> {
    seq![Tok::ObjectStart, Tok::Str("type"@), Tok::Colon, Tok::Str(kind), Tok::Comma, Tok::Str("value"@), Tok::Colon]
}

/// The object after `expect` of its `{`: the members, then the term.
proof fn lemma_parse_value_from_members(ts: Seq<Tok>, p: int, f: Fields, q: int, t: Term)
    requires
        tok_at(ts, p) == Some(Tok::ObjectStart),
        sp_value_members(ts, p + 1, no_fields()) == Parsed::Done(f, q),
        finish_term(f) == Ok::<Term, ErrKind>(t),
    ensures
        sp_parse_value(ts, p) == Parsed::Done(t, q),
{
}

#[verifier::rlimit(40)]
proof fn lemma_read_simple(ts: Seq<Tok>, p: int, t: Term)
    requires
        at(ts, p, value_toks(t)),
        t is Uri || t is BNode,
    ensures
        sp_parse_value(ts, p) == Parsed::Done(t, p + value_toks(t).len()),
{
    lemma_keys_distinct();
    let (kind, s) = match t {
        Term::Uri(s) => ("uri"@, s),
        Term::BNode(s) => ("bnode"@, s),
        _ => (seq![], seq![]),
    };
    let tail = seq![Tok::Str(s), Tok::ObjectEnd];
    assert(value_toks(t) =~= term_head(kind) + tail);
    lemma_at_split(ts, p, term_head(kind), tail);
    lemma_at_index(ts, p, term_head(kind), 0);
    lemma_at_index(ts, p + 7, tail, 0);
    lemma_at_index(ts, p + 7, tail, 1);
    lemma_type_then_value(ts, p, kind, ValueField::Text(s), p + 8);
    let f = Fields { term_type: Some(kind), value: Some(ValueField::Text(s)), ..no_fields() };
    assert(after_value_member(ts, p + 8, f) == Parsed::Done(f, p + 9));
    lemma_parse_value_from_members(ts, p, f, p + 9, t);
}

#[verifier::rlimit(40)]
proof fn lemma_read_literal(
    ts: Seq<Tok>,
    p: int,
    value: Seq<char>,
    lang: Option<Seq<char>>,
    datatype: Option<Seq<char>>,
    dir: Option<BaseDirection>,
)
    requires
        at(ts, p, value_toks(Term::Literal { value, lang, datatype, dir })),
    ensures
        sp_parse_value(ts, p) == Parsed::Done(
            Term::Literal { value, lang, datatype, dir },
            p + value_toks(Term::Literal { value, lang, datatype, dir }).len(),
        ),
{
    lemma_keys_distinct();
    let t = Term::Literal { value, lang, datatype, dir };
    let rest = opt_member_toks("xml:lang"@, lang) + opt_member_toks("its:dir"@, dir_text(dir))
        + opt_member_toks("datatype"@, datatype) + seq![Tok::ObjectEnd];
    let h = term_head("literal"@);
    assert(value_toks(t) =~= h + seq![Tok::Str(value)] + rest);
    lemma_at_split(ts, p, h + seq![Tok::Str(value)], rest);
    lemma_at_split(ts, p, h, seq![Tok::Str(value)]);
    lemma_at_index(ts, p, h, 0);
    lemma_at_index(ts, p + 7, seq![Tok::Str(value)], 0);
    lemma_type_then_value(ts, p, "literal"@, ValueField::Text(value), p + 8);
    let f2 = Fields { term_type: Some("literal"@), value: Some(ValueField::Text(value)), ..no_fields() };
    lemma_read_literal_rest(ts, p + 8, f2, lang, dir, datatype);
    let f3 = Fields { lang, dir, datatype, ..f2 };
    lemma_parse_value_from_members(ts, p, f3, p + value_toks(t).len(), t);
}

/// A term object that the serializer wrote reads back as its term.
pub proof fn lemma_read_value(ts: Seq<Tok>, p: int, t: Term)
    requires
        at(ts, p, value_toks(t)),
    ensures
        sp_parse_value(ts, p) == Parsed::Done(t, p + value_toks(t).len()),
{
    lemma_read_value_rec(ts, p, t);
    reveal(value_reads);
}

#[verifier::rlimit(100)]
proof fn lemma_read_value_rec(ts: Seq<Tok>, p: int, t: Term)
    requires
        at(ts, p, value_toks(t)),
    ensures
        value_reads(ts, p, t, p + value_toks(t).len()),
    decreases t,
{
    match t {
        Term::Uri(_) | Term::BNode(_) => {
            lemma_read_simple(ts, p, t);
            reveal(value_reads);
        },
        Term::Literal { value, lang, datatype, dir } => {
            lemma_read_literal(ts, p, value, lang, datatype, dir);
            reveal(value_reads);
        },
        Term::Triple { subject, predicate, object } => {
            lemma_keys_distinct();
            let vs = value_toks(*subject);
            let vp = value_toks(*predicate);
            let vo = value_toks(*object);
            let h = term_head("triple"@);
            let w0 = seq![Tok::ObjectStart, Tok::Str("subject"@), Tok::Colon];
            let w1 = seq![Tok::Comma, Tok::Str("predicate"@), Tok::Colon];
            let w2 = seq![Tok::Comma, Tok::Str("object"@), Tok::Colon];
            let w3 = seq![Tok::ObjectEnd, Tok::ObjectEnd];
            assert(value_toks(t) =~= h + w0 + vs + w1 + vp + w2 + vo + w3);
            lemma_at_split(ts, p, h + w0 + vs + w1 + vp + w2 + vo, w3);
            lemma_at_split(ts, p, h + w0 + vs + w1 + vp + w2, vo);
            lemma_at_split(ts, p, h + w0 + vs + w1 + vp, w2);
            lemma_at_split(ts, p, h + w0 + vs + w1, vp);
            lemma_at_split(ts, p, h + w0 + vs, w1);
            lemma_at_split(ts, p, h + w0, vs);
            lemma_at_split(ts, p, h, w0);
            let a = p + 10 + vs.len();
            let b = a + 3 + vp.len();
            let c = b + 3 + vo.len();
            lemma_read_value_rec(ts, p + 10, *subject);
            lemma_read_value_rec(ts, a + 3, *predicate);
            lemma_read_value_rec(ts, b + 3, *object);
            lemma_at_index(ts, c, w3, 0);
            lemma_at_index(ts, c, w3, 1);
            lemma_at_index(ts, p, h, 0);
            assert("subject"@ != "predicate"@ && "subject"@ != "object"@ && "predicate"@ != "object"@);
            lemma_triple_key(ts, p + 10, "subject"@, (None, None, None), *subject, a);
            lemma_triple_key(ts, a + 3, "predicate"@, (Some(*subject), None, None), *predicate, b);
            lemma_triple_key(ts, b + 3, "object"@, (Some(*subject), Some(*predicate), None), *object, c);
            lemma_read_triple_object(ts, p + 7, *subject, *predicate, *object, a, b, c);
            let fv = ValueField::Triple(*subject, *predicate, *object);
            lemma_type_then_value(ts, p, "triple"@, fv, c + 1);
            let f = Fields { term_type: Some("triple"@), value: Some(fv), ..no_fields() };
            assert(after_value_member(ts, c + 1, f) == Parsed::Done(f, c + 2));
            lemma_parse_value_from_members(ts, p, f, c + 2, t);
            reveal(value_reads);
        },
    }
}

/// The members of a binding object split after the first one.
pub proof fn lemma_members_front(e: Seq<(Seq<char>, Term)>)
    requires
        e.len() > 0,
    ensures
        members_toks(e) == if e.len() == 1 {
            key_toks(e[0].0) + value_toks(e[0].1)
        } else {
            key_toks(e[0].0) + value_toks(e[0].1) + seq![Tok::Comma] + members_toks(e.drop_first())
        },
    decreases e.len(),
{
    if e.len() == 1 {
    } else if e.len() == 2 {
        assert(e.drop_last().len() == 1);
        assert(e.drop_first().len() == 1);
        assert(members_toks(e.drop_last()) == key_toks(e[0].0) + value_toks(e[0].1));
        assert(members_toks(e.drop_first()) == key_toks(e[1].0) + value_toks(e[1].1));
        assert(e.last() == e[1]);
    } else {
        lemma_members_front(e.drop_last());
        assert(e.drop_last().drop_first() =~= e.drop_first().drop_last());
        assert(e.drop_first().last() == e.last());
        assert(e.drop_last()[0] == e[0]);
        assert(members_toks(e) =~= key_toks(e[0].0) + value_toks(e[0].1) + seq![Tok::Comma] + members_toks(
            e.drop_first(),
        ));
    }
}

/// A key that no entry has is found nowhere.
pub(crate) proof fn lemma_key_absent(e: Seq<(Seq<char>, Term)>, k: Seq<char>, i: int)
    requires
        0 <= i,
        forall|j: int| 0 <= j < e.len() ==> #[trigger] e[j].0 != k,
    ensures
        key_position_from(e, k, i) is None,
    decreases e.len() - i,
{
    if i < e.len() {
        lemma_key_absent(e, k, i + 1);
    }
}

/// What follows a member of a binding object that ended before `q`.
pub open spec fn after_binding_member(ts: Seq<Tok>, q: int, e: Seq<(Seq<char>, Term)>) -> Parsed<
    Seq<(Seq<char>, Term)>,
> {
    match sp_comma_or_end(ts, q) {
        Parsed::Done(true, q4) => sp_binding_members(ts, q4, e),
        Parsed::Done(false, q4) => Parsed::Done(e, q4),
        r => crate::srj::grammar::fail_as(r),
    }
}

/// One member `"key": term` of a binding object whose key is new.
proof fn lemma_binding_member_step(
    ts: Seq<Tok>,
    p: int,
    acc: Seq<(Seq<char>, Term)>,
    k: Seq<char>,
    v: Term,
    q3: int,
)
    requires
        tok_at(ts, p) == Some(Tok::Str(k)),
        tok_at(ts, p + 1) == Some(Tok::Colon),
        value_reads(ts, p + 2, v, q3),
        q3 >= p + 2,
        forall|j: int| 0 <= j < acc.len() ==> #[trigger] acc[j].0 != k,
    ensures
        sp_binding_members(ts, p, acc) == after_binding_member(ts, q3, acc.push((k, v))),
{
    reveal(value_reads);
    lemma_key_absent(acc, k, 0);
    assert(entries_insert(acc, k, v) == acc.push((k, v)));
}

/// The members of a binding object read back as its entries, in order.
#[verifier::rlimit(100)]
#[verifier::spinoff_prover]
pub proof fn lemma_read_members(ts: Seq<Tok>, p: int, es: Seq<(Seq<char>, Term)>, acc: Seq<(Seq<char>, Term)>)
    requires
        at(ts, p, members_toks(es) + seq![Tok::ObjectEnd]),
        keys_unique(acc + es),
    ensures
        sp_binding_members(ts, p, acc) == Parsed::Done(acc + es, p + members_toks(es).len() + 1),
    decreases es.len(),
{
    if es.len() == 0 {
        assert(members_toks(es) =~= Seq::<Tok>::empty());
        lemma_at_index(ts, p, members_toks(es) + seq![Tok::ObjectEnd], 0);
        assert(acc + es =~= acc);
    } else {
        lemma_members_front(es);
        let x = es[0];
        let vt = value_toks(x.1);
        let after = if es.len() == 1 {
            seq![Tok::ObjectEnd]
        } else {
            seq![Tok::Comma] + members_toks(es.drop_first()) + seq![Tok::ObjectEnd]
        };
        assert(members_toks(es) + seq![Tok::ObjectEnd] =~= key_toks(x.0) + vt + after);
        lemma_at_split(ts, p, key_toks(x.0) + vt, after);
        lemma_at_split(ts, p, key_toks(x.0), vt);
        lemma_at_index(ts, p, key_toks(x.0), 0);
        lemma_at_index(ts, p, key_toks(x.0), 1);
        lemma_read_value_rec(ts, p + 2, x.1);
        let q3 = p + 2 + vt.len();
        assert forall|j: int| 0 <= j < acc.len() implies #[trigger] acc[j].0 != x.0 by {
            assert((acc + es)[j] == acc[j]);
            assert((acc + es)[acc.len() as int] == x);
        }
        lemma_binding_member_step(ts, p, acc, x.0, x.1, q3);
        lemma_at_index(ts, q3, after, 0);
        if es.len() == 1 {
            assert(acc.push(x) =~= acc + es);
        } else {
            let rest = es.drop_first();
            assert(after =~= seq![Tok::Comma] + (members_toks(rest) + seq![Tok::ObjectEnd]));
            lemma_at_split(ts, q3, seq![Tok::Comma], members_toks(rest) + seq![Tok::ObjectEnd]);
            lemma_members_front(rest);
            lemma_at_index(ts, q3 + 1, members_toks(rest) + seq![Tok::ObjectEnd], 0);
            assert(acc.push(x) + rest =~= acc + es);
            lemma_read_members(ts, q3 + 1, rest, acc.push(x));
        }
    }
}

/// A binding object that the serializer wrote reads back as its entries,
/// sorted by variable.
pub proof fn lemma_read_binding(e: Seq<(Seq<char>, Term)>)
    requires
        keys_unique(sorted_entries(e)),
    ensures
        sp_parse_binding(binding_toks(e), 0) == Parsed::Done(sorted_entries(e), binding_toks(e).len() as int),
{
    let ts = binding_toks(e);
    let m = members_toks(sorted_entries(e));
    assert(at(ts, 0, ts)) by {
        assert(ts.subrange(0, ts.len() as int) =~= ts);
    }
    assert(ts =~= seq![Tok::ObjectStart] + (m + seq![Tok::ObjectEnd]));
    lemma_at_split(ts, 0, seq![Tok::ObjectStart], m + seq![Tok::ObjectEnd]);
    lemma_at_index(ts, 0, seq![Tok::ObjectStart], 0);
    assert(Seq::<(Seq<char>, Term)>::empty() + sorted_entries(e) =~= sorted_entries(e));
    lemma_read_members(ts, 1, sorted_entries(e), seq![]);
}

} // verus!
