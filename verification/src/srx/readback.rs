//! What the SRX parser reads back from the events of a document that the
//! serializer wrote.
//!
//! The events are those an XML reader reports for the written bytes: tags
//! with their names and raw (escaped) attribute values, text as runs of
//! plain characters and references to the predefined entities that the
//! escaping introduced, then the final newline and the end of input.

use vstd::prelude::*;
use vstd::utf8::*;

use crate::srx::event::{
    find_attr, find_dir_attr, last_index_of, local_name, optional_attr, required_attr, xml_unescape,
    XEv, XTag,
};
use crate::srj::grammar::Parsed;
use crate::srx::grammar::{
    literal_of, nm, sx_component, sx_expect_end, sx_read_text, sx_triple, sx_value, sx_value_from_start,
};
use crate::srx::text::resolve_entity;
use crate::srx::write::{literal_attrs, xml_escape};
use crate::srj::readback::lemma_key_absent;
use crate::srx::grammar::sx_row;
use crate::types::{direction_token, entries_insert, keys_unique, lemma_direction_token_round_trip, BaseDirection, Term};

verus! {

broadcast use vstd::utf8::encode_utf8_decode_utf8;

/// The bytes of ASCII text.
pub open spec fn ascii_bytes(s: Seq<char>) -> Seq<u8> {
    s.map_values(|c: char| (c as u32) as u8)
}

/// Text made of ASCII characters only.
pub open spec fn is_ascii_text(s: Seq<char>) -> bool {
    forall|i: int| 0 <= i < s.len() ==> (#[trigger] s[i] as u32) < 0x80
}

/// ASCII text is encoded byte for byte.
pub proof fn lemma_ascii_encode(s: Seq<char>)
    requires
        is_ascii_text(s),
    ensures
        encode_utf8(s) == ascii_bytes(s),
    decreases s.len(),
{
    if s.len() > 0 {
        let v = s[0] as u32;
        assert(v < 0x80);
        assert((v & 0x7F) as u8 == v as u8) by (bit_vector)
            requires
                v < 0x80,
        ;
        let t = s.drop_first();
        assert(is_ascii_text(t)) by {
            assert forall|i: int| 0 <= i < t.len() implies (#[trigger] t[i] as u32) < 0x80 by {
                assert(t[i] == s[i + 1]);
            }
        }
        lemma_ascii_encode(t);
        assert(ascii_bytes(s) =~= seq![v as u8] + ascii_bytes(t));
    }
}

/// Text without a `:`.
pub open spec fn no_colon(s: Seq<char>) -> bool {
    forall|i: int| 0 <= i < s.len() ==> #[trigger] s[i] != ':'
}

/// The local name of an ASCII name without a `:` is the name.
pub proof fn lemma_local_plain(s: Seq<char>)
    requires
        is_ascii_text(s),
        no_colon(s),
    ensures
        local_name(encode_utf8(s)) == encode_utf8(s),
{
    lemma_ascii_encode(s);
    let b = ascii_bytes(s);
    lemma_no_byte(b, s);
}

proof fn lemma_no_byte(b: Seq<u8>, s: Seq<char>)
    requires
        is_ascii_text(s),
        no_colon(s),
        b == ascii_bytes(s),
    ensures
        last_index_of(b, 58) is None,
    decreases s.len(),
{
    if s.len() > 0 {
        let v = s.last() as u32;
        assert(s.last() == s[s.len() - 1]);
        assert(v < 0x80);
        assert(s.last() != ':');
        assert(v != 58) by {
            if v == 58 {
                vstd::utf8::char_u32_cast(s.last(), v);
                assert((58u32 as char) == ':');
            }
        }
        assert(b.last() == v as u8);
        let t = s.drop_last();
        assert(is_ascii_text(t)) by {
            assert forall|i: int| 0 <= i < t.len() implies (#[trigger] t[i] as u32) < 0x80 by {
                assert(t[i] == s[i]);
            }
        }
        assert(no_colon(t)) by {
            assert forall|i: int| 0 <= i < t.len() implies #[trigger] t[i] != ':' by {
                assert(t[i] == s[i]);
            }
        }
        assert(b.drop_last() =~= ascii_bytes(t));
        lemma_no_byte(b.drop_last(), t);
    }
}

/// Searching a concatenation for its last byte `b`.
proof fn lemma_last_index_concat(x: Seq<u8>, y: Seq<u8>, b: u8)
    ensures
        last_index_of(x + y, b) == match last_index_of(y, b) {
            Some(j) => Some(x.len() + j),
            None => last_index_of(x, b),
        },
    decreases y.len(),
{
    if y.len() == 0 {
        assert(x + y =~= x);
    } else {
        assert((x + y).drop_last() =~= x + y.drop_last());
        assert((x + y).last() == y.last());
        lemma_last_index_concat(x, y.drop_last(), b);
    }
}

/// The local name of `prefix:local`.
pub proof fn lemma_local_prefixed(a: Seq<char>, l: Seq<char>)
    requires
        is_ascii_text(a),
        is_ascii_text(l),
        no_colon(l),
    ensures
        local_name(encode_utf8(a + seq![':'] + l)) == encode_utf8(l),
{
    let s = a + seq![':'] + l;
    assert(is_ascii_text(s)) by {
        assert forall|i: int| 0 <= i < s.len() implies (#[trigger] s[i] as u32) < 0x80 by {
            if i < a.len() {
                assert(s[i] == a[i]);
            } else if i == a.len() {
                assert(s[i] == ':');
            } else {
                assert(s[i] == l[i - a.len() - 1]);
            }
        }
    }
    lemma_ascii_encode(s);
    lemma_ascii_encode(a);
    lemma_ascii_encode(l);
    assert(ascii_bytes(s) =~= ascii_bytes(a) + seq![58u8] + ascii_bytes(l));
    lemma_no_byte(ascii_bytes(l), l);
    lemma_last_index_concat(ascii_bytes(a) + seq![58u8], ascii_bytes(l), 58);
    lemma_last_index_concat(ascii_bytes(a), seq![58u8], 58);
    assert(seq![58u8].drop_last() =~= Seq::<u8>::empty());
    assert(last_index_of(seq![58u8], 58) == Some(0int));
    let bs = ascii_bytes(s);
    assert(bs.subrange(a.len() as int + 1, bs.len() as int) =~= ascii_bytes(l));
}

/// Distinct texts have distinct encodings.
pub proof fn lemma_encode_injective(a: Seq<char>, b: Seq<char>)
    requires
        a != b,
    ensures
        encode_utf8(a) != encode_utf8(b),
{
    if encode_utf8(a) == encode_utf8(b) {
        assert(decode_utf8(encode_utf8(a)) == a);
        assert(decode_utf8(encode_utf8(b)) == b);
    }
}

/// The element names that SRX uses, and how the attribute keys of a
/// literal read.
pub proof fn lemma_srx_names()
    ensures
        local_name(encode_utf8("sparql"@)) == encode_utf8("sparql"@),
        local_name(encode_utf8("head"@)) == encode_utf8("head"@),
        local_name(encode_utf8("variable"@)) == encode_utf8("variable"@),
        local_name(encode_utf8("results"@)) == encode_utf8("results"@),
        local_name(encode_utf8("result"@)) == encode_utf8("result"@),
        local_name(encode_utf8("binding"@)) == encode_utf8("binding"@),
        local_name(encode_utf8("uri"@)) == encode_utf8("uri"@),
        local_name(encode_utf8("literal"@)) == encode_utf8("literal"@),
        local_name(encode_utf8("bnode"@)) == encode_utf8("bnode"@),
        local_name(encode_utf8("triple"@)) == encode_utf8("triple"@),
        local_name(encode_utf8("subject"@)) == encode_utf8("subject"@),
        local_name(encode_utf8("predicate"@)) == encode_utf8("predicate"@),
        local_name(encode_utf8("object"@)) == encode_utf8("object"@),
        local_name(encode_utf8("boolean"@)) == encode_utf8("boolean"@),
        local_name(encode_utf8("datatype"@)) == encode_utf8("datatype"@),
        local_name(encode_utf8("its:dir"@)) == encode_utf8("dir"@),
        local_name(encode_utf8("xml:lang"@)) == encode_utf8("lang"@),
        local_name(encode_utf8("xmlns:its"@)) == encode_utf8("its"@),
{
    reveal_strlit("sparql");
    reveal_strlit("head");
    reveal_strlit("variable");
    reveal_strlit("results");
    reveal_strlit("result");
    reveal_strlit("binding");
    reveal_strlit("uri");
    reveal_strlit("literal");
    reveal_strlit("bnode");
    reveal_strlit("triple");
    reveal_strlit("subject");
    reveal_strlit("predicate");
    reveal_strlit("object");
    reveal_strlit("boolean");
    reveal_strlit("datatype");
    reveal_strlit("its:dir");
    reveal_strlit("xml:lang");
    reveal_strlit("xmlns:its");
    reveal_strlit("dir");
    reveal_strlit("lang");
    reveal_strlit("its");
    reveal_strlit("xml");
    reveal_strlit("xmlns");
    lemma_local_plain("sparql"@);
    lemma_local_plain("head"@);
    lemma_local_plain("variable"@);
    lemma_local_plain("results"@);
    lemma_local_plain("result"@);
    lemma_local_plain("binding"@);
    lemma_local_plain("uri"@);
    lemma_local_plain("literal"@);
    lemma_local_plain("bnode"@);
    lemma_local_plain("triple"@);
    lemma_local_plain("subject"@);
    lemma_local_plain("predicate"@);
    lemma_local_plain("object"@);
    lemma_local_plain("boolean"@);
    lemma_local_plain("datatype"@);
    assert("its:dir"@ =~= "its"@ + seq![':'] + "dir"@);
    lemma_local_prefixed("its"@, "dir"@);
    assert("xml:lang"@ =~= "xml"@ + seq![':'] + "lang"@);
    lemma_local_prefixed("xml"@, "lang"@);
    assert("xmlns:its"@ =~= "xmlns"@ + seq![':'] + "its"@);
    lemma_local_prefixed("xmlns"@, "its"@);
}

/// The run `w` stands in `es` from position `p`.
pub open spec fn at_x(es: Seq<XEv>, p: int, w: Seq<XEv>) -> bool {
    0 <= p && p + w.len() <= es.len() && es.subrange(p, p + w.len()) == w
}

pub proof fn lemma_at_x_split(es: Seq<XEv>, p: int, a: Seq<XEv>, b: Seq<XEv>)
    requires
        at_x(es, p, a + b),
    ensures
        at_x(es, p, a),
        at_x(es, p + a.len(), b),
{
    assert(es.subrange(p, p + a.len()) =~= (a + b).subrange(0, a.len() as int));
    assert((a + b).subrange(0, a.len() as int) =~= a);
    assert(es.subrange(p + a.len(), p + a.len() + b.len()) =~= (a + b).subrange(
        a.len() as int,
        (a + b).len() as int,
    ));
    assert((a + b).subrange(a.len() as int, (a + b).len() as int) =~= b);
}

pub proof fn lemma_at_x_index(es: Seq<XEv>, p: int, w: Seq<XEv>, i: int)
    requires
        at_x(es, p, w),
        0 <= i < w.len(),
    ensures
        es[p + i] == w[i],
        p + i < es.len(),
{
    assert(es.subrange(p, p + w.len())[i] == es[p + i]);
}

/// The characters that escaping replaces.
pub open spec fn is_special(c: char) -> bool {
    c == '<' || c == '>' || c == '&' || c == '\'' || c == '"'
}

/// The entity that escaping writes for a special character.
pub open spec fn entity_name(c: char) -> Seq<char> {
    if c == '<' {
        "lt"@
    } else if c == '>' {
        "gt"@
    } else if c == '&' {
        "amp"@
    } else if c == '\'' {
        "apos"@
    } else {
        "quot"@
    }
}

/// The number of leading characters that escaping leaves as they are.
pub open spec fn plain_run(s: Seq<char>) -> nat
    decreases s.len(),
{
    if s.len() > 0 && !is_special(s[0]) {
        1 + plain_run(s.drop_first())
    } else {
        0
    }
}

pub proof fn lemma_plain_run_bounds(s: Seq<char>)
    ensures
        plain_run(s) <= s.len(),
        s.len() > 0 && !is_special(s[0]) ==> plain_run(s) >= 1,
        forall|i: int| 0 <= i < plain_run(s) ==> !is_special(#[trigger] s[i]),
        plain_run(s) < s.len() ==> is_special(s[plain_run(s) as int]),
    decreases s.len(),
{
    if s.len() > 0 && !is_special(s[0]) {
        lemma_plain_run_bounds(s.drop_first());
        assert forall|i: int| 0 <= i < plain_run(s) implies !is_special(#[trigger] s[i]) by {
            if i > 0 {
                assert(s[i] == s.drop_first()[i - 1]);
            }
        }
        if plain_run(s) < s.len() {
            assert(s[plain_run(s) as int] == s.drop_first()[plain_run(s) - 1]);
        }
    }
}

/// The events a reader reports for the escaped text of `s`: each run of
/// plain characters as text, each escaped character as a reference to its
/// entity.
pub open spec fn text_events(s: Seq<char>) -> Seq<XEv>
    decreases s.len(),
{
    if s.len() == 0 {
        seq![]
    } else if is_special(s[0]) {
        seq![XEv::GeneralRef(encode_utf8(entity_name(s[0])))] + text_events(s.drop_first())
    } else {
        let k = plain_run(s);
        proof {
            lemma_plain_run_bounds(s);
        }
        seq![XEv::Text(encode_utf8(s.take(k as int)))] + text_events(s.skip(k as int))
    }
}

/// A reference to the entity of a special character resolves to it.
pub proof fn lemma_entity(c: char)
    requires
        is_special(c),
    ensures
        resolve_entity(entity_name(c)) == seq![c],
{
    reveal_strlit("amp");
    reveal_strlit("lt");
    reveal_strlit("gt");
    reveal_strlit("quot");
    reveal_strlit("apos");
    reveal_strlit("&");
    reveal_strlit("<");
    reveal_strlit(">");
    reveal_strlit("\"");
    reveal_strlit("'");
    assert("lt"@ != "amp"@) by {
        assert("lt"@.len() != "amp"@.len());
    }
    assert("gt"@ != "amp"@ && "gt"@ != "lt"@) by {
        assert("gt"@[0] != "lt"@[0]);
    }
    assert("quot"@ != "amp"@ && "quot"@ != "lt"@ && "quot"@ != "gt"@) by {
        assert("quot"@[0] != "amp"@[0]);
        assert("quot"@.len() != "lt"@.len());
        assert("quot"@.len() != "gt"@.len());
    }
    assert("apos"@ != "amp"@ && "apos"@ != "lt"@ && "apos"@ != "gt"@ && "apos"@ != "quot"@) by {
        assert("apos"@[0] != "quot"@[0]);
        assert("apos"@[1] != "amp"@[1]);
        assert("apos"@.len() != "lt"@.len());
        assert("apos"@.len() != "gt"@.len());
    }
}

/// The events of a written text, then its end tag, read back as the text.
pub proof fn lemma_read_text_events(es: Seq<XEv>, p: int, s: Seq<char>, tag: Seq<u8>, n: Seq<u8>, acc: Seq<char>)
    requires
        at_x(es, p, text_events(s) + seq![XEv::End(n)]),
        local_name(n) == tag,
    ensures
        sx_read_text(es, p, tag, acc) == Parsed::Done(acc + s, p + text_events(s).len() + 1),
    decreases s.len(),
{
    let w = text_events(s) + seq![XEv::End(n)];
    lemma_at_x_index(es, p, w, 0);
    if s.len() == 0 {
        assert(acc + s =~= acc);
    } else if is_special(s[0]) {
        let b = encode_utf8(entity_name(s[0]));
        let rest = s.drop_first();
        assert(w =~= seq![XEv::GeneralRef(b)] + (text_events(rest) + seq![XEv::End(n)]));
        lemma_at_x_split(es, p, seq![XEv::GeneralRef(b)], text_events(rest) + seq![XEv::End(n)]);
        encode_utf8_valid_utf8(entity_name(s[0]));
        lemma_entity(s[0]);
        lemma_read_text_events(es, p + 1, rest, tag, n, acc + seq![s[0]]);
        assert(acc + seq![s[0]] + rest =~= acc + s);
    } else {
        lemma_plain_run_bounds(s);
        let k = plain_run(s) as int;
        let run = s.take(k);
        let rest = s.skip(k);
        let b = encode_utf8(run);
        assert(w =~= seq![XEv::Text(b)] + (text_events(rest) + seq![XEv::End(n)]));
        lemma_at_x_split(es, p, seq![XEv::Text(b)], text_events(rest) + seq![XEv::End(n)]);
        encode_utf8_valid_utf8(run);
        lemma_read_text_events(es, p + 1, rest, tag, n, acc + run);
        assert(acc + run + rest =~= acc + s);
    }
}

/// A reader gives back the text of the escaped form of `s` as `s`.
pub open spec fn unescapes(s: Seq<char>) -> bool {
    xml_unescape(encode_utf8(xml_escape(s))) == Some(s)
}

/// An optional attribute value that a reader gives back.
pub open spec fn opt_unescapes(o: Option<Seq<char>>) -> bool {
    o matches Some(s) ==> unescapes(s)
}

/// A reader gives back every attribute value written for a term.
pub open spec fn term_reads_back(t: Term) -> bool
    decreases t,
{
    match t {
        Term::Literal { lang, datatype, dir, .. } => opt_unescapes(lang) && opt_unescapes(datatype) && (dir matches Some(
            d,
        ) ==> unescapes(direction_token(d))),
        Term::Triple { subject, predicate, object } => term_reads_back(*subject) && term_reads_back(*predicate)
            && term_reads_back(*object),
        _ => true,
    }
}

/// A reader gives back the name and the attribute values of a binding.
pub open spec fn entry_reads_back(x: (Seq<char>, Term)) -> bool {
    unescapes(x.0) && term_reads_back(x.1)
}

/// A reader gives back the names and attribute values of every binding.
pub open spec fn entries_read_back(e: Seq<(Seq<char>, Term)>) -> bool {
    forall|j: int| 0 <= j < e.len() ==> entry_reads_back(#[trigger] e[j])
}

/// The attributes a reader reports for written ones: UTF-8 keys and the
/// escaped values.
pub open spec fn read_attrs(a: Seq<(Seq<char>, Seq<char>)>) -> Seq<(Seq<u8>, Seq<u8>)> {
    a.map_values(|kv: (Seq<char>, Seq<char>)| (encode_utf8(kv.0), encode_utf8(xml_escape(kv.1))))
}

/// The tag a reader reports for a written start or empty tag.
pub open spec fn read_tag(n: Seq<char>, a: Seq<(Seq<char>, Seq<char>)>) -> XTag {
    XTag { name: encode_utf8(n), attrs: read_attrs(a), malformed: false }
}

proof fn lemma_find_first(a: Seq<(Seq<char>, Seq<char>)>, k: Seq<char>, i: int)
    requires
        0 <= i < a.len(),
        a[i].0 == k,
        forall|j: int| 0 <= j < i ==> #[trigger] a[j].0 != k,
    ensures
        find_attr(read_attrs(a), encode_utf8(k)) == Some(i),
    decreases i,
{
    let r = read_attrs(a);
    assert(r[0] == (encode_utf8(a[0].0), encode_utf8(xml_escape(a[0].1))));
    if i > 0 {
        lemma_encode_injective(a[0].0, k);
        assert(r.drop_first() =~= read_attrs(a.drop_first()));
        let b = a.drop_first();
        assert forall|j: int| 0 <= j < i - 1 implies #[trigger] b[j].0 != k by {
            assert(b[j] == a[j + 1]);
        }
        lemma_find_first(b, k, i - 1);
    }
}

proof fn lemma_find_none(a: Seq<(Seq<char>, Seq<char>)>, k: Seq<char>)
    requires
        forall|j: int| 0 <= j < a.len() ==> #[trigger] a[j].0 != k,
    ensures
        find_attr(read_attrs(a), encode_utf8(k)) is None,
    decreases a.len(),
{
    if a.len() > 0 {
        let r = read_attrs(a);
        assert(r[0] == (encode_utf8(a[0].0), encode_utf8(xml_escape(a[0].1))));
        lemma_encode_injective(a[0].0, k);
        assert(r.drop_first() =~= read_attrs(a.drop_first()));
        let b = a.drop_first();
        assert forall|j: int| 0 <= j < b.len() implies #[trigger] b[j].0 != k by {
            assert(b[j] == a[j + 1]);
        }
        lemma_find_none(b, k);
    }
}

/// The key of an attribute names a direction.
pub open spec fn is_dir_key(k: Seq<char>) -> bool {
    local_name(encode_utf8(k)) == encode_utf8("dir"@)
}

proof fn lemma_find_dir_first(a: Seq<(Seq<char>, Seq<char>)>, i: int)
    requires
        0 <= i < a.len(),
        is_dir_key(a[i].0),
        forall|j: int| 0 <= j < i ==> !is_dir_key(#[trigger] a[j].0),
    ensures
        find_dir_attr(read_attrs(a)) == Some(i),
    decreases i,
{
    let r = read_attrs(a);
    assert(r[0] == (encode_utf8(a[0].0), encode_utf8(xml_escape(a[0].1))));
    if i > 0 {
        assert(r.drop_first() =~= read_attrs(a.drop_first()));
        let b = a.drop_first();
        assert forall|j: int| 0 <= j < i - 1 implies !is_dir_key(#[trigger] b[j].0) by {
            assert(b[j] == a[j + 1]);
        }
        lemma_find_dir_first(b, i - 1);
    }
}

proof fn lemma_find_dir_none(a: Seq<(Seq<char>, Seq<char>)>)
    requires
        forall|j: int| 0 <= j < a.len() ==> !is_dir_key(#[trigger] a[j].0),
    ensures
        find_dir_attr(read_attrs(a)) is None,
    decreases a.len(),
{
    if a.len() > 0 {
        let r = read_attrs(a);
        assert(r[0] == (encode_utf8(a[0].0), encode_utf8(xml_escape(a[0].1))));
        assert(r.drop_first() =~= read_attrs(a.drop_first()));
        let b = a.drop_first();
        assert forall|j: int| 0 <= j < b.len() implies !is_dir_key(#[trigger] b[j].0) by {
            assert(b[j] == a[j + 1]);
        }
        lemma_find_dir_none(b);
    }
}

/// A written attribute reads back as its value.
pub proof fn lemma_attr_found(n: Seq<char>, a: Seq<(Seq<char>, Seq<char>)>, k: Seq<char>, i: int)
    requires
        unescapes(a[i].1),
        0 <= i < a.len(),
        a[i].0 == k,
        forall|j: int| 0 <= j < i ==> #[trigger] a[j].0 != k,
    ensures
        required_attr(read_tag(n, a), encode_utf8(k)) == Ok::<Seq<char>, crate::error::ErrKind>(a[i].1),
        optional_attr(read_tag(n, a), encode_utf8(k)) == Ok::<Option<Seq<char>>, crate::error::ErrKind>(
            Some(a[i].1),
        ),
{
    lemma_find_first(a, k, i);
    assert(read_attrs(a)[i].1 == encode_utf8(xml_escape(a[i].1)));
    assert(xml_unescape(encode_utf8(xml_escape(a[i].1))) == Some(a[i].1));
}

/// The names the writer and the reader share, and the distinctions the
/// parser draws between them.
pub proof fn lemma_names_distinct()
    ensures
        nm("uri") != nm("literal"),
        nm("uri") != nm("bnode"),
        nm("uri") != nm("triple"),
        nm("literal") != nm("bnode"),
        nm("literal") != nm("triple"),
        nm("bnode") != nm("triple"),
        nm("head") != nm("sparql"),
        nm("results") != nm("sparql"),
        nm("results") != nm("head"),
        nm("results") != nm("link"),
        nm("result") != nm("sparql"),
        nm("result") != nm("head"),
        nm("result") != nm("link"),
        nm("result") != nm("results"),
        nm("boolean") != nm("sparql"),
        nm("boolean") != nm("head"),
        nm("boolean") != nm("link"),
        nm("boolean") != nm("results"),
        nm("boolean") != nm("result"),
        nm("variable") != nm("head"),
        nm("variable") != nm("link"),
        nm("variable") != nm("results"),
        nm("head") != nm("link"),
        nm("binding") != nm("result"),
        "xml:lang"@ != "its:dir"@,
        "xml:lang"@ != "xmlns:its"@,
        "xml:lang"@ != "datatype"@,
        "datatype"@ != "its:dir"@,
        "datatype"@ != "xmlns:its"@,
        is_dir_key("its:dir"@),
        !is_dir_key("xml:lang"@),
        !is_dir_key("xmlns:its"@),
        !is_dir_key("datatype"@),
{
    reveal_strlit("uri");
    reveal_strlit("literal");
    reveal_strlit("bnode");
    reveal_strlit("triple");
    reveal_strlit("sparql");
    reveal_strlit("head");
    reveal_strlit("link");
    reveal_strlit("results");
    reveal_strlit("result");
    reveal_strlit("boolean");
    reveal_strlit("variable");
    reveal_strlit("binding");
    reveal_strlit("xml:lang");
    reveal_strlit("its:dir");
    reveal_strlit("xmlns:its");
    reveal_strlit("datatype");
    reveal_strlit("dir");
    reveal_strlit("lang");
    reveal_strlit("its");
    lemma_srx_names();
    lemma_encode_injective("uri"@, "literal"@);
    lemma_encode_injective("uri"@, "bnode"@);
    lemma_encode_injective("uri"@, "triple"@);
    lemma_encode_injective("literal"@, "bnode"@);
    lemma_encode_injective("literal"@, "triple"@);
    lemma_encode_injective("bnode"@, "triple"@);
    lemma_encode_injective("head"@, "sparql"@);
    lemma_encode_injective("results"@, "sparql"@);
    lemma_encode_injective("results"@, "head"@);
    lemma_encode_injective("results"@, "link"@);
    assert("result"@[0] != "sparql"@[0]);
    lemma_encode_injective("result"@, "sparql"@);
    lemma_encode_injective("result"@, "head"@);
    lemma_encode_injective("result"@, "link"@);
    lemma_encode_injective("result"@, "results"@);
    assert("boolean"@[0] != "results"@[0]);
    lemma_encode_injective("boolean"@, "sparql"@);
    lemma_encode_injective("boolean"@, "head"@);
    lemma_encode_injective("boolean"@, "link"@);
    lemma_encode_injective("boolean"@, "results"@);
    lemma_encode_injective("boolean"@, "result"@);
    lemma_encode_injective("variable"@, "head"@);
    lemma_encode_injective("variable"@, "link"@);
    lemma_encode_injective("variable"@, "results"@);
    assert("head"@[0] != "link"@[0]);
    lemma_encode_injective("head"@, "link"@);
    lemma_encode_injective("binding"@, "result"@);
    assert("xml:lang"@[0] != "datatype"@[0]);
    assert("dir"@[0] != "its"@[0]);
    lemma_encode_injective("lang"@, "dir"@);
    lemma_encode_injective("its"@, "dir"@);
    lemma_encode_injective("datatype"@, "dir"@);
}

/// The attributes of a written literal read back as its language,
/// datatype and direction.
pub proof fn lemma_literal_attrs(
    lang: Option<Seq<char>>,
    dir: Option<BaseDirection>,
    datatype: Option<Seq<char>>,
    value: Seq<char>,
    q: int,
)
    requires
        opt_unescapes(lang),
        opt_unescapes(datatype),
        dir matches Some(d) ==> unescapes(direction_token(d)),
    ensures
        literal_of(read_tag("literal"@, literal_attrs(lang, dir, datatype)), value, q) == Parsed::Done(
            Term::Literal { value, lang, datatype, dir },
            q,
        ),
{
    lemma_names_distinct();
    let a = literal_attrs(lang, dir, datatype);
    let t = read_tag("literal"@, a);
    let nl: int = if lang is Some {
        1
    } else {
        0
    };
    let nd: int = if dir is Some {
        2
    } else {
        0
    };
    assert(a.len() == nl + nd + if datatype is Some {
        1int
    } else {
        0int
    });
    assert forall|j: int| nl <= j < a.len() implies #[trigger] a[j].0 != "xml:lang"@ by {
        if dir is Some && j < nl + nd {
            assert(a[j].0 == "its:dir"@ || a[j].0 == "xmlns:its"@);
        } else {
            assert(a[j].0 == "datatype"@);
        }
    }
    match lang {
        Some(l) => {
            lemma_attr_found("literal"@, a, "xml:lang"@, 0);
        },
        None => {
            lemma_find_none(a, "xml:lang"@);
        },
    }
    assert forall|j: int| 0 <= j < nl + nd implies #[trigger] a[j].0 != "datatype"@ by {
        if j < nl {
            assert(a[j].0 == "xml:lang"@);
        } else {
            assert(a[j].0 == "its:dir"@ || a[j].0 == "xmlns:its"@);
        }
    }
    match datatype {
        Some(x) => {
            lemma_attr_found("literal"@, a, "datatype"@, nl + nd);
        },
        None => {
            lemma_find_none(a, "datatype"@);
        },
    }
    assert forall|j: int| 0 <= j < nl implies !is_dir_key(#[trigger] a[j].0) by {
        assert(a[j].0 == "xml:lang"@);
    }
    match dir {
        Some(d) => {
            lemma_find_dir_first(a, nl);
            lemma_direction_token_round_trip(d, direction_token(d));
            assert(read_attrs(a)[nl].1 == encode_utf8(xml_escape(direction_token(d))));
        },
        None => {
            assert forall|j: int| 0 <= j < a.len() implies !is_dir_key(#[trigger] a[j].0) by {
                if j >= nl {
                    assert(a[j].0 == "datatype"@);
                }
            }
            lemma_find_dir_none(a);
        },
    }
}

/// A start tag as a reader reports it.
pub open spec fn read_start(n: Seq<char>, a: Seq<(Seq<char>, Seq<char>)>) -> XEv {
    XEv::Start(read_tag(n, a))
}

/// An end tag as a reader reports it.
pub open spec fn read_end(n: Seq<char>) -> XEv {
    XEv::End(encode_utf8(n))
}

/// An element around the events of a term, as a reader reports it.
pub open spec fn read_wrapped(n: Seq<char>, inner: Seq<XEv>) -> Seq<XEv> {
    seq![read_start(n, seq![])] + inner + seq![read_end(n)]
}

/// The events a reader reports for the written events of a term
/// (`value_outs`): the same tags, and the escaped text as runs of text and
/// entity references.
pub open spec fn read_value(t: Term) -> Seq<XEv>
    decreases t,
{
    match t {
        Term::Uri(s) => read_wrapped("uri"@, text_events(s)),
        Term::BNode(s) => read_wrapped("bnode"@, text_events(s)),
        Term::Literal { value, lang, datatype, dir } => seq![
            read_start("literal"@, literal_attrs(lang, dir, datatype)),
        ] + text_events(value) + seq![read_end("literal"@)],
        Term::Triple { subject, predicate, object } => seq![read_start("triple"@, seq![])] + read_wrapped(
            "subject"@,
            read_value(*subject),
        ) + read_wrapped("predicate"@, read_value(*predicate)) + read_wrapped("object"@, read_value(*object))
            + seq![read_end("triple"@)],
    }
}

/// The text of a written element reads back up to its end tag.
proof fn lemma_read_element_text(es: Seq<XEv>, p: int, first: XEv, s: Seq<char>, n: Seq<char>)
    requires
        at_x(es, p, seq![first] + text_events(s) + seq![read_end(n)]),
        local_name(encode_utf8(n)) == encode_utf8(n),
    ensures
        es[p] == first,
        sx_read_text(es, p + 1, encode_utf8(n), seq![]) == Parsed::Done(
            s,
            p + 1 + text_events(s).len() + 1,
        ),
{
    let w = seq![first] + text_events(s) + seq![read_end(n)];
    assert(w =~= seq![first] + (text_events(s) + seq![XEv::End(encode_utf8(n))]));
    lemma_at_x_split(es, p, seq![first], text_events(s) + seq![XEv::End(encode_utf8(n))]);
    lemma_at_x_index(es, p, seq![first], 0);
    lemma_read_text_events(es, p + 1, s, encode_utf8(n), encode_utf8(n), seq![]);
    assert(seq![] + s =~= s);
}

/// A written component `<name>term</name>` of a triple reads back as the
/// term.
proof fn lemma_read_component(es: Seq<XEv>, p: int, n: Seq<char>, t: Term)
    requires
        term_reads_back(t),
        at_x(es, p, read_wrapped(n, read_value(t))),
        local_name(encode_utf8(n)) == encode_utf8(n),
    ensures
        sx_component(es, p, encode_utf8(n)) == Parsed::Done(t, p + read_value(t).len() + 2),
    decreases t, 3int,
{
    let a = seq![read_start(n, seq![])];
    let rv = read_value(t);
    lemma_at_x_split(es, p, a + rv, seq![read_end(n)]);
    lemma_at_x_split(es, p, a, rv);
    lemma_at_x_index(es, p, a, 0);
    lemma_at_x_index(es, p + 1 + rv.len(), seq![read_end(n)], 0);
    lemma_read_value(es, p + 1, t);
}

/// A written IRI or blank node reads back as itself.
proof fn lemma_read_named(es: Seq<XEv>, p: int, t: Term)
    requires
        at_x(es, p, read_value(t)),
        t is Uri || t is BNode,
    ensures
        sx_value(es, p) == Parsed::Done(t, p + read_value(t).len()),
{
    assert(local_name(encode_utf8("uri"@)) == encode_utf8("uri"@) && local_name(encode_utf8("bnode"@))
        == encode_utf8("bnode"@)) by {
        lemma_srx_names();
    }
    assert(nm("bnode") != nm("uri") && nm("bnode") != nm("literal")) by {
        lemma_names_distinct();
    }
    match t {
        Term::Uri(s) => {
            let first = read_start("uri"@, seq![]);
            lemma_read_element_text(es, p, first, s, "uri"@);
            assert(sx_value_from_start(es, p + 1, read_tag("uri"@, seq![])) == Parsed::Done(
                t,
                p + read_value(t).len(),
            ));
        },
        Term::BNode(s) => {
            let first = read_start("bnode"@, seq![]);
            lemma_read_element_text(es, p, first, s, "bnode"@);
            assert(sx_value_from_start(es, p + 1, read_tag("bnode"@, seq![])) == Parsed::Done(
                t,
                p + read_value(t).len(),
            ));
        },
        _ => {},
    }
}

/// A written literal reads back as itself.
proof fn lemma_read_literal(es: Seq<XEv>, p: int, t: Term)
    requires
        term_reads_back(t),
        at_x(es, p, read_value(t)),
        t is Literal,
    ensures
        sx_value(es, p) == Parsed::Done(t, p + read_value(t).len()),
{
    assert(local_name(encode_utf8("literal"@)) == encode_utf8("literal"@)) by {
        lemma_srx_names();
    }
    assert(nm("literal") != nm("uri")) by {
        lemma_names_distinct();
    }
    if let Term::Literal { value, lang, datatype, dir } = t {
        let tag = read_tag("literal"@, literal_attrs(lang, dir, datatype));
        lemma_read_element_text(es, p, XEv::Start(tag), value, "literal"@);
        let q = p + 1 + text_events(value).len() + 1;
        lemma_literal_attrs(lang, dir, datatype, value, q);
        assert(sx_value_from_start(es, p + 1, tag) == Parsed::Done(t, q));
    }
}

/// A written triple reads back as itself.
proof fn lemma_read_triple(es: Seq<XEv>, p: int, t: Term)
    requires
        term_reads_back(t),
        at_x(es, p, read_value(t)),
        t is Triple,
    ensures
        sx_value(es, p) == Parsed::Done(t, p + read_value(t).len()),
    decreases t, 1int,
{
    if let Term::Triple { subject, predicate, object } = t {
        let a = seq![read_start("triple"@, seq![])];
        let b = read_wrapped("subject"@, read_value(*subject));
        let c = read_wrapped("predicate"@, read_value(*predicate));
        let d = read_wrapped("object"@, read_value(*object));
        let e = seq![read_end("triple"@)];
        lemma_at_x_split(es, p, a + b + c + d, e);
        lemma_at_x_split(es, p, a + b + c, d);
        lemma_at_x_split(es, p, a + b, c);
        lemma_at_x_split(es, p, a, b);
        lemma_at_x_index(es, p, a, 0);
        let q1 = p + 1 + b.len();
        let q2 = q1 + c.len();
        let q3 = q2 + d.len();
        assert(local_name(encode_utf8("subject"@)) == encode_utf8("subject"@)
            && local_name(encode_utf8("predicate"@)) == encode_utf8("predicate"@)
            && local_name(encode_utf8("object"@)) == encode_utf8("object"@)
            && local_name(encode_utf8("triple"@)) == encode_utf8("triple"@)) by {
            lemma_srx_names();
        }
        assert(nm("triple") != nm("uri") && nm("triple") != nm("literal") && nm("triple") != nm("bnode")) by {
            lemma_names_distinct();
        }
        lemma_read_component(es, p + 1, "subject"@, *subject);
        lemma_read_component(es, q1, "predicate"@, *predicate);
        lemma_read_component(es, q2, "object"@, *object);
        lemma_at_x_index(es, q3, e, 0);
        assert(sx_triple(es, p + 1) == Parsed::Done(t, q3 + 1));
        assert(sx_value_from_start(es, p + 1, read_tag("triple"@, seq![])) == sx_triple(es, p + 1));
    }
}

/// The events of a written term read back as the term.
pub proof fn lemma_read_value(es: Seq<XEv>, p: int, t: Term)
    requires
        term_reads_back(t),
        at_x(es, p, read_value(t)),
    ensures
        sx_value(es, p) == Parsed::Done(t, p + read_value(t).len()),
    decreases t, 2int,
{
    if t is Triple {
        lemma_read_triple(es, p, t);
    } else if t is Literal {
        lemma_read_literal(es, p, t);
    } else {
        lemma_read_named(es, p, t);
    }
}

/// The events a reader reports for one written `<binding>`.
pub open spec fn read_binding(b: (Seq<char>, Term)) -> Seq<XEv> {
    seq![read_start("binding"@, seq![("name"@, b.0)])] + read_value(b.1) + seq![read_end("binding"@)]
}

/// The events a reader reports for the written bindings of a row
/// (`binding_outs`).
pub open spec fn read_bindings(e: Seq<(Seq<char>, Term)>) -> Seq<XEv>
    decreases e.len(),
{
    if e.len() == 0 {
        seq![]
    } else {
        read_bindings(e.drop_last()) + read_binding(e.last())
    }
}

/// The events of a row after its start tag.
pub open spec fn read_row_body(e: Seq<(Seq<char>, Term)>) -> Seq<XEv> {
    read_bindings(e) + seq![read_end("result"@)]
}

/// The bindings of a row are its first binding, then the others.
proof fn lemma_bindings_front(e: Seq<(Seq<char>, Term)>)
    requires
        e.len() > 0,
    ensures
        read_bindings(e) == read_binding(e[0]) + read_bindings(e.drop_first()),
    decreases e.len(),
{
    if e.len() == 1 {
        assert(e.drop_last() =~= Seq::<(Seq<char>, Term)>::empty());
        assert(e.drop_first() =~= Seq::<(Seq<char>, Term)>::empty());
        assert(read_bindings(e.drop_last()) == read_bindings(Seq::<(Seq<char>, Term)>::empty()));
        assert(read_bindings(Seq::<(Seq<char>, Term)>::empty()) =~= Seq::<XEv>::empty());
        assert(e.last() == e[0]);
        assert(read_bindings(e) =~= read_binding(e[0]));
        assert(read_bindings(e.drop_first()) =~= Seq::<XEv>::empty());
    } else {
        lemma_bindings_front(e.drop_last());
        assert(e.drop_last().drop_first() =~= e.drop_first().drop_last());
        assert(e.drop_first().last() == e.last());
        assert(e.drop_last()[0] == e[0]);
    }
}

/// The written bindings of a row, then its end tag, read back as its
/// entries when no variable is bound twice.
#[verifier::rlimit(40)]
pub proof fn lemma_read_row_body(es: Seq<XEv>, p: int, e: Seq<(Seq<char>, Term)>, acc: Seq<(Seq<char>, Term)>)
    requires
        entries_read_back(e),
        at_x(es, p, read_bindings(e) + seq![read_end("result"@)]),
        keys_unique(acc + e),
    ensures
        sx_row(es, p, acc) == Parsed::Done(acc + e, p + read_bindings(e).len() + 1),
    decreases e.len(),
{
    assert(local_name(encode_utf8("binding"@)) == encode_utf8("binding"@) && local_name(encode_utf8("result"@))
        == encode_utf8("result"@)) by {
        lemma_srx_names();
    }
    if e.len() == 0 {
        lemma_at_x_index(es, p, read_bindings(e) + seq![read_end("result"@)], 0);
        assert(acc + e =~= acc);
    } else {
        lemma_bindings_front(e);
        let k = e[0].0;
        let v = e[0].1;
        let rest = e.drop_first();
        let first = seq![read_start("binding"@, seq![("name"@, k)])];
        let rv = read_value(v);
        let tail = read_bindings(rest) + seq![read_end("result"@)];
        assert(read_bindings(e) + seq![read_end("result"@)] =~= first + rv + seq![read_end("binding"@)] + tail);
        lemma_at_x_split(es, p, first + rv + seq![read_end("binding"@)], tail);
        lemma_at_x_split(es, p, first + rv, seq![read_end("binding"@)]);
        lemma_at_x_split(es, p, first, rv);
        lemma_at_x_index(es, p, first, 0);
        let q = p + 1 + rv.len();
        lemma_at_x_index(es, q, seq![read_end("binding"@)], 0);
        lemma_attr_found("binding"@, seq![("name"@, k)], "name"@, 0);
        lemma_read_value(es, p + 1, v);
        assert(sx_expect_end(es, q, nm("binding")) == Parsed::Done((), q + 1));
        assert forall|j: int| 0 <= j < acc.len() implies #[trigger] acc[j].0 != k by {
            assert((acc + e)[j] == acc[j]);
            assert((acc + e)[acc.len() as int] == e[0]);
        }
        lemma_key_absent(acc, k, 0);
        assert(entries_insert(acc, k, v) == acc.push((k, v)));
        assert(acc.push((k, v)) + rest =~= acc + e);
        assert(entry_reads_back(e[0]));
        assert(entries_read_back(rest)) by {
            assert forall|j: int| 0 <= j < rest.len() implies entry_reads_back(#[trigger] rest[j]) by {
                assert(rest[j] == e[j + 1]);
            }
        }
        lemma_read_row_body(es, q + 1, rest, acc.push((k, v)));
    }
}

/// When a reader gives back every attribute value written for a literal,
/// it gives back its language, datatype and direction.
pub proof fn lemma_literal_attrs_read_back(lang: Option<Seq<char>>, dir: Option<BaseDirection>, datatype: Option<Seq<char>>)
    requires
        crate::srx::write::attr_values_read_back(literal_attrs(lang, dir, datatype)),
    ensures
        opt_unescapes(lang),
        opt_unescapes(datatype),
        dir matches Some(d) ==> unescapes(direction_token(d)),
{
    let a = literal_attrs(lang, dir, datatype);
    let nl: int = if lang is Some {
        1
    } else {
        0
    };
    let nd: int = if dir is Some {
        2
    } else {
        0
    };
    if let Some(l) = lang {
        assert(a[0].1 == l);
        assert(unescapes(a[0].1));
    }
    if let Some(d) = dir {
        assert(a[nl].1 == direction_token(d));
        assert(unescapes(a[nl].1));
    }
    if let Some(x) = datatype {
        assert(a[nl + nd].1 == x);
        assert(unescapes(a[nl + nd].1));
    }
}

} // verus!
