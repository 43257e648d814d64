//! The SRX grammar of a `<result>` row over a run of XML events, and the
//! parsers that follow it.
//!
//! Each function reads events from position `p` and yields the value with
//! the position after it, an error kind, or `Incomplete` when it needs an
//! event beyond the end of the run.

use vstd::prelude::*;
use vstd::utf8::*;

use crate::error::{error_with, make_error, ErrKind, SparqlResultsError};
use crate::messages::{event_message, prefixed_bytes_message};
use crate::srj::document::{agrees, Progress};
use crate::srj::grammar::{fail_as, Parsed};
use crate::srx::event::{
    decode_utf8_chars, evs, local_name, local_name_is, optional_attr, optional_attr_of, optional_dir,
    optional_dir_of, required_attr, required_attr_of, string_from_chars, XEv, XTag, XmlEvent, XmlTag,
};
use crate::srx::text::{push_entity, resolve_entity};
use crate::types::{
    binding_entries, entries_insert, insert_binding, new_bindings, opt_text, ResultRow, ResultValue, Term,
};

verus! {

/// The UTF-8 bytes of a fixed name.
pub open spec fn nm(s: &str) -> Seq<u8> {
    encode_utf8(s@)
}

/// Skips to the end tag whose local name is `tag`.
pub open spec fn sx_expect_end(es: Seq<XEv>, p: int, tag: Seq<u8>) -> Parsed<()>
    decreases es.len() - p,
{
    if p < 0 || p >= es.len() {
        Parsed::Incomplete
    } else {
        match es[p] {
            XEv::End(n) => if local_name(n) == tag {
                Parsed::Done((), p + 1)
            } else {
                sx_expect_end(es, p + 1, tag)
            },
            XEv::Eof => Parsed::Failed(ErrKind::MissingElement),
            _ => sx_expect_end(es, p + 1, tag),
        }
    }
}

/// Reads the text content of an element up to its end tag `tag`: text and
/// CDATA as UTF-8, entity references resolved; any other end tag is
/// unexpected; other events are skipped.
pub open spec fn sx_read_text(es: Seq<XEv>, p: int, tag: Seq<u8>, acc: Seq<char>) -> Parsed<Seq<char>>
    decreases es.len() - p,
{
    if p < 0 || p >= es.len() {
        Parsed::Incomplete
    } else {
        match es[p] {
            XEv::Text(b) => if valid_utf8(b) {
                sx_read_text(es, p + 1, tag, acc + decode_utf8(b))
            } else {
                Parsed::Failed(ErrKind::Xml)
            },
            XEv::CData(b) => if valid_utf8(b) {
                sx_read_text(es, p + 1, tag, acc + decode_utf8(b))
            } else {
                Parsed::Failed(ErrKind::Xml)
            },
            XEv::GeneralRef(b) => if valid_utf8(b) {
                sx_read_text(es, p + 1, tag, acc + resolve_entity(decode_utf8(b)))
            } else {
                Parsed::Failed(ErrKind::Xml)
            },
            XEv::End(n) => if local_name(n) == tag {
                Parsed::Done(acc, p + 1)
            } else {
                Parsed::Failed(ErrKind::UnexpectedElement)
            },
            XEv::Eof => Parsed::Failed(ErrKind::MissingElement),
            _ => sx_read_text(es, p + 1, tag, acc),
        }
    }
}

/// The literal of a tag's attributes with the given text.
pub open spec fn literal_of(t: XTag, value: Seq<char>, q: int) -> Parsed<Term> {
    match optional_attr(t, nm("xml:lang")) {
        Err(k) => Parsed::Failed(k),
        Ok(lang) => match optional_attr(t, nm("datatype")) {
            Err(k) => Parsed::Failed(k),
            Ok(datatype) => match optional_dir(t) {
                Err(k) => Parsed::Failed(k),
                Ok(dir) => Parsed::Done(Term::Literal { value, lang, datatype, dir }, q),
            },
        },
    }
}

/// A binding value: the first element, skipping text and comments; an
/// empty `<literal/>` is the empty literal.
pub open spec fn sx_value(es: Seq<XEv>, p: int) -> Parsed<Term>
    decreases es.len() - p, 0int,
{
    if p < 0 || p >= es.len() {
        Parsed::Incomplete
    } else {
        match es[p] {
            XEv::Start(t) => sx_value_from_start(es, p + 1, t),
            XEv::Empty(t) => if local_name(t.name) == nm("literal") {
                literal_of(t, seq![], p + 1)
            } else {
                Parsed::Failed(ErrKind::UnexpectedElement)
            },
            XEv::Text(_) => sx_value(es, p + 1),
            XEv::Comment(_) => sx_value(es, p + 1),
            XEv::Eof => Parsed::Failed(ErrKind::MissingElement),
            _ => Parsed::Failed(ErrKind::UnexpectedElement),
        }
    }
}

/// The value of an element whose start tag `t` has been read.
pub open spec fn sx_value_from_start(es: Seq<XEv>, p: int, t: XTag) -> Parsed<Term>
    decreases es.len() - p, 3int,
{
    let n = local_name(t.name);
    if n == nm("uri") {
        match sx_read_text(es, p, nm("uri"), seq![]) {
            Parsed::Done(s, q) => Parsed::Done(Term::Uri(s), q),
            r => fail_as(r),
        }
    } else if n == nm("literal") {
        match sx_read_text(es, p, nm("literal"), seq![]) {
            Parsed::Done(s, q) => literal_of(t, s, q),
            r => fail_as(r),
        }
    } else if n == nm("bnode") {
        match sx_read_text(es, p, nm("bnode"), seq![]) {
            Parsed::Done(s, q) => Parsed::Done(Term::BNode(s), q),
            r => fail_as(r),
        }
    } else if n == nm("triple") {
        sx_triple(es, p)
    } else {
        Parsed::Failed(ErrKind::UnexpectedElement)
    }
}

/// The three components of a `<triple>` whose start tag has been read,
/// then its end tag.
pub open spec fn sx_triple(es: Seq<XEv>, p: int) -> Parsed<Term>
    decreases es.len() - p, 2int,
{
    match sx_component(es, p, nm("subject")) {
        Parsed::Done(s, q1) => if q1 <= p || q1 > es.len() {
            Parsed::Failed(ErrKind::Xml)
        } else {
            match sx_component(es, q1, nm("predicate")) {
                Parsed::Done(pr, q2) => if q2 <= q1 || q2 > es.len() {
                    Parsed::Failed(ErrKind::Xml)
                } else {
                    match sx_component(es, q2, nm("object")) {
                        Parsed::Done(o, q3) => match sx_expect_end(es, q3, nm("triple")) {
                            Parsed::Done(_, q4) => Parsed::Done(
                                Term::Triple { subject: Box::new(s), predicate: Box::new(pr), object: Box::new(o) },
                                q4,
                            ),
                            r => fail_as(r),
                        },
                        r => fail_as(r),
                    }
                },
                r => fail_as(r),
            }
        },
        r => fail_as(r),
    }
}

/// One component `<name>value</name>` of a triple, skipping text and
/// comments before it.
pub open spec fn sx_component(es: Seq<XEv>, p: int, name: Seq<u8>) -> Parsed<Term>
    decreases es.len() - p, 1int,
{
    if p < 0 || p >= es.len() {
        Parsed::Incomplete
    } else {
        match es[p] {
            XEv::Start(t) => if local_name(t.name) == name {
                match sx_value(es, p + 1) {
                    Parsed::Done(v, q) => match sx_expect_end(es, q, name) {
                        Parsed::Done(_, q2) => Parsed::Done(v, q2),
                        r => fail_as(r),
                    },
                    r => fail_as(r),
                }
            } else {
                Parsed::Failed(ErrKind::UnexpectedElement)
            },
            XEv::Text(_) => sx_component(es, p + 1, name),
            XEv::Comment(_) => sx_component(es, p + 1, name),
            XEv::Eof => Parsed::Failed(ErrKind::MissingElement),
            _ => Parsed::Failed(ErrKind::UnexpectedElement),
        }
    }
}

/// The bindings of a `<result>` whose start tag has been read, up to its
/// end tag; a later binding of a variable replaces an earlier one.
pub open spec fn sx_row(es: Seq<XEv>, p: int, e: Seq<(Seq<char>, Term)>) -> Parsed<Seq<(Seq<char>, Term)>>
    decreases es.len() - p,
{
    if p < 0 || p >= es.len() {
        Parsed::Incomplete
    } else {
        match es[p] {
            XEv::Start(t) => if local_name(t.name) == nm("binding") {
                match required_attr(t, nm("name")) {
                    Err(k) => Parsed::Failed(k),
                    Ok(name) => match sx_value(es, p + 1) {
                        Parsed::Done(v, q) => match sx_expect_end(es, q, nm("binding")) {
                            Parsed::Done(_, q2) => if q2 <= p || q2 > es.len() {
                                Parsed::Failed(ErrKind::Xml)
                            } else {
                                sx_row(es, q2, entries_insert(e, name, v))
                            },
                            r => fail_as(r),
                        },
                        r => fail_as(r),
                    },
                }
            } else {
                Parsed::Failed(ErrKind::UnexpectedElement)
            },
            XEv::Empty(t) => if local_name(t.name) == nm("binding") {
                sx_row(es, p + 1, e)
            } else {
                Parsed::Failed(ErrKind::UnexpectedElement)
            },
            XEv::End(n) => if local_name(n) == nm("result") {
                Parsed::Done(e, p + 1)
            } else {
                Parsed::Failed(ErrKind::UnexpectedElement)
            },
            XEv::Text(_) => sx_row(es, p + 1, e),
            XEv::Comment(_) => sx_row(es, p + 1, e),
            XEv::Eof => Parsed::Failed(ErrKind::MissingElement),
            _ => Parsed::Failed(ErrKind::UnexpectedElement),
        }
    }
}

/// A `Done` outcome ends strictly after `p` and within the events.
pub open spec fn advances_in<T>(r: Progress<T>, p: int, len: int) -> bool {
    r matches Progress::Done(_, q) ==> p < q <= len
}

pub fn expect_end(es: &[XmlEvent], p: usize, tag: &str) -> (r: Progress<()>)
    requires
        p <= es@.len(),
    ensures
        agrees(r, sx_expect_end(evs(es@), p as int, nm(tag)), (|u: ()| u)),
        advances_in(r, p as int, es@.len() as int),
{
    let ghost e = evs(es@);
    let mut i: usize = p;
    while i < es.len()
        invariant
            e == evs(es@),
            p <= i <= es@.len(),
            sx_expect_end(e, p as int, nm(tag)) == sx_expect_end(e, i as int, nm(tag)),
        decreases es@.len() - i,
    {
        assert(e[i as int] == es@[i as int]@);
        match &es[i] {
            XmlEvent::End(n) => {
                if local_name_is(n.as_slice(), tag) {
                    return Progress::Done((), i + 1);
                }
            },
            XmlEvent::Eof => {
                return Progress::Failed(
                    make_error(ErrKind::MissingElement, prefixed_bytes_message("closing SRX ", tag.as_bytes())),
                );
            },
            _ => {},
        }
        i = i + 1;
    }
    Progress::Incomplete
}

/// Appends characters.
pub fn append_chars(out: &mut Vec<char>, s: &[char])
    ensures
        final(out)@ == old(out)@ + s@,
{
    let mut i: usize = 0;
    while i < s.len()
        invariant
            0 <= i <= s@.len(),
            out@ == old(out)@ + s@.subrange(0, i as int),
        decreases s@.len() - i,
    {
        out.push(s[i]);
        i = i + 1;
        assert(s@.subrange(0, i as int) =~= s@.subrange(0, i - 1).push(s@[i - 1]));
    }
    assert(s@.subrange(0, s@.len() as int) =~= s@);
}

pub fn read_text(es: &[XmlEvent], p: usize, tag: &str) -> (r: Progress<Vec<char>>)
    requires
        p <= es@.len(),
    ensures
        agrees(r, sx_read_text(evs(es@), p as int, nm(tag), seq![]), (|v: Vec<char>| v@)),
        advances_in(r, p as int, es@.len() as int),
{
    let ghost e = evs(es@);
    let mut acc: Vec<char> = Vec::new();
    let mut i: usize = p;
    while i < es.len()
        invariant
            e == evs(es@),
            p <= i <= es@.len(),
            sx_read_text(e, p as int, nm(tag), seq![]) == sx_read_text(e, i as int, nm(tag), acc@),
        decreases es@.len() - i,
    {
        assert(e[i as int] == es@[i as int]@);
        match &es[i] {
            XmlEvent::Text(b) | XmlEvent::CData(b) => {
                match decode_utf8_chars(b.as_slice()) {
                    Some(cs) => {
                        append_chars(&mut acc, cs.as_slice());
                    },
                    None => {
                        return Progress::Failed(error_with(ErrKind::Xml, "invalid UTF-8 in SRX text"));
                    },
                }
            },
            XmlEvent::GeneralRef(b) => {
                match decode_utf8_chars(b.as_slice()) {
                    Some(cs) => {
                        push_entity(&mut acc, cs.as_slice());
                    },
                    None => {
                        return Progress::Failed(error_with(ErrKind::Xml, "invalid UTF-8 in SRX entity reference"));
                    },
                }
            },
            XmlEvent::End(n) => {
                if local_name_is(n.as_slice(), tag) {
                    return Progress::Done(acc, i + 1);
                } else {
                    return Progress::Failed(
                        make_error(
                            ErrKind::UnexpectedElement,
                            prefixed_bytes_message("unexpected SRX closing tag while reading ", tag.as_bytes()),
                        ),
                    );
                }
            },
            XmlEvent::Eof => {
                return Progress::Failed(
                    make_error(ErrKind::MissingElement, prefixed_bytes_message("closing SRX ", tag.as_bytes())),
                );
            },
            _ => {},
        }
        i = i + 1;
    }
    Progress::Incomplete
}

/// The literal with this text and the attributes of `t`.
fn literal_from(t: &XmlTag, value: Vec<char>, q: usize) -> (r: Progress<ResultValue>)
    ensures
        agrees(r, literal_of(t@, value@, q as int), (|v: ResultValue| v@)),
        r matches Progress::Done(_, q2) ==> q2 == q,
{
    let lang = match optional_attr_of(t, "xml:lang") {
        Ok(l) => l,
        Err(e) => {
            return Progress::Failed(e);
        },
    };
    let datatype = match optional_attr_of(t, "datatype") {
        Ok(d) => d,
        Err(e) => {
            return Progress::Failed(e);
        },
    };
    let dir = match optional_dir_of(t) {
        Ok(d) => d,
        Err(e) => {
            return Progress::Failed(e);
        },
    };
    let v = ResultValue::Literal { value: string_from_chars(value.as_slice()), lang, datatype, dir };
    Progress::Done(v, q)
}

pub fn parse_value(es: &[XmlEvent], p: usize) -> (r: Progress<ResultValue>)
    requires
        p <= es@.len(),
    ensures
        agrees(r, sx_value(evs(es@), p as int), (|v: ResultValue| v@)),
        advances_in(r, p as int, es@.len() as int),
    decreases es@.len() - p, 0int,
{
    let ghost e = evs(es@);
    if p >= es.len() {
        return Progress::Incomplete;
    }
    assert(e[p as int] == es@[p as int]@);
    match &es[p] {
        XmlEvent::Start(t) => value_from_start(es, p + 1, t),
        XmlEvent::Empty(t) => {
            if local_name_is(t.name.as_slice(), "literal") {
                literal_from(t, Vec::new(), p + 1)
            } else {
                Progress::Failed(make_error(ErrKind::UnexpectedElement, event_message(&es[p])))
            }
        },
        XmlEvent::Text(_) | XmlEvent::Comment(_) => parse_value(es, p + 1),
        XmlEvent::Eof => Progress::Failed(error_with(ErrKind::MissingElement, "SRX binding value")),
        _ => Progress::Failed(make_error(ErrKind::UnexpectedElement, event_message(&es[p]))),
    }
}

fn value_from_start(es: &[XmlEvent], p: usize, t: &XmlTag) -> (r: Progress<ResultValue>)
    requires
        p <= es@.len(),
    ensures
        agrees(r, sx_value_from_start(evs(es@), p as int, t@), (|v: ResultValue| v@)),
        advances_in(r, p as int, es@.len() as int),
    decreases es@.len() - p, 3int,
{
    if local_name_is(t.name.as_slice(), "uri") {
        match read_text(es, p, "uri") {
            Progress::Done(s, q) => Progress::Done(ResultValue::Uri(string_from_chars(s.as_slice())), q),
            Progress::Failed(e) => Progress::Failed(e),
            Progress::Incomplete => Progress::Incomplete,
        }
    } else if local_name_is(t.name.as_slice(), "literal") {
        match read_text(es, p, "literal") {
            Progress::Done(s, q) => literal_from(t, s, q),
            Progress::Failed(e) => Progress::Failed(e),
            Progress::Incomplete => Progress::Incomplete,
        }
    } else if local_name_is(t.name.as_slice(), "bnode") {
        match read_text(es, p, "bnode") {
            Progress::Done(s, q) => Progress::Done(ResultValue::BNode(string_from_chars(s.as_slice())), q),
            Progress::Failed(e) => Progress::Failed(e),
            Progress::Incomplete => Progress::Incomplete,
        }
    } else if local_name_is(t.name.as_slice(), "triple") {
        parse_triple(es, p)
    } else {
        Progress::Failed(make_error(ErrKind::UnexpectedElement, prefixed_bytes_message("", t.name.as_slice())))
    }
}

fn parse_triple(es: &[XmlEvent], p: usize) -> (r: Progress<ResultValue>)
    requires
        p <= es@.len(),
    ensures
        agrees(r, sx_triple(evs(es@), p as int), (|v: ResultValue| v@)),
        advances_in(r, p as int, es@.len() as int),
    decreases es@.len() - p, 2int,
{
    let (s, q1) = match parse_component(es, p, "subject") {
        Progress::Done(v, q) => (v, q),
        Progress::Failed(e) => {
            return Progress::Failed(e);
        },
        Progress::Incomplete => {
            return Progress::Incomplete;
        },
    };
    let (pr, q2) = match parse_component(es, q1, "predicate") {
        Progress::Done(v, q) => (v, q),
        Progress::Failed(e) => {
            return Progress::Failed(e);
        },
        Progress::Incomplete => {
            return Progress::Incomplete;
        },
    };
    let (o, q3) = match parse_component(es, q2, "object") {
        Progress::Done(v, q) => (v, q),
        Progress::Failed(e) => {
            return Progress::Failed(e);
        },
        Progress::Incomplete => {
            return Progress::Incomplete;
        },
    };
    match expect_end(es, q3, "triple") {
        Progress::Done(_, q4) => Progress::Done(
            ResultValue::Triple { subject: Box::new(s), predicate: Box::new(pr), object: Box::new(o) },
            q4,
        ),
        Progress::Failed(e) => Progress::Failed(e),
        Progress::Incomplete => Progress::Incomplete,
    }
}

fn parse_component(es: &[XmlEvent], p: usize, name: &str) -> (r: Progress<ResultValue>)
    requires
        p <= es@.len(),
    ensures
        agrees(r, sx_component(evs(es@), p as int, nm(name)), (|v: ResultValue| v@)),
        advances_in(r, p as int, es@.len() as int),
    decreases es@.len() - p, 1int,
{
    let ghost e = evs(es@);
    if p >= es.len() {
        return Progress::Incomplete;
    }
    assert(e[p as int] == es@[p as int]@);
    match &es[p] {
        XmlEvent::Start(t) => {
            if local_name_is(t.name.as_slice(), name) {
                match parse_value(es, p + 1) {
                    Progress::Done(v, q) => match expect_end(es, q, name) {
                        Progress::Done(_, q2) => Progress::Done(v, q2),
                        Progress::Failed(e) => Progress::Failed(e),
                        Progress::Incomplete => Progress::Incomplete,
                    },
                    Progress::Failed(e) => Progress::Failed(e),
                    Progress::Incomplete => Progress::Incomplete,
                }
            } else {
                Progress::Failed(make_error(ErrKind::UnexpectedElement, event_message(&es[p])))
            }
        },
        XmlEvent::Text(_) | XmlEvent::Comment(_) => parse_component(es, p + 1, name),
        XmlEvent::Eof => Progress::Failed(
            make_error(ErrKind::MissingElement, prefixed_bytes_message("SRX triple component ", name.as_bytes())),
        ),
        _ => Progress::Failed(make_error(ErrKind::UnexpectedElement, event_message(&es[p]))),
    }
}

/// Parses the bindings of a `<result>` whose start tag has been read.
pub fn parse_row(es: &[XmlEvent], p: usize) -> (r: Progress<ResultRow>)
    requires
        p <= es@.len(),
    ensures
        agrees(r, sx_row(evs(es@), p as int, seq![]), (|row: ResultRow| row.entries())),
        advances_in(r, p as int, es@.len() as int),
{
    let ghost e = evs(es@);
    let mut bindings = new_bindings();
    let mut i: usize = p;
    while i < es.len()
        invariant
            e == evs(es@),
            p <= i <= es@.len(),
            sx_row(e, p as int, seq![]) == sx_row(e, i as int, binding_entries(bindings)),
        decreases es@.len() - i,
    {
        assert(e[i as int] == es@[i as int]@);
        match &es[i] {
            XmlEvent::Start(t) => {
                if local_name_is(t.name.as_slice(), "binding") {
                    let name = match required_attr_of(t, "name") {
                        Ok(n) => n,
                        Err(err) => {
                            return Progress::Failed(err);
                        },
                    };
                    let (v, q) = match parse_value(es, i + 1) {
                        Progress::Done(v, q) => (v, q),
                        Progress::Failed(err) => {
                            return Progress::Failed(err);
                        },
                        Progress::Incomplete => {
                            return Progress::Incomplete;
                        },
                    };
                    let q2 = match expect_end(es, q, "binding") {
                        Progress::Done(_, q2) => q2,
                        Progress::Failed(err) => {
                            return Progress::Failed(err);
                        },
                        Progress::Incomplete => {
                            return Progress::Incomplete;
                        },
                    };
                    insert_binding(&mut bindings, name, v);
                    i = q2;
                } else {
                    return Progress::Failed(make_error(ErrKind::UnexpectedElement, event_message(&es[i])));
                }
            },
            XmlEvent::Empty(t) => {
                if local_name_is(t.name.as_slice(), "binding") {
                    i = i + 1;
                } else {
                    return Progress::Failed(make_error(ErrKind::UnexpectedElement, event_message(&es[i])));
                }
            },
            XmlEvent::End(n) => {
                if local_name_is(n.as_slice(), "result") {
                    return Progress::Done(ResultRow { bindings }, i + 1);
                } else {
                    return Progress::Failed(make_error(ErrKind::UnexpectedElement, event_message(&es[i])));
                }
            },
            XmlEvent::Text(_) | XmlEvent::Comment(_) => {
                i = i + 1;
            },
            XmlEvent::Eof => {
                return Progress::Failed(error_with(ErrKind::MissingElement, "closing SRX result"));
            },
            _ => {
                return Progress::Failed(make_error(ErrKind::UnexpectedElement, event_message(&es[i])));
            },
        }
    }
    Progress::Incomplete
}

} // verus!
