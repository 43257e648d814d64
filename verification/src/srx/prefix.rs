//! The SRX grammar read over a prefix of a run of events: a parse that
//! completes ends within the run and after its start, and a prefix either
//! needs more events or gives what the whole run gives.

use vstd::prelude::*;

use crate::srj::grammar::Parsed;
use crate::srx::event::{XEv, XTag};
use crate::srx::grammar::{
    sx_component, sx_expect_end, sx_read_text, sx_row, sx_triple, sx_value, sx_value_from_start,
};
use crate::types::Term;

verus! {

/// A completed parse from `p` ends after `p` and within the run.
pub open spec fn ends_within<T>(r: Parsed<T>, p: int, len: int) -> bool {
    r matches Parsed::Done(_, q) ==> p < q <= len
}

/// The parse of a prefix needs more events or agrees with the whole run.
pub open spec fn prefix_agrees<T>(short: Parsed<T>, whole: Parsed<T>) -> bool {
    short is Incomplete || short == whole
}

pub proof fn lemma_end_bound(es: Seq<XEv>, p: int, tag: Seq<u8>)
    ensures
        ends_within(sx_expect_end(es, p, tag), p, es.len() as int),
    decreases es.len() - p,
{
    if 0 <= p < es.len() {
        lemma_end_bound(es, p + 1, tag);
    }
}

pub proof fn lemma_text_bound(es: Seq<XEv>, p: int, tag: Seq<u8>, acc: Seq<char>)
    ensures
        ends_within(sx_read_text(es, p, tag, acc), p, es.len() as int),
    decreases es.len() - p,
{
    if 0 <= p < es.len() {
        match es[p] {
            XEv::Text(b) => lemma_text_bound(es, p + 1, tag, acc + vstd::utf8::decode_utf8(b)),
            XEv::CData(b) => lemma_text_bound(es, p + 1, tag, acc + vstd::utf8::decode_utf8(b)),
            XEv::GeneralRef(b) => lemma_text_bound(
                es,
                p + 1,
                tag,
                acc + crate::srx::text::resolve_entity(vstd::utf8::decode_utf8(b)),
            ),
            _ => lemma_text_bound(es, p + 1, tag, acc),
        }
    }
}

pub proof fn lemma_value_bound(es: Seq<XEv>, p: int)
    ensures
        ends_within(sx_value(es, p), p, es.len() as int),
    decreases es.len() - p, 0int,
{
    if 0 <= p < es.len() {
        match es[p] {
            XEv::Start(t) => lemma_from_start_bound(es, p + 1, t),
            XEv::Text(_) => lemma_value_bound(es, p + 1),
            XEv::Comment(_) => lemma_value_bound(es, p + 1),
            _ => {},
        }
    }
}

pub proof fn lemma_from_start_bound(es: Seq<XEv>, p: int, t: XTag)
    requires
        p >= 1,
    ensures
        ends_within(sx_value_from_start(es, p, t), p - 1, es.len() as int),
    decreases es.len() - p, 3int,
{
    lemma_text_bound(es, p, crate::srx::grammar::nm("uri"), seq![]);
    lemma_text_bound(es, p, crate::srx::grammar::nm("literal"), seq![]);
    lemma_text_bound(es, p, crate::srx::grammar::nm("bnode"), seq![]);
    lemma_triple_bound(es, p);
}

pub proof fn lemma_triple_bound(es: Seq<XEv>, p: int)
    ensures
        ends_within(sx_triple(es, p), p, es.len() as int),
    decreases es.len() - p, 2int,
{
    let subject = crate::srx::grammar::nm("subject");
    let predicate = crate::srx::grammar::nm("predicate");
    let object = crate::srx::grammar::nm("object");
    lemma_component_bound(es, p, subject);
    if let Parsed::Done(_, q1) = sx_component(es, p, subject) {
        if p < q1 <= es.len() {
            lemma_component_bound(es, q1, predicate);
            if let Parsed::Done(_, q2) = sx_component(es, q1, predicate) {
                if q1 < q2 <= es.len() {
                    lemma_component_bound(es, q2, object);
                    if let Parsed::Done(_, q3) = sx_component(es, q2, object) {
                        lemma_end_bound(es, q3, crate::srx::grammar::nm("triple"));
                    }
                }
            }
        }
    }
}

pub proof fn lemma_component_bound(es: Seq<XEv>, p: int, name: Seq<u8>)
    ensures
        ends_within(sx_component(es, p, name), p, es.len() as int),
    decreases es.len() - p, 1int,
{
    if 0 <= p < es.len() {
        match es[p] {
            XEv::Start(t) => {
                lemma_value_bound(es, p + 1);
                if let Parsed::Done(_, q) = sx_value(es, p + 1) {
                    lemma_end_bound(es, q, name);
                }
            },
            XEv::Text(_) => lemma_component_bound(es, p + 1, name),
            XEv::Comment(_) => lemma_component_bound(es, p + 1, name),
            _ => {},
        }
    }
}

pub proof fn lemma_row_bound(es: Seq<XEv>, p: int, e: Seq<(Seq<char>, Term)>)
    ensures
        ends_within(sx_row(es, p, e), p, es.len() as int),
    decreases es.len() - p,
{
    if 0 <= p < es.len() {
        match es[p] {
            XEv::Start(t) => {
                if let Ok(name) = crate::srx::event::required_attr(t, crate::srx::grammar::nm("name")) {
                    if let Parsed::Done(v, q) = sx_value(es, p + 1) {
                        if let Parsed::Done(_, q2) = sx_expect_end(es, q, crate::srx::grammar::nm("binding")) {
                            if p < q2 <= es.len() {
                                lemma_row_bound(es, q2, crate::types::entries_insert(e, name, v));
                            }
                        }
                    }
                }
            },
            XEv::Empty(_) => lemma_row_bound(es, p + 1, e),
            XEv::Text(_) => lemma_row_bound(es, p + 1, e),
            XEv::Comment(_) => lemma_row_bound(es, p + 1, e),
            _ => {},
        }
    }
}

pub proof fn lemma_end_prefix(es: Seq<XEv>, m: int, p: int, tag: Seq<u8>)
    requires
        0 <= m <= es.len(),
    ensures
        prefix_agrees(sx_expect_end(es.take(m), p, tag), sx_expect_end(es, p, tag)),
    decreases m - p,
{
    if 0 <= p < m {
        assert(es.take(m)[p] == es[p]);
        lemma_end_prefix(es, m, p + 1, tag);
    }
}

pub proof fn lemma_text_prefix(es: Seq<XEv>, m: int, p: int, tag: Seq<u8>, acc: Seq<char>)
    requires
        0 <= m <= es.len(),
    ensures
        prefix_agrees(sx_read_text(es.take(m), p, tag, acc), sx_read_text(es, p, tag, acc)),
    decreases m - p,
{
    if 0 <= p < m {
        assert(es.take(m)[p] == es[p]);
        match es[p] {
            XEv::Text(b) => lemma_text_prefix(es, m, p + 1, tag, acc + vstd::utf8::decode_utf8(b)),
            XEv::CData(b) => lemma_text_prefix(es, m, p + 1, tag, acc + vstd::utf8::decode_utf8(b)),
            XEv::GeneralRef(b) => lemma_text_prefix(
                es,
                m,
                p + 1,
                tag,
                acc + crate::srx::text::resolve_entity(vstd::utf8::decode_utf8(b)),
            ),
            _ => lemma_text_prefix(es, m, p + 1, tag, acc),
        }
    }
}

pub proof fn lemma_value_prefix(es: Seq<XEv>, m: int, p: int)
    requires
        0 <= m <= es.len(),
    ensures
        prefix_agrees(sx_value(es.take(m), p), sx_value(es, p)),
    decreases m - p + 1, 0int,
{
    if 0 <= p < m {
        assert(es.take(m)[p] == es[p]);
        match es[p] {
            XEv::Start(t) => lemma_from_start_prefix(es, m, p + 1, t),
            XEv::Text(_) => lemma_value_prefix(es, m, p + 1),
            XEv::Comment(_) => lemma_value_prefix(es, m, p + 1),
            _ => {},
        }
    }
}

pub proof fn lemma_from_start_prefix(es: Seq<XEv>, m: int, p: int, t: XTag)
    requires
        0 <= m <= es.len(),
        p >= 1,
    ensures
        prefix_agrees(sx_value_from_start(es.take(m), p, t), sx_value_from_start(es, p, t)),
    decreases m - p + 1, 3int,
{
    lemma_text_prefix(es, m, p, crate::srx::grammar::nm("uri"), seq![]);
    lemma_text_prefix(es, m, p, crate::srx::grammar::nm("literal"), seq![]);
    lemma_text_prefix(es, m, p, crate::srx::grammar::nm("bnode"), seq![]);
    if p <= m {
        lemma_triple_prefix(es, m, p);
    } else {
        lemma_triple_bound(es.take(m), p);
        lemma_component_bound(es.take(m), p, crate::srx::grammar::nm("subject"));
    }
}

pub proof fn lemma_triple_prefix(es: Seq<XEv>, m: int, p: int)
    requires
        0 <= m <= es.len(),
        p <= m,
    ensures
        prefix_agrees(sx_triple(es.take(m), p), sx_triple(es, p)),
    decreases m - p, 2int,
{
    let short = es.take(m);
    let subject = crate::srx::grammar::nm("subject");
    let predicate = crate::srx::grammar::nm("predicate");
    let object = crate::srx::grammar::nm("object");
    lemma_component_prefix(es, m, p, subject);
    lemma_component_bound(short, p, subject);
    lemma_component_bound(es, p, subject);
    if let Parsed::Done(_, q1) = sx_component(short, p, subject) {
        lemma_component_prefix(es, m, q1, predicate);
        lemma_component_bound(short, q1, predicate);
        lemma_component_bound(es, q1, predicate);
        if let Parsed::Done(_, q2) = sx_component(short, q1, predicate) {
            lemma_component_prefix(es, m, q2, object);
            lemma_component_bound(short, q2, object);
            if let Parsed::Done(_, q3) = sx_component(short, q2, object) {
                lemma_end_prefix(es, m, q3, crate::srx::grammar::nm("triple"));
            }
        }
    }
}

pub proof fn lemma_component_prefix(es: Seq<XEv>, m: int, p: int, name: Seq<u8>)
    requires
        0 <= m <= es.len(),
    ensures
        prefix_agrees(sx_component(es.take(m), p, name), sx_component(es, p, name)),
    decreases m - p, 1int,
{
    if 0 <= p < m {
        assert(es.take(m)[p] == es[p]);
        match es[p] {
            XEv::Start(t) => {
                lemma_value_prefix(es, m, p + 1);
                if let Parsed::Done(_, q) = sx_value(es.take(m), p + 1) {
                    lemma_end_prefix(es, m, q, name);
                }
            },
            XEv::Text(_) => lemma_component_prefix(es, m, p + 1, name),
            XEv::Comment(_) => lemma_component_prefix(es, m, p + 1, name),
            _ => {},
        }
    }
}

pub proof fn lemma_row_prefix(es: Seq<XEv>, m: int, p: int, e: Seq<(Seq<char>, Term)>)
    requires
        0 <= m <= es.len(),
    ensures
        prefix_agrees(sx_row(es.take(m), p, e), sx_row(es, p, e)),
    decreases m - p,
{
    let short = es.take(m);
    if 0 <= p < m {
        assert(short[p] == es[p]);
        match es[p] {
            XEv::Start(t) => {
                if let Ok(name) = crate::srx::event::required_attr(t, crate::srx::grammar::nm("name")) {
                    lemma_value_prefix(es, m, p + 1);
                    lemma_value_bound(short, p + 1);
                    if let Parsed::Done(v, q) = sx_value(short, p + 1) {
                        lemma_end_prefix(es, m, q, crate::srx::grammar::nm("binding"));
                        lemma_end_bound(short, q, crate::srx::grammar::nm("binding"));
                        if let Parsed::Done(_, q2) = sx_expect_end(short, q, crate::srx::grammar::nm("binding")) {
                            lemma_row_prefix(es, m, q2, crate::types::entries_insert(e, name, v));
                        }
                    }
                }
            },
            XEv::Empty(_) => lemma_row_prefix(es, m, p + 1, e),
            XEv::Text(_) => lemma_row_prefix(es, m, p + 1, e),
            XEv::Comment(_) => lemma_row_prefix(es, m, p + 1, e),
            _ => {},
        }
    }
}

/// Text and comments before a binding's value element are skipped: the
/// value read from a text or comment event is the value read from the next
/// event.
pub proof fn lemma_value_skips_text(es: Seq<XEv>, p: int)
    requires
        0 <= p < es.len(),
        es[p] is Text || es[p] is Comment,
    ensures
        sx_value(es, p) == sx_value(es, p + 1),
{
}

/// Text and comments before a triple component are skipped.
pub proof fn lemma_component_skips_text(es: Seq<XEv>, p: int, name: Seq<u8>)
    requires
        0 <= p < es.len(),
        es[p] is Text || es[p] is Comment,
    ensures
        sx_component(es, p, name) == sx_component(es, p + 1, name),
{
}

/// Text and comments between the bindings of a row are skipped.
pub proof fn lemma_row_skips_text(es: Seq<XEv>, p: int, e: Seq<(Seq<char>, Term)>)
    requires
        0 <= p < es.len(),
        es[p] is Text || es[p] is Comment,
    ensures
        sx_row(es, p, e) == sx_row(es, p + 1, e),
{
}

} // verus!
