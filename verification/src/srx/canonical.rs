//! The SRX canonical form: a state machine that re-emits an XML event
//! stream so that semantically equal SRX documents give equal bytes.
//!
//! The XML declaration and comments are dropped; text made only of ASCII
//! white space is dropped; a start tag closed by its end tag with nothing
//! in between becomes an empty-element tag; tags are rebuilt with their
//! attribute values unescaped and written again double-quoted; everything
//! else is written as read.

use vstd::prelude::*;
use vstd::utf8::*;

use crate::error::{error_with, make_error, ErrKind, SparqlResultsError};
use crate::srx::event::{decode_utf8_chars, string_from_chars, xml_unescape, XEv, XTag, XmlEvent, XmlTag};
use crate::srx::write::{attrs_view, encode_event, lemma_outs_concat, outs_bytes, OutTag, XOut, XmlOut};
use crate::text::{append_bytes, bytes_equal};
use crate::srx::fixpoint::outs_read_back;
use crate::srx::write::out_attrs_read_back;

verus! {

broadcast use vstd::utf8::decode_utf8_encode_utf8;

/// ASCII white space (`u8::is_ascii_whitespace`).
pub open spec fn is_ascii_ws(b: u8) -> bool {
    b == 32 || b == 9 || b == 10 || b == 12 || b == 13
}

/// Text made only of ASCII white space.
pub open spec fn all_ascii_ws(b: Seq<u8>) -> bool {
    forall|i: int| 0 <= i < b.len() ==> is_ascii_ws(#[trigger] b[i])
}

/// A tag waiting to be written: its name and attributes.
pub type TagView = (Seq<char>, Seq<(Seq<char>, Seq<char>)>);

/// Raw bytes as text, which must be UTF-8.
pub open spec fn raw_text(b: Seq<u8>) -> Result<Seq<char>, ErrKind> {
    if valid_utf8(b) {
        Ok(decode_utf8(b))
    } else {
        Err(ErrKind::Xml)
    }
}

/// The attributes of a tag rebuilt in order: keys as UTF-8 text, values
/// unescaped; the first attribute that cannot be read is an XML error.
pub open spec fn rebuild_attrs(a: Seq<(Seq<u8>, Seq<u8>)>) -> Result<Seq<(Seq<char>, Seq<char>)>, ErrKind>
    decreases a.len(),
{
    if a.len() == 0 {
        Ok(seq![])
    } else {
        match rebuild_attrs(a.drop_last()) {
            Err(k) => Err(k),
            Ok(acc) => if !valid_utf8(a.last().0) {
                Err(ErrKind::Xml)
            } else {
                match xml_unescape(a.last().1) {
                    Some(v) => Ok(acc.push((decode_utf8(a.last().0), v))),
                    None => Err(ErrKind::Xml),
                }
            },
        }
    }
}

/// A tag rebuilt for writing: its name as UTF-8 text and its attributes;
/// a tag whose attributes could not all be read is an XML error.
pub open spec fn rebuild(t: XTag) -> Result<TagView, ErrKind> {
    if !valid_utf8(t.name) {
        Err(ErrKind::Xml)
    } else {
        match rebuild_attrs(t.attrs) {
            Err(k) => Err(k),
            Ok(a) => if t.malformed {
                Err(ErrKind::Xml)
            } else {
                Ok((decode_utf8(t.name), a))
            },
        }
    }
}

/// The start tag waiting to be written, if any.
pub open spec fn flush(p: Option<TagView>) -> Seq<XOut> {
    match p {
        Some(t) => seq![XOut::Start(t.0, t.1)],
        None => seq![],
    }
}

/// What one event gives: the events to write, then the tag that waits, or
/// an error.
pub struct CanonStep {
    pub outs: Seq<XOut>,
    pub next: Result<Option<TagView>, ErrKind>,
}

/// Writes the pending tag, then a raw event built from `b`.
pub open spec fn flush_then_raw(p: Option<TagView>, b: Seq<u8>, mk: spec_fn(Seq<char>) -> XOut) -> CanonStep {
    match raw_text(b) {
        Ok(t) => CanonStep { outs: flush(p).push(mk(t)), next: Ok(None) },
        Err(k) => CanonStep { outs: flush(p), next: Err(k) },
    }
}

/// One step of the canonicalizer with pending tag `p` on event `e`.
pub open spec fn canon_step(p: Option<TagView>, e: XEv) -> CanonStep {
    match e {
        XEv::Eof => CanonStep { outs: flush(p), next: Ok(None) },
        XEv::Decl(_) => CanonStep { outs: seq![], next: Ok(p) },
        XEv::Comment(_) => CanonStep { outs: seq![], next: Ok(p) },
        XEv::Text(b) => if all_ascii_ws(b) {
            CanonStep { outs: seq![], next: Ok(p) }
        } else {
            flush_then_raw(p, b, |t: Seq<char>| XOut::Text(t))
        },
        XEv::Start(t) => match rebuild(t) {
            Ok(tag) => CanonStep { outs: flush(p), next: Ok(Some(tag)) },
            Err(k) => CanonStep { outs: flush(p), next: Err(k) },
        },
        XEv::End(n) => match p {
            Some(s) => if encode_utf8(s.0) == n {
                CanonStep { outs: seq![XOut::Empty(s.0, s.1)], next: Ok(None) }
            } else {
                flush_then_raw(p, n, |t: Seq<char>| XOut::End(t))
            },
            None => flush_then_raw(p, n, |t: Seq<char>| XOut::End(t)),
        },
        XEv::Empty(t) => match rebuild(t) {
            Ok(tag) => CanonStep { outs: flush(p).push(XOut::Empty(tag.0, tag.1)), next: Ok(None) },
            Err(k) => CanonStep { outs: flush(p), next: Err(k) },
        },
        XEv::CData(b) => flush_then_raw(p, b, |t: Seq<char>| XOut::CData(t)),
        XEv::PI(b) => flush_then_raw(p, b, |t: Seq<char>| XOut::PI(t)),
        XEv::DocType(b) => flush_then_raw(p, b, |t: Seq<char>| XOut::DocType(t)),
        XEv::GeneralRef(b) => flush_then_raw(p, b, |t: Seq<char>| XOut::GeneralRef(t)),
    }
}

pub open spec fn tag_view(t: OutTag) -> TagView {
    (t.name@, attrs_view(t.attrs@))
}

pub open spec fn opt_tag_view(t: Option<OutTag>) -> Option<TagView> {
    match t {
        Some(x) => Some(tag_view(x)),
        None => None,
    }
}

/// Whether the bytes are all ASCII white space.
fn is_blank(b: &[u8]) -> (r: bool)
    ensures
        r == all_ascii_ws(b@),
{
    let mut i: usize = 0;
    while i < b.len()
        invariant
            0 <= i <= b@.len(),
            forall|j: int| 0 <= j < i ==> is_ascii_ws(#[trigger] b@[j]),
        decreases b@.len() - i,
    {
        let c = b[i];
        if !(c == 32 || c == 9 || c == 10 || c == 12 || c == 13) {
            return false;
        }
        i = i + 1;
    }
    true
}

/// Raw bytes as a string.
fn raw_string(b: &[u8]) -> (r: Result<String, SparqlResultsError>)
    ensures
        match raw_text(b@) {
            Ok(t) => r matches Ok(s) && s@ == t,
            Err(k) => r matches Err(e) && e.kind() == k,
        },
{
    match decode_utf8_chars(b) {
        Some(cs) => Ok(string_from_chars(cs.as_slice())),
        None => Err(error_with(ErrKind::Xml, "invalid UTF-8 in XML content")),
    }
}

/// Rebuilds a tag for writing.
fn rebuild_tag(t: &XmlTag) -> (r: Result<OutTag, SparqlResultsError>)
    ensures
        match rebuild(t@) {
            Ok(tag) => r matches Ok(o) && tag_view(o) == tag,
            Err(k) => r matches Err(e) && e.kind() == k,
        },
{
    let name = match decode_utf8_chars(t.name.as_slice()) {
        Some(cs) => string_from_chars(cs.as_slice()),
        None => {
            return Err(error_with(ErrKind::Xml, "invalid UTF-8 in element name"));
        },
    };
    let ghost a = t@.attrs;
    let mut attrs: Vec<(String, String)> = Vec::new();
    let mut i: usize = 0;
    assert(a.subrange(0, 0) =~= Seq::<(Seq<u8>, Seq<u8>)>::empty());
    assert(attrs_view(attrs@) =~= Seq::<(Seq<char>, Seq<char>)>::empty());
    while i < t.attributes.len()
        invariant
            a == t@.attrs,
            0 <= i <= a.len(),
            a.len() == t.attributes@.len(),
            rebuild_attrs(a.subrange(0, i as int)) == Ok::<Seq<(Seq<char>, Seq<char>)>, ErrKind>(attrs_view(attrs@)),
        decreases a.len() - i,
    {
        let ghost sub = a.subrange(0, i + 1);
        assert(sub.drop_last() =~= a.subrange(0, i as int));
        assert(sub.last() == (t.attributes@[i as int].key@, t.attributes@[i as int].value@));
        let key = match decode_utf8_chars(t.attributes[i].key.as_slice()) {
            Some(cs) => string_from_chars(cs.as_slice()),
            None => {
                proof {
                    crate::srx::canonical::lemma_rebuild_attrs_err(a, i as int + 1);
                }
                return Err(error_with(ErrKind::Xml, "invalid UTF-8 in attribute name"));
            },
        };
        let value = match crate::srx::event::unescape_chars(t.attributes[i].value.as_slice()) {
            Some(cs) => string_from_chars(cs.as_slice()),
            None => {
                proof {
                    crate::srx::canonical::lemma_rebuild_attrs_err(a, i as int + 1);
                }
                return Err(error_with(ErrKind::Xml, "invalid attribute value"));
            },
        };
        let ghost before = attrs_view(attrs@);
        attrs.push((key, value));
        assert(attrs_view(attrs@) =~= before.push((key@, value@)));
        i = i + 1;
    }
    assert(a.subrange(0, a.len() as int) =~= a);
    match &t.malformed {
        Some(m) => Err(make_error(ErrKind::Xml, m.clone())),
        None => Ok(OutTag { name, attrs }),
    }
}

/// An error among the first attributes is the error of all of them.
pub proof fn lemma_rebuild_attrs_err(a: Seq<(Seq<u8>, Seq<u8>)>, k: int)
    requires
        0 <= k <= a.len(),
        rebuild_attrs(a.subrange(0, k)) is Err,
    ensures
        rebuild_attrs(a) == rebuild_attrs(a.subrange(0, k)),
    decreases a.len() - k,
{
    if k < a.len() {
        assert(a.subrange(0, k + 1).drop_last() =~= a.subrange(0, k));
        lemma_rebuild_attrs_err(a, k + 1);
    } else {
        assert(a.subrange(0, k) =~= a);
    }
}

/// What one event makes the canonicalizer write, and the error it then
/// stops with, if any.
pub struct CanonOut {
    pub bytes: Vec<u8>,
    pub error: Option<SparqlResultsError>,
}

/// Writes the events of `os`, each through `quick_xml`'s writer.
fn write_outs(out: &mut Vec<u8>, o: XmlOut, Ghost(em): Ghost<Seq<XOut>>)
    requires
        old(out)@ == outs_bytes(em),
    ensures
        final(out)@ == outs_bytes(em.push(o@)),
        out_attrs_read_back(o@),
{
    let b = encode_event(&o);
    append_bytes(out, b.as_slice());
    proof {
        assert(em.push(o@).drop_last() =~= em);
    }
}

/// The SRX canonicalizer: the start tag it holds back until it knows
/// whether the element is empty.
pub struct SrxCanonicalizer {
    pending: Option<OutTag>,
}

impl SrxCanonicalizer {
    /// The tag held back.
    pub closed spec fn pending_view(&self) -> Option<TagView> {
        opt_tag_view(self.pending)
    }

    /// A canonicalizer at the start of a document.
    pub fn new() -> (c: SrxCanonicalizer)
        ensures
            c.pending_view() is None,
    {
        SrxCanonicalizer { pending: None }
    }

    fn flush_into(&mut self, out: &mut Vec<u8>)
        requires
            old(out)@ == Seq::<u8>::empty(),
        ensures
            final(self).pending_view() is None,
            final(out)@ == outs_bytes(flush(old(self).pending_view())),
            outs_read_back(flush(old(self).pending_view())),
    {
        assert(outs_bytes(Seq::<XOut>::empty()) =~= Seq::<u8>::empty());
        match self.pending.take() {
            Some(t) => {
                let ghost tv = tag_view(t);
                write_outs(out, XmlOut::Start(t), Ghost(Seq::<XOut>::empty()));
                assert(Seq::<XOut>::empty().push(XOut::Start(tv.0, tv.1)) =~= flush(old(self).pending_view()));
            },
            None => {},
        }
    }

    /// Writes the held tag, then a raw event built from the bytes.
    fn flush_raw(&mut self, b: &[u8], k: MarkupSlot) -> (r: CanonOut)
        ensures
            final(self).pending_view() is None,
            r.bytes@ == outs_bytes(match raw_text(b@) {
                Ok(t) => flush(old(self).pending_view()).push(slot_out(k, t)),
                Err(_) => flush(old(self).pending_view()),
            }),
            outs_read_back(match raw_text(b@) {
                Ok(t) => flush(old(self).pending_view()).push(slot_out(k, t)),
                Err(_) => flush(old(self).pending_view()),
            }),
            match raw_text(b@) {
                Ok(_) => r.error is None,
                Err(e) => r.error matches Some(err) && err.kind() == e,
            },
    {
        let mut out: Vec<u8> = Vec::new();
        self.flush_into(&mut out);
        let ghost em = flush(old(self).pending_view());
        match raw_string(b) {
            Ok(s) => {
                let o = match k {
                    MarkupSlot::Text => XmlOut::Text(s),
                    MarkupSlot::End => XmlOut::End(s),
                    MarkupSlot::CData => XmlOut::CData(s),
                    MarkupSlot::PI => XmlOut::PI(s),
                    MarkupSlot::DocType => XmlOut::DocType(s),
                    MarkupSlot::GeneralRef => XmlOut::GeneralRef(s),
                };
                write_outs(&mut out, o, Ghost(em));
                CanonOut { bytes: out, error: None }
            },
            Err(e) => CanonOut { bytes: out, error: Some(e) },
        }
    }

    /// One event: the bytes to write, then the error to stop with, if any.
    pub fn step(&mut self, event: &XmlEvent) -> (r: CanonOut)
        ensures
            r.bytes@ == outs_bytes(canon_step(old(self).pending_view(), event@).outs),
            outs_read_back(canon_step(old(self).pending_view(), event@).outs),
            match canon_step(old(self).pending_view(), event@).next {
                Ok(p) => r.error is None && final(self).pending_view() == p,
                Err(k) => r.error matches Some(e) && e.kind() == k,
            },
    {
        let ghost p0 = self.pending_view();
        assert(outs_bytes(Seq::<XOut>::empty()) =~= Seq::<u8>::empty());
        match event {
            XmlEvent::Eof => {
                let mut out: Vec<u8> = Vec::new();
                self.flush_into(&mut out);
                CanonOut { bytes: out, error: None }
            },
            XmlEvent::Decl(_) | XmlEvent::Comment(_) => CanonOut { bytes: Vec::new(), error: None },
            XmlEvent::Text(b) => {
                if is_blank(b.as_slice()) {
                    CanonOut { bytes: Vec::new(), error: None }
                } else {
                    let r = self.flush_raw(b.as_slice(), MarkupSlot::Text);
                    proof {
                        assert(flush_then_raw(p0, b@, |t: Seq<char>| XOut::Text(t)) == canon_step(p0, event@));
                    }
                    r
                }
            },
            XmlEvent::Start(t) => {
                let mut out: Vec<u8> = Vec::new();
                self.flush_into(&mut out);
                match rebuild_tag(t) {
                    Ok(tag) => {
                        self.pending = Some(tag);
                        CanonOut { bytes: out, error: None }
                    },
                    Err(e) => CanonOut { bytes: out, error: Some(e) },
                }
            },
            XmlEvent::End(n) => {
                let same = match &self.pending {
                    Some(s) => bytes_equal(s.name.as_str().as_bytes(), n.as_slice()),
                    None => false,
                };
                if same {
                    let mut out: Vec<u8> = Vec::new();
                    match self.pending.take() {
                        Some(s) => {
                            let ghost sv = tag_view(s);
                            write_outs(&mut out, XmlOut::Empty(s), Ghost(Seq::<XOut>::empty()));
                            assert(Seq::<XOut>::empty().push(XOut::Empty(sv.0, sv.1)) =~= seq![XOut::Empty(sv.0, sv.1)]);
                        },
                        None => {},
                    }
                    CanonOut { bytes: out, error: None }
                } else {
                    self.flush_raw(n.as_slice(), MarkupSlot::End)
                }
            },
            XmlEvent::Empty(t) => {
                let mut out: Vec<u8> = Vec::new();
                self.flush_into(&mut out);
                let ghost em = flush(p0);
                match rebuild_tag(t) {
                    Ok(tag) => {
                        write_outs(&mut out, XmlOut::Empty(tag), Ghost(em));
                        CanonOut { bytes: out, error: None }
                    },
                    Err(e) => CanonOut { bytes: out, error: Some(e) },
                }
            },
            XmlEvent::CData(b) => self.flush_raw(b.as_slice(), MarkupSlot::CData),
            XmlEvent::PI(b) => self.flush_raw(b.as_slice(), MarkupSlot::PI),
            XmlEvent::DocType(b) => self.flush_raw(b.as_slice(), MarkupSlot::DocType),
            XmlEvent::GeneralRef(b) => self.flush_raw(b.as_slice(), MarkupSlot::GeneralRef),
        }
    }
}

/// The raw events that carry text as read.
pub enum MarkupSlot {
    Text,
    End,
    CData,
    PI,
    DocType,
    GeneralRef,
}

pub open spec fn slot_out(k: MarkupSlot, t: Seq<char>) -> XOut {
    match k {
        MarkupSlot::Text => XOut::Text(t),
        MarkupSlot::End => XOut::End(t),
        MarkupSlot::CData => XOut::CData(t),
        MarkupSlot::PI => XOut::PI(t),
        MarkupSlot::DocType => XOut::DocType(t),
        MarkupSlot::GeneralRef => XOut::GeneralRef(t),
    }
}

/// The XML declaration and comments leave no trace: nothing is written
/// and the held tag stays held.
pub proof fn lemma_canon_drops_decl_and_comments(p: Option<TagView>, x: Seq<u8>)
    ensures
        canon_step(p, XEv::Decl(x)) == (CanonStep { outs: seq![], next: Ok(p) }),
        canon_step(p, XEv::Comment(x)) == (CanonStep { outs: seq![], next: Ok(p) }),
{
}

/// Text made only of ASCII white space leaves no trace.
pub proof fn lemma_canon_drops_blank_text(p: Option<TagView>, b: Seq<u8>)
    requires
        all_ascii_ws(b),
    ensures
        canon_step(p, XEv::Text(b)) == (CanonStep { outs: seq![], next: Ok(p) }),
{
}

/// Other text is written as read, byte for byte, after the held tag.
pub proof fn lemma_canon_keeps_text(p: Option<TagView>, b: Seq<u8>)
    requires
        !all_ascii_ws(b),
        valid_utf8(b),
    ensures
        canon_step(p, XEv::Text(b)) == (CanonStep {
            outs: flush(p).push(XOut::Text(decode_utf8(b))),
            next: Ok(None),
        }),
        encode_utf8(decode_utf8(b)) == b,
{
}

/// A start tag closed at once by its end tag writes what the empty-element
/// tag writes, and leaves nothing held, as the empty-element tag does.
pub proof fn lemma_canon_open_close_is_empty(p: Option<TagView>, t: XTag)
    requires
        rebuild(t) is Ok,
    ensures
        ({
            let s1 = canon_step(p, XEv::Start(t));
            let e = canon_step(p, XEv::Empty(t));
            &&& s1.next matches Ok(held)
            &&& s1.outs + canon_step(held, XEv::End(t.name)).outs == e.outs
            &&& canon_step(held, XEv::End(t.name)).next == e.next
        }),
{
    let tag = rebuild(t)->Ok_0;
    assert(encode_utf8(tag.0) == t.name);
    assert(flush(p) + seq![XOut::Empty(tag.0, tag.1)] =~= flush(p).push(XOut::Empty(tag.0, tag.1)));
}

/// What canonicalizing a run of events from held tag `p` writes, and how it
/// ends: with the tag still held, or with the first error, after which
/// nothing more is read.
pub open spec fn canon_run(es: Seq<XEv>, p: Option<TagView>) -> (Seq<XOut>, Result<Option<TagView>, ErrKind>)
    decreases es.len(),
{
    if es.len() == 0 {
        (seq![], Ok(p))
    } else {
        let st = canon_step(p, es[0]);
        match st.next {
            Ok(q) => {
                let rest = canon_run(es.drop_first(), q);
                (st.outs + rest.0, rest.1)
            },
            Err(k) => (st.outs, Err(k)),
        }
    }
}

/// An event that canonicalizing ignores: the declaration, a comment, or
/// text made only of ASCII white space.
pub open spec fn ignorable(e: XEv) -> bool {
    e is Decl || e is Comment || (e matches XEv::Text(b) && all_ascii_ws(b))
}

pub proof fn lemma_run_front(x: XEv, rest: Seq<XEv>, p: Option<TagView>)
    ensures
        canon_run(seq![x] + rest, p) == ({
            let st = canon_step(p, x);
            match st.next {
                Ok(q) => {
                    let r = canon_run(rest, q);
                    (st.outs + r.0, r.1)
                },
                Err(k) => (st.outs, Err(k)),
            }
        }),
{
    assert((seq![x] + rest)[0] == x);
    assert((seq![x] + rest).drop_first() =~= rest);
}

/// Equivalent documents canonicalize alike: a declaration, a comment or
/// blank text anywhere in a document changes nothing that is written, nor
/// how canonicalizing ends.
pub proof fn lemma_canon_ignores(a: Seq<XEv>, e: XEv, b: Seq<XEv>, p: Option<TagView>)
    requires
        ignorable(e),
    ensures
        canon_run(a + seq![e] + b, p) == canon_run(a + b, p),
    decreases a.len(),
{
    if a.len() == 0 {
        assert(a + seq![e] + b =~= seq![e] + b);
        assert(a + b =~= b);
        lemma_run_front(e, b, p);
        let r = canon_run(b, p);
        assert(Seq::<XOut>::empty() + r.0 =~= r.0);
    } else {
        let x = a[0];
        let a2 = a.drop_first();
        assert(a + seq![e] + b =~= seq![x] + (a2 + seq![e] + b));
        assert(a + b =~= seq![x] + (a2 + b));
        lemma_run_front(x, a2 + seq![e] + b, p);
        lemma_run_front(x, a2 + b, p);
        if let Ok(q) = canon_step(p, x).next {
            lemma_canon_ignores(a2, e, b, q);
        }
    }
}

/// Equivalent documents canonicalize alike: an element written as a start
/// tag closed at once by its end tag is written, and ends canonicalizing,
/// as the same element written as an empty-element tag.
pub proof fn lemma_canon_empty_forms(a: Seq<XEv>, t: XTag, b: Seq<XEv>, p: Option<TagView>)
    ensures
        canon_run(a + seq![XEv::Start(t), XEv::End(t.name)] + b, p) == canon_run(a + seq![XEv::Empty(t)] + b, p),
    decreases a.len(),
{
    if a.len() == 0 {
        let long = seq![XEv::Start(t), XEv::End(t.name)] + b;
        assert(a + seq![XEv::Start(t), XEv::End(t.name)] + b =~= seq![XEv::Start(t)] + (seq![XEv::End(t.name)] + b));
        assert(a + seq![XEv::Empty(t)] + b =~= seq![XEv::Empty(t)] + b);
        lemma_run_front(XEv::Start(t), seq![XEv::End(t.name)] + b, p);
        lemma_run_front(XEv::Empty(t), b, p);
        match rebuild(t) {
            Ok(tag) => {
                lemma_canon_open_close_is_empty(p, t);
                lemma_run_front(XEv::End(t.name), b, Some(tag));
                let s1 = canon_step(p, XEv::Start(t));
                let s2 = canon_step(Some(tag), XEv::End(t.name));
                let r = canon_run(b, None);
                assert(s1.outs + (s2.outs + r.0) =~= (s1.outs + s2.outs) + r.0);
            },
            Err(k) => {},
        }
    } else {
        let x = a[0];
        let a2 = a.drop_first();
        assert(a + seq![XEv::Start(t), XEv::End(t.name)] + b =~= seq![x] + (a2 + seq![
            XEv::Start(t),
            XEv::End(t.name),
        ] + b));
        assert(a + seq![XEv::Empty(t)] + b =~= seq![x] + (a2 + seq![XEv::Empty(t)] + b));
        lemma_run_front(x, a2 + seq![XEv::Start(t), XEv::End(t.name)] + b, p);
        lemma_run_front(x, a2 + seq![XEv::Empty(t)] + b, p);
        if let Ok(q) = canon_step(p, x).next {
            lemma_canon_empty_forms(a2, t, b, q);
        }
    }
}

/// Text made only of spaces, tabs, line feeds, form feeds and carriage
/// returns is dropped: nothing is written and the held tag stays held.
pub proof fn lemma_canon_drops_whitespace_bytes(p: Option<TagView>, b: Seq<u8>)
    requires
        forall|i: int| 0 <= i < b.len() ==> (#[trigger] b[i] == 0x20 || b[i] == 0x09 || b[i] == 0x0A || b[i] == 0x0C
            || b[i] == 0x0D),
    ensures
        canon_step(p, XEv::Text(b)) == (CanonStep { outs: seq![], next: Ok(p) }),
{
    assert(all_ascii_ws(b));
}

/// Text with a byte other than a space, tab, line feed, form feed or
/// carriage return is written as read, after the held tag, when it is
/// UTF-8.
pub proof fn lemma_canon_writes_other_text(p: Option<TagView>, b: Seq<u8>, i: int)
    requires
        0 <= i < b.len(),
        !(b[i] == 0x20 || b[i] == 0x09 || b[i] == 0x0A || b[i] == 0x0C || b[i] == 0x0D),
        valid_utf8(b),
    ensures
        canon_step(p, XEv::Text(b)) == (CanonStep {
            outs: flush(p).push(XOut::Text(decode_utf8(b))),
            next: Ok(None),
        }),
        encode_utf8(decode_utf8(b)) == b,
{
    assert(!is_ascii_ws(b[i]));
}

/// Documents that differ only in the bytes of blank text between their
/// events canonicalize alike: replacing a text event of spaces, tabs, line
/// feeds, form feeds and carriage returns by another such text event, or
/// by none, changes nothing that is written.
pub proof fn lemma_canon_blank_forms(a: Seq<XEv>, b1: Seq<u8>, b2: Seq<u8>, rest: Seq<XEv>, p: Option<TagView>)
    requires
        forall|i: int| 0 <= i < b1.len() ==> (#[trigger] b1[i] == 0x20 || b1[i] == 0x09 || b1[i] == 0x0A || b1[i]
            == 0x0C || b1[i] == 0x0D),
        forall|i: int| 0 <= i < b2.len() ==> (#[trigger] b2[i] == 0x20 || b2[i] == 0x09 || b2[i] == 0x0A || b2[i]
            == 0x0C || b2[i] == 0x0D),
    ensures
        canon_run(a + seq![XEv::Text(b1)] + rest, p) == canon_run(a + seq![XEv::Text(b2)] + rest, p),
        canon_run(a + seq![XEv::Text(b1)] + rest, p) == canon_run(a + rest, p),
{
    assert(all_ascii_ws(b1));
    assert(all_ascii_ws(b2));
    lemma_canon_ignores(a, XEv::Text(b1), rest, p);
    lemma_canon_ignores(a, XEv::Text(b2), rest, p);
}

} // verus!
