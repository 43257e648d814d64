//! The canonical form is a fixed point: canonicalizing the events that a
//! reader reports for a canonical document writes that document again.
//!
//! The reader is modelled event for event: each written event is read back
//! as one event, with its tag's attribute values escaped as they were
//! written.

use vstd::prelude::*;
use vstd::utf8::*;

use crate::error::ErrKind;
use crate::srx::canonical::{
    all_ascii_ws, canon_run, canon_step, flush, lemma_run_front, raw_text, rebuild, rebuild_attrs, TagView,
};
use crate::srx::event::{xml_unescape, XEv};
use crate::srx::readback::{lemma_encode_injective, read_attrs, read_tag, unescapes};
use crate::srx::write::{attr_values_read_back, out_attrs_read_back, XOut};

verus! {

broadcast use {
    vstd::utf8::encode_utf8_decode_utf8,
    vstd::utf8::encode_utf8_valid_utf8,
    vstd::utf8::decode_utf8_encode_utf8,
};

/// The event a reader reports for one written event.
pub open spec fn read_out(o: XOut) -> XEv {
    match o {
        XOut::Decl => XEv::Decl(encode_utf8("xml version=\"1.0\""@)),
        XOut::Start(n, a) => XEv::Start(read_tag(n, a)),
        XOut::Empty(n, a) => XEv::Empty(read_tag(n, a)),
        XOut::End(n) => XEv::End(encode_utf8(n)),
        XOut::Text(t) => XEv::Text(encode_utf8(t)),
        XOut::CData(t) => XEv::CData(encode_utf8(t)),
        XOut::PI(t) => XEv::PI(encode_utf8(t)),
        XOut::DocType(t) => XEv::DocType(encode_utf8(t)),
        XOut::GeneralRef(t) => XEv::GeneralRef(encode_utf8(t)),
    }
}

/// The events a reader reports for written events.
pub open spec fn read_outs(os: Seq<XOut>) -> Seq<XEv> {
    os.map_values(|o: XOut| read_out(o))
}

/// Running over two runs is running over the first, then over the second
/// from where the first left off.
pub proof fn lemma_run_concat(a: Seq<XEv>, b: Seq<XEv>, p: Option<TagView>)
    ensures
        canon_run(a + b, p) == match canon_run(a, p) {
            (o, Ok(q)) => (o + canon_run(b, q).0, canon_run(b, q).1),
            (o, Err(k)) => (o, Err::<Option<TagView>, ErrKind>(k)),
        },
    decreases a.len(),
{
    if a.len() == 0 {
        assert(a + b =~= b);
        assert(Seq::<XOut>::empty() + canon_run(b, p).0 =~= canon_run(b, p).0);
    } else {
        let x = a[0];
        let a2 = a.drop_first();
        assert(a + b =~= seq![x] + (a2 + b));
        assert(a =~= seq![x] + a2);
        lemma_run_front(x, a2 + b, p);
        lemma_run_front(x, a2, p);
        let st = canon_step(p, x);
        if let Ok(q) = st.next {
            lemma_run_concat(a2, b, q);
            let r1 = canon_run(a2, q);
            if let Ok(q2) = r1.1 {
                assert(st.outs + (r1.0 + canon_run(b, q2).0) =~= (st.outs + r1.0) + canon_run(b, q2).0);
            }
        }
    }
}

/// The attributes a reader reports for written ones rebuild as written.
proof fn lemma_rebuild_read_attrs(a: Seq<(Seq<char>, Seq<char>)>)
    requires
        attr_values_read_back(a),
    ensures
        rebuild_attrs(read_attrs(a)) == Ok::<Seq<(Seq<char>, Seq<char>)>, ErrKind>(a),
    decreases a.len(),
{
    if a.len() > 0 {
        let pre = a.drop_last();
        assert(attr_values_read_back(pre)) by {
            assert forall|i: int| 0 <= i < pre.len() implies unescapes(#[trigger] pre[i].1) by {
                assert(pre[i] == a[i]);
            }
        }
        lemma_rebuild_read_attrs(pre);
        assert(read_attrs(a).drop_last() =~= read_attrs(pre));
        assert(read_attrs(a).last() == (encode_utf8(a.last().0), encode_utf8(crate::srx::write::xml_escape(a.last().1))));
        assert(unescapes(a[a.len() - 1].1));
        let ra = read_attrs(a);
        assert(rebuild_attrs(ra.drop_last()) == rebuild_attrs(read_attrs(pre)));
        encode_utf8_valid_utf8(a.last().0);
        assert(valid_utf8(ra.last().0));
        assert(decode_utf8(ra.last().0) == a.last().0);
        assert(xml_unescape(ra.last().1) == Some(a.last().1));
        assert(pre.push((a.last().0, a.last().1)) =~= a);
        assert(rebuild_attrs(ra) == Ok::<Seq<(Seq<char>, Seq<char>)>, ErrKind>(pre.push((a.last().0, a.last().1))));
    } else {
        assert(read_attrs(a) =~= Seq::<(Seq<u8>, Seq<u8>)>::empty());
        assert(a =~= Seq::<(Seq<char>, Seq<char>)>::empty());
    }
}

/// A tag a reader reports for a written one rebuilds as written.
proof fn lemma_rebuild_read_tag(n: Seq<char>, a: Seq<(Seq<char>, Seq<char>)>)
    requires
        attr_values_read_back(a),
    ensures
        rebuild(read_tag(n, a)) == Ok::<TagView, ErrKind>((n, a)),
{
    lemma_rebuild_read_attrs(a);
}

/// The start tag a run of written events ends with, which a reader of them
/// still holds back.
pub open spec fn held(os: Seq<XOut>) -> Option<TagView> {
    if os.len() > 0 {
        match os.last() {
            XOut::Start(n, a) => Some((n, a)),
            _ => None,
        }
    } else {
        None
    }
}

/// The written events but a start tag they end with.
pub open spec fn shown(os: Seq<XOut>) -> Seq<XOut> {
    if held(os) is Some {
        os.drop_last()
    } else {
        os
    }
}

/// An event that canonical output can hold: no declaration, and no text
/// made only of ASCII white space.
pub open spec fn canon_kind(o: XOut) -> bool {
    match o {
        XOut::Decl => false,
        XOut::Text(t) => !all_ascii_ws(encode_utf8(t)),
        _ => true,
    }
}

/// A start tag followed at once by its own end tag.
pub open spec fn bad_pair(a: XOut, b: XOut) -> bool {
    a matches XOut::Start(n, _) && b matches XOut::End(m) && n == m
}

/// Events in canonical form: no declaration, no blank text, and no start
/// tag followed at once by its own end tag.
pub open spec fn canonical_outs(os: Seq<XOut>) -> bool {
    &&& forall|i: int| 0 <= i < os.len() ==> canon_kind(#[trigger] os[i])
    &&& forall|i: int| 0 <= i < os.len() - 1 ==> !#[trigger] bad_pair(os[i], os[i + 1])
}

/// A reader gives back every attribute value of the written tags.
pub open spec fn outs_read_back(os: Seq<XOut>) -> bool {
    forall|i: int| 0 <= i < os.len() ==> out_attrs_read_back(#[trigger] os[i])
}

proof fn lemma_canonical_prefix(os: Seq<XOut>)
    requires
        os.len() > 0,
        canonical_outs(os),
        outs_read_back(os),
    ensures
        canonical_outs(os.drop_last()),
        outs_read_back(os.drop_last()),
        canon_kind(os.last()),
        out_attrs_read_back(os.last()),
        os.len() > 1 ==> !bad_pair(os.drop_last().last(), os.last()),
{
    let pre = os.drop_last();
    assert forall|i: int| 0 <= i < pre.len() implies canon_kind(#[trigger] pre[i]) by {
        assert(pre[i] == os[i]);
    }
    assert forall|i: int| 0 <= i < pre.len() - 1 implies !#[trigger] bad_pair(pre[i], pre[i + 1]) by {
        assert(pre[i] == os[i]);
        assert(pre[i + 1] == os[i + 1]);
        assert(!bad_pair(os[i], os[i + 1]));
    }
    assert forall|i: int| 0 <= i < pre.len() implies out_attrs_read_back(#[trigger] pre[i]) by {
        assert(pre[i] == os[i]);
    }
    assert(canon_kind(os[os.len() - 1]));
    assert(out_attrs_read_back(os[os.len() - 1]));
    if os.len() > 1 {
        assert(!bad_pair(os[os.len() - 2], os[os.len() - 2 + 1]));
    }
}

/// Canonicalizing the events a reader reports for canonical output writes
/// that output again, but holds back a start tag it ends with.
#[verifier::rlimit(40)]
pub proof fn lemma_reread(os: Seq<XOut>)
    requires
        canonical_outs(os),
        outs_read_back(os),
    ensures
        canon_run(read_outs(os), None) == (shown(os), Ok::<Option<TagView>, ErrKind>(held(os))),
    decreases os.len(),
{
    if os.len() == 0 {
        assert(read_outs(os) =~= Seq::<XEv>::empty());
    } else {
        let pre = os.drop_last();
        let o = os.last();
        lemma_canonical_prefix(os);
        lemma_reread(pre);
        assert(read_outs(os) =~= read_outs(pre) + seq![read_out(o)]);
        lemma_run_concat(read_outs(pre), seq![read_out(o)], None);
        let h = held(pre);
        assert(seq![read_out(o)] =~= seq![read_out(o)] + Seq::<XEv>::empty());
        lemma_run_front(read_out(o), Seq::<XEv>::empty(), h);
        assert(shown(pre) + flush(h) =~= pre);
        match o {
            XOut::Start(n, a) => {
                lemma_rebuild_read_tag(n, a);
                assert(shown(pre) + (flush(h) + Seq::<XOut>::empty()) =~= shown(os));
            },
            XOut::Empty(n, a) => {
                lemma_rebuild_read_tag(n, a);
                assert(shown(pre) + (flush(h).push(XOut::Empty(n, a)) + Seq::<XOut>::empty()) =~= shown(os));
            },
            XOut::End(m) => {
                if let Some(sv) = h {
                    assert(pre.last() == XOut::Start(sv.0, sv.1));
                    assert(sv.0 != m);
                    lemma_encode_injective(sv.0, m);
                }
                assert(raw_text(encode_utf8(m)) == Ok::<Seq<char>, ErrKind>(m));
                assert(shown(pre) + (flush(h).push(XOut::End(m)) + Seq::<XOut>::empty()) =~= shown(os));
            },
            XOut::Text(t) => {
                assert(raw_text(encode_utf8(t)) == Ok::<Seq<char>, ErrKind>(t));
                assert(shown(pre) + (flush(h).push(XOut::Text(t)) + Seq::<XOut>::empty()) =~= shown(os));
            },
            XOut::CData(t) => {
                assert(raw_text(encode_utf8(t)) == Ok::<Seq<char>, ErrKind>(t));
                assert(shown(pre) + (flush(h).push(XOut::CData(t)) + Seq::<XOut>::empty()) =~= shown(os));
            },
            XOut::PI(t) => {
                assert(raw_text(encode_utf8(t)) == Ok::<Seq<char>, ErrKind>(t));
                assert(shown(pre) + (flush(h).push(XOut::PI(t)) + Seq::<XOut>::empty()) =~= shown(os));
            },
            XOut::DocType(t) => {
                assert(raw_text(encode_utf8(t)) == Ok::<Seq<char>, ErrKind>(t));
                assert(shown(pre) + (flush(h).push(XOut::DocType(t)) + Seq::<XOut>::empty()) =~= shown(os));
            },
            XOut::GeneralRef(t) => {
                assert(raw_text(encode_utf8(t)) == Ok::<Seq<char>, ErrKind>(t));
                assert(shown(pre) + (flush(h).push(XOut::GeneralRef(t)) + Seq::<XOut>::empty()) =~= shown(os));
            },
            XOut::Decl => {},
        }
    }
}

/// Canonical events followed by canonical events, with no start tag at the
/// seam followed by its own end tag, are canonical.
proof fn lemma_canonical_concat(a: Seq<XOut>, b: Seq<XOut>)
    requires
        canonical_outs(a),
        canonical_outs(b),
        a.len() > 0 && b.len() > 0 ==> !bad_pair(a.last(), b[0]),
    ensures
        canonical_outs(a + b),
{
    let c = a + b;
    assert forall|i: int| 0 <= i < c.len() implies canon_kind(#[trigger] c[i]) by {
        if i < a.len() {
            assert(c[i] == a[i]);
        } else {
            assert(c[i] == b[i - a.len()]);
        }
    }
    assert forall|i: int| 0 <= i < c.len() - 1 implies !#[trigger] bad_pair(c[i], c[i + 1]) by {
        if i + 1 < a.len() {
            assert(c[i] == a[i] && c[i + 1] == a[i + 1]);
            assert(!bad_pair(a[i], a[i + 1]));
        } else if i + 1 == a.len() {
            assert(c[i] == a.last() && c[i + 1] == b[0]);
        } else {
            assert(c[i] == b[i - a.len()] && c[i + 1] == b[i - a.len() + 1]);
            assert(!bad_pair(b[i - a.len()], b[i - a.len() + 1]));
        }
    }
}

/// What canonical output so far, with held tag `p`, is: canonical, and a
/// start tag it ends with is followed by a held tag.
pub open spec fn canon_so_far(o: Seq<XOut>, p: Option<TagView>) -> bool {
    canonical_outs(o) && (held(o) is Some ==> p is Some)
}

/// One step of the canonicalizer keeps its output canonical.
#[verifier::rlimit(40)]
proof fn lemma_step_canonical(o: Seq<XOut>, p: Option<TagView>, e: XEv)
    requires
        canon_so_far(o, p),
        !(e is Eof),
        canon_step(p, e).next is Ok,
    ensures
        canon_so_far(o + canon_step(p, e).outs, canon_step(p, e).next->Ok_0),
{
    let st = canon_step(p, e);
    let x = st.outs;
    let q = st.next->Ok_0;
    assert(canonical_outs(x)) by {
        assert forall|i: int| 0 <= i < x.len() implies canon_kind(#[trigger] x[i]) by {
            if let XEv::Text(b) = e {
                if i == x.len() - 1 && !all_ascii_ws(b) && valid_utf8(b) {
                    assert(encode_utf8(decode_utf8(b)) == b);
                }
            }
        }
        assert forall|i: int| 0 <= i < x.len() - 1 implies !#[trigger] bad_pair(x[i], x[i + 1]) by {
            if let XEv::End(n) = e {
                if let Some(sv) = p {
                    if encode_utf8(sv.0) != n && valid_utf8(n) {
                        assert(encode_utf8(decode_utf8(n)) == n);
                    }
                }
            }
        }
    }
    if o.len() > 0 && x.len() > 0 && bad_pair(o.last(), x[0]) {
        assert(held(o) is Some);
    }
    lemma_canonical_concat(o, x);
    if x.len() == 0 {
        assert(o + x =~= o);
    } else {
        assert((o + x).last() == x.last());
    }
}

/// Canonicalizing a run of events, none of them the end of input, keeps
/// the output canonical.
proof fn lemma_run_canonical(es: Seq<XEv>, o: Seq<XOut>, p: Option<TagView>)
    requires
        canon_so_far(o, p),
        forall|i: int| 0 <= i < es.len() ==> !(#[trigger] es[i] is Eof),
        canon_run(es, p).1 is Ok,
    ensures
        canon_so_far(o + canon_run(es, p).0, canon_run(es, p).1->Ok_0),
    decreases es.len(),
{
    if es.len() == 0 {
        assert(o + Seq::<XOut>::empty() =~= o);
    } else {
        let x = es[0];
        let rest = es.drop_first();
        assert(es =~= seq![x] + rest);
        lemma_run_front(x, rest, p);
        assert(!(es[0] is Eof));
        let st = canon_step(p, x);
        lemma_step_canonical(o, p, x);
        let q = st.next->Ok_0;
        assert forall|i: int| 0 <= i < rest.len() implies !(#[trigger] rest[i] is Eof) by {
            assert(rest[i] == es[i + 1]);
        }
        lemma_run_canonical(rest, o + st.outs, q);
        assert(o + st.outs + canon_run(rest, q).0 =~= o + (st.outs + canon_run(rest, q).0));
    }
}

/// The canonical form is a fixed point: when a document's events, then the
/// end of input, canonicalize without error to `os`, and a reader gives
/// back the attribute values of the written tags, then canonicalizing the
/// events a reader reports for `os`, then the end of input, writes `os`
/// again and ends without error.
pub proof fn lemma_canon_fixed_point(es: Seq<XEv>)
    requires
        forall|i: int| 0 <= i < es.len() ==> !(#[trigger] es[i] is Eof),
        canon_run(es + seq![XEv::Eof], None).1 is Ok,
        outs_read_back(canon_run(es + seq![XEv::Eof], None).0),
    ensures
        canon_run(read_outs(canon_run(es + seq![XEv::Eof], None).0) + seq![XEv::Eof], None) == (
            canon_run(es + seq![XEv::Eof], None).0,
            Ok::<Option<TagView>, ErrKind>(None),
        ),
{
    let first = canon_run(es + seq![XEv::Eof], None);
    lemma_run_concat(es, seq![XEv::Eof], None);
    let r = canon_run(es, None);
    assert(r.1 is Ok);
    let p = r.1->Ok_0;
    assert(canon_so_far(Seq::<XOut>::empty(), None)) by {
        assert(canonical_outs(Seq::<XOut>::empty()));
    }
    lemma_run_canonical(es, Seq::<XOut>::empty(), None);
    assert(Seq::<XOut>::empty() + r.0 =~= r.0);
    assert(seq![XEv::Eof] =~= seq![XEv::Eof] + Seq::<XEv>::empty());
    lemma_run_front(XEv::Eof, Seq::<XEv>::empty(), p);
    let os = first.0;
    assert(os =~= r.0 + (flush(p) + Seq::<XOut>::empty()));
    assert(flush(p) + Seq::<XOut>::empty() =~= flush(p));
    assert(canonical_outs(flush(p))) by {
        if let Some(t) = p {
            assert(flush(p)[0] == XOut::Start(t.0, t.1));
        }
    }
    if r.0.len() > 0 && flush(p).len() > 0 && bad_pair(r.0.last(), flush(p)[0]) {
        assert(false);
    }
    lemma_canonical_concat(r.0, flush(p));
    lemma_reread(os);
    let rr = read_outs(os);
    lemma_run_concat(rr, seq![XEv::Eof], None);
    lemma_run_front(XEv::Eof, Seq::<XEv>::empty(), held(os));
    assert(shown(os) + (flush(held(os)) + Seq::<XOut>::empty()) =~= os);
}

} // verus!
