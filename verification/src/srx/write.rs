//! Incremental SRX serialization to bytes. Every XML event is encoded by
//! `quick_xml`'s writer; the serializer decides which events to write.

use vstd::prelude::*;
use vstd::utf8::encode_utf8;

use crate::error::{error_with, ErrKind, SparqlResultsError};
use crate::srj::document::texts;
use crate::srj::serialize::rows_entries;
use crate::srx::event::string_from_chars;
use crate::srj::parse::{result_view, ResultView};
use crate::srx::parse::srx_parse;
use crate::srx::readback::{entries_read_back, entry_reads_back, unescapes};
use crate::srx::roundtrip::{
    lemma_srx_round_trip, rows_read_back, rows_unique, srx_read_back, srx_result_reads_back, vars_read_back,
};
use crate::srx::grammar::append_chars;
use crate::srx::text::chars_of;
use crate::text::append_bytes;
use quick_xml::events::{BytesCData, BytesEnd, BytesPI, BytesRef, BytesStart, BytesText, Event};
use crate::types::{
    binding_at, binding_count, binding_entries, direction_token, keys_unique, opt_text, BaseDirection, ResultRow,
    ResultValue, SparqlResult, Term,
};

verus! {

/// The SPARQL results namespace.
pub const SPARQL_NS: &'static str = "http://www.w3.org/2005/sparql-results#";

/// The W3C Internationalization Tag Set namespace of the `its:dir`
/// attribute that carries a literal's base direction.
pub const ITS_NS: &'static str = "http://www.w3.org/2005/11/its";

/// A start or empty-element tag to write: its name and its attributes with
/// their unescaped values, in order.
pub struct OutTag {
    pub name: String,
    pub attrs: Vec<(String, String)>,
}

/// An XML event to write. Text-like payloads are written as given (text
/// is already escaped).
pub enum XmlOut {
    Decl,
    Start(OutTag),
    Empty(OutTag),
    End(String),
    Text(String),
    CData(String),
    PI(String),
    DocType(String),
    GeneralRef(String),
}

/// The value of an event to write.
pub enum XOut {
    Decl,
    Start(Seq<char>, Seq<(Seq<char>, Seq<char>)>),
    Empty(Seq<char>, Seq<(Seq<char>, Seq<char>)>),
    End(Seq<char>),
    Text(Seq<char>),
    CData(Seq<char>),
    PI(Seq<char>),
    DocType(Seq<char>),
    GeneralRef(Seq<char>),
}

pub open spec fn attrs_view(a: Seq<(String, String)>) -> Seq<(Seq<char>, Seq<char>)> {
    a.map_values(|p: (String, String)| (p.0@, p.1@))
}

impl View for XmlOut {
    type V = XOut;

    open spec fn view(&self) -> XOut {
        match self {
            XmlOut::Decl => XOut::Decl,
            XmlOut::Start(t) => XOut::Start(t.name@, attrs_view(t.attrs@)),
            XmlOut::Empty(t) => XOut::Empty(t.name@, attrs_view(t.attrs@)),
            XmlOut::End(n) => XOut::End(n@),
            XmlOut::Text(s) => XOut::Text(s@),
            XmlOut::CData(s) => XOut::CData(s@),
            XmlOut::PI(s) => XOut::PI(s@),
            XmlOut::DocType(s) => XOut::DocType(s@),
            XmlOut::GeneralRef(s) => XOut::GeneralRef(s@),
        }
    }
}

/// How `quick_xml::escape::escape` writes one character.
pub open spec fn xml_escape_char(c: char) -> Seq<char> {
    if c == '<' {
        "&lt;"@
    } else if c == '>' {
        "&gt;"@
    } else if c == '&' {
        "&amp;"@
    } else if c == '\'' {
        "&apos;"@
    } else if c == '"' {
        "&quot;"@
    } else {
        seq![c]
    }
}

/// `quick_xml::escape::escape`: the five XML special characters replaced
/// by their entity references.
pub open spec fn xml_escape(s: Seq<char>) -> Seq<char>
    decreases s.len(),
{
    if s.len() == 0 {
        seq![]
    } else {
        xml_escape_char(s[0]) + xml_escape(s.drop_first())
    }
}

/// The attributes as `BytesStart::push_attribute` writes them:
/// ` key="escaped value"` each.
pub open spec fn attrs_text(a: Seq<(Seq<char>, Seq<char>)>) -> Seq<char>
    decreases a.len(),
{
    if a.len() == 0 {
        seq![]
    } else {
        attrs_text(a.drop_last()) + " "@ + a.last().0 + "=\""@ + xml_escape(a.last().1) + "\""@
    }
}

/// The text that `quick_xml::Writer::write_event` writes for an event.
pub open spec fn out_text(o: XOut) -> Seq<char> {
    match o {
        XOut::Decl => "<?xml version=\"1.0\"?>"@,
        XOut::Start(n, a) => "<"@ + n + attrs_text(a) + ">"@,
        XOut::Empty(n, a) => "<"@ + n + attrs_text(a) + "/>"@,
        XOut::End(n) => "</"@ + n + ">"@,
        XOut::Text(t) => t,
        XOut::CData(t) => "<![CDATA["@ + t + "]]>"@,
        XOut::PI(t) => "<?"@ + t + "?>"@,
        XOut::DocType(t) => "<!DOCTYPE "@ + t + ">"@,
        XOut::GeneralRef(t) => "&"@ + t + ";"@,
    }
}

/// The bytes written for a run of events.
pub open spec fn outs_bytes(os: Seq<XOut>) -> Seq<u8>
    decreases os.len(),
{
    if os.len() == 0 {
        seq![]
    } else {
        outs_bytes(os.drop_last()) + encode_utf8(out_text(os.last()))
    }
}

/// `quick_xml::escape::escape` on a text; `Attribute::unescape_value` reads
/// the escaped text back as the text.
#[verifier::external_body]
pub(crate) fn escape_text(s: &str) -> (r: String)
    ensures
        r@ == xml_escape(s@),
        crate::srx::event::xml_unescape(encode_utf8(r@)) == Some(s@),
{
    quick_xml::escape::escape(s).into_owned()
}

/// The kind of an XML event to write.
#[derive(Clone, Copy, PartialEq, Eq, Structural)]
pub enum MarkupKind {
    Start,
    Empty,
    End,
    Text,
    CData,
    PI,
    DocType,
    GeneralRef,
}

/// What `quick_xml::Writer::write_event` writes for an event of this kind
/// whose content is `c` (for a tag: its name and attributes).
pub open spec fn markup_text(k: MarkupKind, c: Seq<char>) -> Seq<char> {
    match k {
        MarkupKind::Start => "<"@ + c + ">"@,
        MarkupKind::Empty => "<"@ + c + "/>"@,
        MarkupKind::End => "</"@ + c + ">"@,
        MarkupKind::Text => c,
        MarkupKind::CData => "<![CDATA["@ + c + "]]>"@,
        MarkupKind::PI => "<?"@ + c + "?>"@,
        MarkupKind::DocType => "<!DOCTYPE "@ + c + ">"@,
        MarkupKind::GeneralRef => "&"@ + c + ";"@,
    }
}

/// `quick_xml::Writer::write_event` into a byte buffer (no indentation) on
/// the event of this kind with this content (for a tag: its name and
/// attributes): the markup as `markup_text` states it, in UTF-8.
#[verifier::external_body]
fn encode_markup(k: MarkupKind, c: &str) -> (r: Vec<u8>)
    ensures
        r@ == encode_utf8(markup_text(k, c@)),
{
    let event = match k {
        MarkupKind::Start => Event::Start(BytesStart::new(c)),
        MarkupKind::Empty => Event::Empty(BytesStart::new(c)),
        MarkupKind::End => Event::End(BytesEnd::new(c)),
        MarkupKind::Text => Event::Text(BytesText::from_escaped(c)),
        MarkupKind::CData => Event::CData(BytesCData::new(c)),
        MarkupKind::PI => Event::PI(BytesPI::new(c)),
        MarkupKind::DocType => Event::DocType(BytesText::from_escaped(c)),
        MarkupKind::GeneralRef => Event::GeneralRef(BytesRef::new(c)),
    };
    let mut writer = quick_xml::Writer::new(Vec::new());
    writer.write_event(event).map_or_else(|_| Vec::new(), |()| writer.into_inner())
}

/// The content of a tag: its name, then ` key="escaped value"` for each
/// attribute, as `BytesStart::push_attribute` appends them.
pub open spec fn tag_content(n: Seq<char>, a: Seq<(Seq<char>, Seq<char>)>) -> Seq<char> {
    n + attrs_text(a)
}

/// Appends the characters of a text.
fn push_str_chars(out: &mut Vec<char>, s: &str)
    ensures
        final(out)@ == old(out)@ + s@,
{
    let cs = chars_of(s);
    append_chars(out, cs.as_slice());
}

/// A reader gives back every attribute value of the list from its escaped
/// form.
pub open spec fn attr_values_read_back(a: Seq<(Seq<char>, Seq<char>)>) -> bool {
    forall|i: int| 0 <= i < a.len() ==> crate::srx::readback::unescapes(#[trigger] a[i].1)
}

/// A reader gives back every attribute value of a written tag.
pub open spec fn out_attrs_read_back(o: XOut) -> bool {
    match o {
        XOut::Start(_, a) => attr_values_read_back(a),
        XOut::Empty(_, a) => attr_values_read_back(a),
        _ => true,
    }
}

/// The content of a tag.
fn tag_content_of(t: &OutTag) -> (r: Vec<char>)
    ensures
        r@ == tag_content(t.name@, attrs_view(t.attrs@)),
        attr_values_read_back(attrs_view(t.attrs@)),
{
    let mut r: Vec<char> = Vec::new();
    push_str_chars(&mut r, t.name.as_str());
    let mut i: usize = 0;
    let ghost a = attrs_view(t.attrs@);
    assert(a.subrange(0, 0) =~= Seq::<(Seq<char>, Seq<char>)>::empty());
    assert(r@ =~= t.name@ + attrs_text(a.subrange(0, 0)));
    while i < t.attrs.len()
        invariant
            a == attrs_view(t.attrs@),
            0 <= i <= a.len(),
            r@ == t.name@ + attrs_text(a.subrange(0, i as int)),
            forall|j: int| 0 <= j < i ==> crate::srx::readback::unescapes(#[trigger] a[j].1),
        decreases a.len() - i,
    {
        let (k, v) = &t.attrs[i];
        let ghost before = r@;
        r.push(' ');
        push_str_chars(&mut r, k.as_str());
        r.push('=');
        r.push('"');
        let escaped = escape_text(v.as_str());
        push_str_chars(&mut r, escaped.as_str());
        r.push('"');
        proof {
            reveal_strlit(" ");
            reveal_strlit("=\"");
            reveal_strlit("\"");
            let sub = a.subrange(0, i + 1);
            assert(sub.drop_last() =~= a.subrange(0, i as int));
            assert(sub.last() == (k@, v@));
            assert(r@ =~= before + " "@ + k@ + "=\""@ + xml_escape(v@) + "\""@);
            assert(a[i as int] == (k@, v@));
        }
        i = i + 1;
    }
    assert(a.subrange(0, a.len() as int) =~= a);
    r
}

/// `quick_xml::Writer::write_event` on an event: the markup that
/// `out_text` states.
pub fn encode_event(o: &XmlOut) -> (r: Vec<u8>)
    ensures
        r@ == encode_utf8(out_text(o@)),
        out_attrs_read_back(o@),
{
    match o {
        XmlOut::Decl => {
            proof {
                reveal_strlit("xml version=\"1.0\"");
                reveal_strlit("<?");
                reveal_strlit("?>");
                reveal_strlit("<?xml version=\"1.0\"?>");
            }
            let r = encode_markup(MarkupKind::PI, "xml version=\"1.0\"");
            assert(markup_text(MarkupKind::PI, "xml version=\"1.0\""@) =~= out_text(o@));
            r
        },
        XmlOut::Start(t) => {
            let c = string_from_chars(tag_content_of(t).as_slice());
            assert(markup_text(MarkupKind::Start, c@) =~= out_text(o@));
            encode_markup(MarkupKind::Start, c.as_str())
        },
        XmlOut::Empty(t) => {
            let c = string_from_chars(tag_content_of(t).as_slice());
            assert(markup_text(MarkupKind::Empty, c@) =~= out_text(o@));
            encode_markup(MarkupKind::Empty, c.as_str())
        },
        XmlOut::End(n) => encode_markup(MarkupKind::End, n.as_str()),
        XmlOut::Text(s) => encode_markup(MarkupKind::Text, s.as_str()),
        XmlOut::CData(s) => encode_markup(MarkupKind::CData, s.as_str()),
        XmlOut::PI(s) => encode_markup(MarkupKind::PI, s.as_str()),
        XmlOut::DocType(s) => encode_markup(MarkupKind::DocType, s.as_str()),
        XmlOut::GeneralRef(s) => encode_markup(MarkupKind::GeneralRef, s.as_str()),
    }
}

proof fn lemma_outs_push(os: Seq<XOut>, o: XOut)
    ensures
        outs_bytes(os.push(o)) == outs_bytes(os) + encode_utf8(out_text(o)),
{
    assert(os.push(o).drop_last() =~= os);
}

/// Writing two runs of events writes their bytes one after the other.
pub proof fn lemma_outs_concat(a: Seq<XOut>, b: Seq<XOut>)
    ensures
        outs_bytes(a + b) == outs_bytes(a) + outs_bytes(b),
    decreases b.len(),
{
    if b.len() == 0 {
        assert(a + b =~= a);
    } else {
        lemma_outs_concat(a, b.drop_last());
        assert((a + b).drop_last() =~= a + b.drop_last());
    }
}

/// Writes one event.
fn emit(out: &mut Vec<u8>, o: XmlOut, Ghost(start): Ghost<Seq<u8>>, Ghost(em): Ghost<Seq<XOut>>)
    requires
        old(out)@ == start + outs_bytes(em),
    ensures
        final(out)@ == start + outs_bytes(em.push(o@)),
        out_attrs_read_back(o@),
{
    let b = encode_event(&o);
    append_bytes(out, b.as_slice());
    proof {
        lemma_outs_push(em, o@);
    }
}

pub open spec fn plain_tag(n: Seq<char>) -> XOut {
    XOut::Start(n, seq![])
}

fn start_plain(name: &str) -> (o: XmlOut)
    ensures
        o@ == plain_tag(name@),
{
    let o = XmlOut::Start(OutTag { name: name.to_owned(), attrs: Vec::new() });
    assert(attrs_view(Seq::<(String, String)>::empty()) =~= Seq::<(Seq<char>, Seq<char>)>::empty());
    o
}

fn end_tag(name: &str) -> (o: XmlOut)
    ensures
        o@ == XOut::End(name@),
{
    XmlOut::End(name.to_owned())
}

/// The attributes of a literal: `xml:lang`, then `its:dir` with the ITS
/// namespace declaration, then `datatype`, each when present.
pub open spec fn literal_attrs(
    lang: Option<Seq<char>>,
    dir: Option<BaseDirection>,
    datatype: Option<Seq<char>>,
) -> Seq<(Seq<char>, Seq<char>)> {
    (match lang {
        Some(l) => seq![("xml:lang"@, l)],
        None => seq![],
    }) + (match dir {
        Some(d) => seq![("its:dir"@, direction_token(d)), ("xmlns:its"@, ITS_NS@)],
        None => seq![],
    }) + (match datatype {
        Some(t) => seq![("datatype"@, t)],
        None => seq![],
    })
}

/// The events of a term.
pub open spec fn value_outs(t: Term) -> Seq<XOut>
    decreases t,
{
    match t {
        Term::Uri(s) => seq![plain_tag("uri"@), XOut::Text(xml_escape(s)), XOut::End("uri"@)],
        Term::BNode(s) => seq![plain_tag("bnode"@), XOut::Text(xml_escape(s)), XOut::End("bnode"@)],
        Term::Literal { value, lang, datatype, dir } => seq![
            XOut::Start("literal"@, literal_attrs(lang, dir, datatype)),
            XOut::Text(xml_escape(value)),
            XOut::End("literal"@),
        ],
        Term::Triple { subject, predicate, object } => seq![plain_tag("triple"@)] + seq![plain_tag("subject"@)]
            + value_outs(*subject) + seq![XOut::End("subject"@), plain_tag("predicate"@)] + value_outs(*predicate)
            + seq![XOut::End("predicate"@), plain_tag("object"@)] + value_outs(*object) + seq![
            XOut::End("object"@),
            XOut::End("triple"@),
        ],
    }
}

/// Builds the attributes of a literal.
fn literal_attr_list(lang: &Option<String>, dir: &Option<BaseDirection>, datatype: &Option<String>) -> (r: Vec<(String, String)>)
    ensures
        attrs_view(r@) == literal_attrs(opt_text(*lang), *dir, opt_text(*datatype)),
{
    let mut r: Vec<(String, String)> = Vec::new();
    let ghost a0 = attrs_view(r@);
    if let Some(l) = lang {
        r.push(("xml:lang".to_owned(), l.clone()));
    }
    let ghost a1 = attrs_view(r@);
    if let Some(d) = dir {
        r.push(("its:dir".to_owned(), d.as_str().to_owned()));
        r.push(("xmlns:its".to_owned(), ITS_NS.to_owned()));
    }
    let ghost a2 = attrs_view(r@);
    if let Some(t) = datatype {
        r.push(("datatype".to_owned(), t.clone()));
    }
    assert(attrs_view(r@) =~= literal_attrs(opt_text(*lang), *dir, opt_text(*datatype)));
    r
}

/// Writes the events of a value.
#[verifier::rlimit(60)]
pub fn write_value_events(out: &mut Vec<u8>, v: &ResultValue)
    ensures
        final(out)@ == old(out)@ + outs_bytes(value_outs(v@)),
        crate::srx::readback::term_reads_back(v@),
    decreases v,
{
    let ghost start = out@;
    let ghost e0: Seq<XOut> = seq![];
    assert(start + outs_bytes(e0) =~= start);
    match v {
        ResultValue::Uri(s) | ResultValue::BNode(s) => {
            let name = if let ResultValue::Uri(_) = v {
                "uri"
            } else {
                "bnode"
            };
            emit(out, start_plain(name), Ghost(start), Ghost(e0));
            let ghost e1 = e0.push(plain_tag(name@));
            emit(out, XmlOut::Text(escape_text(s.as_str())), Ghost(start), Ghost(e1));
            let ghost e2 = e1.push(XOut::Text(xml_escape(s@)));
            emit(out, end_tag(name), Ghost(start), Ghost(e2));
            assert(e2.push(XOut::End(name@)) =~= value_outs(v@));
        },
        ResultValue::Literal { value, lang, datatype, dir } => {
            let attrs = literal_attr_list(lang, dir, datatype);
            let o = XmlOut::Start(OutTag { name: "literal".to_owned(), attrs });
            emit(out, o, Ghost(start), Ghost(e0));
            let ghost e1 = e0.push(XOut::Start("literal"@, literal_attrs(opt_text(*lang), *dir, opt_text(*datatype))));
            emit(out, XmlOut::Text(escape_text(value.as_str())), Ghost(start), Ghost(e1));
            let ghost e2 = e1.push(XOut::Text(xml_escape(value@)));
            emit(out, end_tag("literal"), Ghost(start), Ghost(e2));
            assert(e2.push(XOut::End("literal"@)) =~= value_outs(v@));
            proof {
                crate::srx::readback::lemma_literal_attrs_read_back(opt_text(*lang), *dir, opt_text(*datatype));
            }
        },
        ResultValue::Triple { subject, predicate, object } => {
            emit(out, start_plain("triple"), Ghost(start), Ghost(e0));
            let ghost e1 = e0.push(plain_tag("triple"@));
            emit(out, start_plain("subject"), Ghost(start), Ghost(e1));
            let ghost e2 = e1.push(plain_tag("subject"@));
            let ghost b2 = out@;
            write_value_events(out, subject);
            proof {
                lemma_outs_concat(e2, value_outs(subject@));
                assert(out@ =~= start + outs_bytes(e2 + value_outs(subject@)));
            }
            let ghost e3 = e2 + value_outs(subject@);
            emit(out, end_tag("subject"), Ghost(start), Ghost(e3));
            let ghost e4 = e3.push(XOut::End("subject"@));
            emit(out, start_plain("predicate"), Ghost(start), Ghost(e4));
            let ghost e5 = e4.push(plain_tag("predicate"@));
            let ghost b5 = out@;
            write_value_events(out, predicate);
            proof {
                lemma_outs_concat(e5, value_outs(predicate@));
                assert(out@ =~= start + outs_bytes(e5 + value_outs(predicate@)));
            }
            let ghost e6 = e5 + value_outs(predicate@);
            emit(out, end_tag("predicate"), Ghost(start), Ghost(e6));
            let ghost e7 = e6.push(XOut::End("predicate"@));
            emit(out, start_plain("object"), Ghost(start), Ghost(e7));
            let ghost e8 = e7.push(plain_tag("object"@));
            let ghost b8 = out@;
            write_value_events(out, object);
            proof {
                lemma_outs_concat(e8, value_outs(object@));
                assert(out@ =~= start + outs_bytes(e8 + value_outs(object@)));
            }
            let ghost e9 = e8 + value_outs(object@);
            emit(out, end_tag("object"), Ghost(start), Ghost(e9));
            let ghost e10 = e9.push(XOut::End("object"@));
            emit(out, end_tag("triple"), Ghost(start), Ghost(e10));
            assert(e10.push(XOut::End("triple"@)) =~= value_outs(v@));
        },
    }
}

/// `<sparql xmlns="...">`.
pub open spec fn sparql_start() -> XOut {
    XOut::Start("sparql"@, seq![("xmlns"@, SPARQL_NS@)])
}

/// One `<variable name="..."/>` per variable.
pub open spec fn var_outs(v: Seq<Seq<char>>) -> Seq<XOut>
    decreases v.len(),
{
    if v.len() == 0 {
        seq![]
    } else {
        var_outs(v.drop_last()).push(XOut::Empty("variable"@, seq![("name"@, v.last())]))
    }
}

/// The start of a SELECT document, up to the opening of `<results>`.
pub open spec fn select_start_outs(vars: Seq<Seq<char>>) -> Seq<XOut> {
    seq![XOut::Decl, sparql_start(), plain_tag("head"@)] + var_outs(vars) + seq![
        XOut::End("head"@),
        plain_tag("results"@),
    ]
}

/// The `<binding>` elements of a row, in the row's order.
pub open spec fn binding_outs(e: Seq<(Seq<char>, Term)>) -> Seq<XOut>
    decreases e.len(),
{
    if e.len() == 0 {
        seq![]
    } else {
        binding_outs(e.drop_last()) + seq![XOut::Start("binding"@, seq![("name"@, e.last().0)])] + value_outs(
            e.last().1,
        ) + seq![XOut::End("binding"@)]
    }
}

/// One `<result>` row.
pub open spec fn row_outs(e: Seq<(Seq<char>, Term)>) -> Seq<XOut> {
    seq![plain_tag("result"@)] + binding_outs(e) + seq![XOut::End("result"@)]
}

/// The rows of a SELECT document.
pub open spec fn rows_outs(rows: Seq<Seq<(Seq<char>, Term)>>) -> Seq<XOut>
    decreases rows.len(),
{
    if rows.len() == 0 {
        seq![]
    } else {
        rows_outs(rows.drop_last()) + row_outs(rows.last())
    }
}

/// `</results></sparql>`.
pub open spec fn select_end_outs() -> Seq<XOut> {
    seq![XOut::End("results"@), XOut::End("sparql"@)]
}

/// A whole ASK document.
pub open spec fn ask_outs(b: bool) -> Seq<XOut> {
    seq![
        XOut::Decl,
        sparql_start(),
        XOut::Empty("head"@, seq![]),
        plain_tag("boolean"@),
        XOut::Text(xml_escape(if b {
            "true"@
        } else {
            "false"@
        })),
        XOut::End("boolean"@),
        XOut::End("sparql"@),
    ]
}

/// The bytes that a writer emits for a whole result, a final newline
/// included.
pub open spec fn srx_document(result: SparqlResult) -> Seq<u8> {
    match result {
        SparqlResult::Select { vars, rows } => outs_bytes(
            select_start_outs(texts(vars@)) + rows_outs(rows_entries(rows@)) + select_end_outs(),
        ) + seq![10u8],
        SparqlResult::Ask { result } => outs_bytes(ask_outs(result)) + seq![10u8],
    }
}

fn start_with(name: &str, key: &str, value: &str) -> (o: XmlOut)
    ensures
        o@ == XOut::Start(name@, seq![(key@, value@)]),
{
    let mut attrs: Vec<(String, String)> = Vec::new();
    attrs.push((key.to_owned(), value.to_owned()));
    let o = XmlOut::Start(OutTag { name: name.to_owned(), attrs });
    assert(attrs_view(attrs@) =~= seq![(key@, value@)]);
    o
}

fn empty_with(name: &str, key: &str, value: &str) -> (o: XmlOut)
    ensures
        o@ == XOut::Empty(name@, seq![(key@, value@)]),
{
    let mut attrs: Vec<(String, String)> = Vec::new();
    attrs.push((key.to_owned(), value.to_owned()));
    let o = XmlOut::Empty(OutTag { name: name.to_owned(), attrs });
    assert(attrs_view(attrs@) =~= seq![(key@, value@)]);
    o
}

fn put_select_start(out: &mut Vec<u8>, vars: &[String])
    ensures
        final(out)@ == old(out)@ + outs_bytes(select_start_outs(texts(vars@))),
        vars_read_back(texts(vars@)),
{
    let ghost start = out@;
    let ghost e0: Seq<XOut> = seq![];
    assert(start + outs_bytes(e0) =~= start);
    emit(out, XmlOut::Decl, Ghost(start), Ghost(e0));
    let ghost e1 = e0.push(XOut::Decl);
    emit(out, start_with("sparql", "xmlns", SPARQL_NS), Ghost(start), Ghost(e1));
    let ghost e2 = e1.push(sparql_start());
    emit(out, start_plain("head"), Ghost(start), Ghost(e2));
    let ghost e3 = e2.push(plain_tag("head"@));
    let ghost v = texts(vars@);
    let mut k: usize = 0;
    assert(e3 + var_outs(v.take(0)) =~= e3);
    while k < vars.len()
        invariant
            v == texts(vars@),
            0 <= k <= vars@.len(),
            out@ == start + outs_bytes(e3 + var_outs(v.take(k as int))),
            forall|j: int| 0 <= j < k ==> unescapes(#[trigger] v[j]),
        decreases vars@.len() - k,
    {
        let ghost cur = e3 + var_outs(v.take(k as int));
        emit(out, empty_with("variable", "name", vars[k].as_str()), Ghost(start), Ghost(cur));
        proof {
            let t = v.take(k + 1);
            assert(t.drop_last() =~= v.take(k as int));
            assert(t.last() == vars@[k as int]@);
            assert(cur.push(XOut::Empty("variable"@, seq![("name"@, vars@[k as int]@)])) =~= e3 + var_outs(t));
            assert(seq![("name"@, vars@[k as int]@)][0].1 == v[k as int]);
        }
        k = k + 1;
    }
    assert(v.take(vars@.len() as int) =~= v);
    let ghost e4 = e3 + var_outs(v);
    emit(out, end_tag("head"), Ghost(start), Ghost(e4));
    let ghost e5 = e4.push(XOut::End("head"@));
    emit(out, start_plain("results"), Ghost(start), Ghost(e5));
    assert(e5.push(plain_tag("results"@)) =~= select_start_outs(v));
}

/// Writes one `<result>` row, its bindings in the row's order.
pub fn write_row_events(out: &mut Vec<u8>, row: &ResultRow)
    ensures
        final(out)@ == old(out)@ + outs_bytes(row_outs(row.entries())),
        entries_read_back(row.entries()),
        keys_unique(row.entries()),
{
    let ghost e = row.entries();
    let ghost start = out@;
    let ghost e0: Seq<XOut> = seq![];
    assert(start + outs_bytes(e0) =~= start);
    emit(out, start_plain("result"), Ghost(start), Ghost(e0));
    let ghost em = e0.push(plain_tag("result"@));
    let n = binding_count(&row.bindings);
    let mut k: usize = 0;
    assert(em + binding_outs(e.take(0)) =~= em);
    while k < n
        invariant
            e == binding_entries(row.bindings),
            n == e.len(),
            0 <= k <= n,
            out@ == start + outs_bytes(em + binding_outs(e.take(k as int))),
            forall|j: int| 0 <= j < k ==> entry_reads_back(#[trigger] e[j]),
            forall|a: int, b: int| 0 <= a < k && 0 <= b < n && a != b ==> #[trigger] e[a].0 != #[trigger] e[b].0,
        decreases n - k,
    {
        let (name, value) = binding_at(&row.bindings, k);
        assert(forall|b: int| 0 <= b < n && b != k ==> e[b].0 != e[k as int].0);
        let ghost cur = em + binding_outs(e.take(k as int));
        emit(out, start_with("binding", "name", name.as_str()), Ghost(start), Ghost(cur));
        let ghost c1 = cur.push(XOut::Start("binding"@, seq![("name"@, name@)]));
        let ghost b1 = out@;
        write_value_events(out, value);
        proof {
            lemma_outs_concat(c1, value_outs(value@));
            assert(out@ =~= start + outs_bytes(c1 + value_outs(value@)));
        }
        let ghost c2 = c1 + value_outs(value@);
        emit(out, end_tag("binding"), Ghost(start), Ghost(c2));
        proof {
            let t = e.take(k + 1);
            assert(t.drop_last() =~= e.take(k as int));
            assert(t.last() == e[k as int]);
            assert(c2.push(XOut::End("binding"@)) =~= em + binding_outs(t));
            assert(seq![("name"@, name@)][0].1 == name@);
            assert(entry_reads_back(e[k as int]));
        }
        k = k + 1;
    }
    assert(e.take(n as int) =~= e);
    let ghost fin = em + binding_outs(e);
    emit(out, end_tag("result"), Ghost(start), Ghost(fin));
    assert(fin.push(XOut::End("result"@)) =~= row_outs(e));
    assert(keys_unique(e)) by {
        assert forall|a: int, b: int| 0 <= a < b < e.len() implies e[a].0 != e[b].0 by {
            assert(e[a].0 != e[b].0);
        }
    }
}

fn put_select_end(out: &mut Vec<u8>)
    ensures
        final(out)@ == old(out)@ + outs_bytes(select_end_outs()) + seq![10u8],
{
    let ghost start = out@;
    let ghost e0: Seq<XOut> = seq![];
    assert(start + outs_bytes(e0) =~= start);
    emit(out, end_tag("results"), Ghost(start), Ghost(e0));
    let ghost e1 = e0.push(XOut::End("results"@));
    emit(out, end_tag("sparql"), Ghost(start), Ghost(e1));
    assert(e1.push(XOut::End("sparql"@)) =~= select_end_outs());
    out.push(10);
}

fn put_ask(out: &mut Vec<u8>, b: bool)
    ensures
        final(out)@ == old(out)@ + outs_bytes(ask_outs(b)) + seq![10u8],
{
    let ghost start = out@;
    let ghost e0: Seq<XOut> = seq![];
    assert(start + outs_bytes(e0) =~= start);
    emit(out, XmlOut::Decl, Ghost(start), Ghost(e0));
    let ghost e1 = e0.push(XOut::Decl);
    emit(out, start_with("sparql", "xmlns", SPARQL_NS), Ghost(start), Ghost(e1));
    let ghost e2 = e1.push(sparql_start());
    let head = XmlOut::Empty(OutTag { name: "head".to_owned(), attrs: Vec::new() });
    assert(attrs_view(Seq::<(String, String)>::empty()) =~= Seq::<(Seq<char>, Seq<char>)>::empty());
    emit(out, head, Ghost(start), Ghost(e2));
    let ghost e3 = e2.push(XOut::Empty("head"@, seq![]));
    emit(out, start_plain("boolean"), Ghost(start), Ghost(e3));
    let ghost e4 = e3.push(plain_tag("boolean"@));
    let text = escape_text(if b {
        "true"
    } else {
        "false"
    });
    let ghost t = if b {
        "true"@
    } else {
        "false"@
    };
    emit(out, XmlOut::Text(text), Ghost(start), Ghost(e4));
    let ghost e5 = e4.push(XOut::Text(xml_escape(t)));
    emit(out, end_tag("boolean"), Ghost(start), Ghost(e5));
    let ghost e6 = e5.push(XOut::End("boolean"@));
    emit(out, end_tag("sparql"), Ghost(start), Ghost(e6));
    assert(e6.push(XOut::End("sparql"@)) =~= ask_outs(b));
    out.push(10);
}

/// The bytes a writer gives for the rows, one `<result>` after another.
pub open spec fn srx_row_pieces(rs: Seq<Seq<(Seq<char>, Term)>>) -> Seq<u8>
    decreases rs.len(),
{
    if rs.len() == 0 {
        seq![]
    } else {
        srx_row_pieces(rs.drop_last()) + outs_bytes(row_outs(rs.last()))
    }
}

proof fn lemma_srx_row_pieces(rs: Seq<Seq<(Seq<char>, Term)>>)
    ensures
        srx_row_pieces(rs) == outs_bytes(rows_outs(rs)),
    decreases rs.len(),
{
    if rs.len() == 0 {
        assert(outs_bytes(Seq::<XOut>::empty()) =~= Seq::<u8>::empty());
    } else {
        lemma_srx_row_pieces(rs.drop_last());
        lemma_outs_concat(rows_outs(rs.drop_last()), row_outs(rs.last()));
    }
}

/// The writer's pieces joined are the whole document: the bytes of
/// `start_select`, then of each `write_row` in order, then of `finish` are
/// the bytes of the SELECT result with these variables and rows.
pub proof fn lemma_srx_writer_pieces(r: SparqlResult)
    ensures
        r matches SparqlResult::Select { vars, rows } ==> outs_bytes(select_start_outs(texts(vars@)))
            + srx_row_pieces(rows_entries(rows@)) + (outs_bytes(select_end_outs()) + seq![10u8])
            == srx_document(r),
{
    if let SparqlResult::Select { vars, rows } = r {
        let rs = rows_entries(rows@);
        let head = select_start_outs(texts(vars@));
        lemma_srx_row_pieces(rs);
        lemma_outs_concat(head + rows_outs(rs), select_end_outs());
        lemma_outs_concat(head, rows_outs(rs));
        let a = outs_bytes(head);
        let b = outs_bytes(rows_outs(rs));
        let c = outs_bytes(select_end_outs());
        assert(a + b + (c + seq![10u8]) =~= a + b + c + seq![10u8]);
    }
}

/// Incremental SRX SELECT serializer. It produces the bytes of the
/// document piece by piece; the caller writes each piece out before asking
/// for the next.
pub struct SrxWriter {
    finished: bool,
}

impl SrxWriter {
    /// The document has been closed.
    pub closed spec fn is_finished(&self) -> bool {
        self.finished
    }

    /// Starts a SELECT document: returns the writer and the bytes of the
    /// declaration, `<sparql>`, the `<head>` with one `<variable>` per
    /// variable, and the opening `<results>`.
    pub fn start_select(vars: &[String]) -> (r: (SrxWriter, Vec<u8>))
        ensures
            !r.0.is_finished(),
            r.1@ == outs_bytes(select_start_outs(texts(vars@))),
            vars_read_back(texts(vars@)),
    {
        let mut out: Vec<u8> = Vec::new();
        put_select_start(&mut out, vars);
        assert(Seq::<u8>::empty() + outs_bytes(select_start_outs(texts(vars@))) =~= outs_bytes(
            select_start_outs(texts(vars@)),
        ));
        (SrxWriter { finished: false }, out)
    }

    /// The bytes of one `<result>` row. A finished writer refuses with
    /// `InvalidDocument`.
    pub fn write_row(&mut self, row: &ResultRow) -> (r: Result<Vec<u8>, SparqlResultsError>)
        ensures
            *final(self) == *old(self),
            old(self).is_finished() ==> (r matches Err(e) && e.kind() == ErrKind::InvalidDocument
                && e.message() == "SRX writer already finished"@),
            !old(self).is_finished() ==> (r matches Ok(b) && b@ == outs_bytes(row_outs(row.entries()))
                && entries_read_back(row.entries()) && keys_unique(row.entries())),
    {
        if self.finished {
            return Err(error_with(ErrKind::InvalidDocument, "SRX writer already finished"));
        }
        let mut out: Vec<u8> = Vec::new();
        write_row_events(&mut out, row);
        assert(Seq::<u8>::empty() + outs_bytes(row_outs(row.entries())) =~= outs_bytes(row_outs(row.entries())));
        Ok(out)
    }

    /// Closes the document: the bytes `</results></sparql>` and a newline.
    /// A finished writer refuses with `InvalidDocument`.
    pub fn finish(&mut self) -> (r: Result<Vec<u8>, SparqlResultsError>)
        ensures
            old(self).is_finished() ==> (r matches Err(e) && e.kind() == ErrKind::InvalidDocument
                && e.message() == "SRX writer already finished"@ && *final(self) == *old(self)),
            !old(self).is_finished() ==> (r matches Ok(b) && b@ == outs_bytes(select_end_outs()) + seq![10u8]
                && final(self).is_finished()),
    {
        if self.finished {
            return Err(error_with(ErrKind::InvalidDocument, "SRX writer already finished"));
        }
        self.finished = true;
        let mut out: Vec<u8> = Vec::new();
        put_select_end(&mut out);
        assert(Seq::<u8>::empty() + outs_bytes(select_end_outs()) + seq![10u8] =~= outs_bytes(select_end_outs())
            + seq![10u8]);
        Ok(out)
    }
}

/// The whole SRX document of a result: a SELECT written through
/// [`SrxWriter`] row by row, or an ASK document.
pub fn write_srx_bytes(result: &SparqlResult) -> (bytes: Vec<u8>)
    ensures
        bytes@ == srx_document(*result),
        srx_result_reads_back(*result),
        result matches SparqlResult::Select { rows, .. } ==> rows_unique(rows_entries(rows@)),
        srx_parse(srx_read_back(*result)) == Ok::<ResultView, ErrKind>(result_view(*result)),
{
    match result {
        SparqlResult::Select { vars, rows } => {
            let (mut w, mut out) = SrxWriter::start_select(vars.as_slice());
            let ghost rs = rows_entries(rows@);
            let ghost head = select_start_outs(texts(vars@));
            let mut k: usize = 0;
            assert(head + rows_outs(rs.take(0)) =~= head);
            while k < rows.len()
                invariant
                    rs == rows_entries(rows@),
                    head == select_start_outs(texts(vars@)),
                    0 <= k <= rows@.len(),
                    !w.is_finished(),
                    out@ == outs_bytes(head + rows_outs(rs.take(k as int))),
                    forall|i: int| 0 <= i < k ==> entries_read_back(#[trigger] rs[i]) && keys_unique(rs[i]),
                decreases rows@.len() - k,
            {
                match w.write_row(&rows[k]) {
                    Ok(b) => {
                        append_bytes(&mut out, b.as_slice());
                        proof {
                            let cur = head + rows_outs(rs.take(k as int));
                            lemma_outs_concat(cur, row_outs(rs[k as int]));
                            let t = rs.take(k + 1);
                            assert(t.drop_last() =~= rs.take(k as int));
                            assert(t.last() == rs[k as int]);
                            assert(cur + row_outs(rs[k as int]) =~= head + rows_outs(t));
                        }
                    },
                    Err(_) => {},
                }
                k = k + 1;
            }
            assert(rs.take(rows@.len() as int) =~= rs);
            match w.finish() {
                Ok(b) => {
                    append_bytes(&mut out, b.as_slice());
                    proof {
                        lemma_outs_concat(head + rows_outs(rs), select_end_outs());
                    }
                },
                Err(_) => {},
            }
            proof {
                assert(rows_read_back(rs) && rows_unique(rs)) by {
                    assert forall|i: int| 0 <= i < rs.len() implies entries_read_back(#[trigger] rs[i]) by {}
                    assert forall|i: int| 0 <= i < rs.len() implies keys_unique(#[trigger] rs[i]) by {}
                }
                assert(rows@.len() <= u64::MAX);
                lemma_srx_round_trip(*result);
            }
            out
        },
        SparqlResult::Ask { result } => {
            let mut out: Vec<u8> = Vec::new();
            proof {
                lemma_srx_round_trip(SparqlResult::Ask { result: *result });
            }
            put_ask(&mut out, *result);
            assert(Seq::<u8>::empty() + outs_bytes(ask_outs(*result)) + seq![10u8] =~= outs_bytes(ask_outs(*result))
                + seq![10u8]);
            out
        },
    }
}

} // verus!
