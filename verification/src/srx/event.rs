//! The XML events that drive the SRX parser and canonicalizer, as plain
//! values, and the attribute lookups on a tag.

use vstd::prelude::*;
use vstd::utf8::*;

use crate::error::{error_with, make_error, ErrKind, SparqlResultsError};
use crate::messages::{invalid_direction_message, prefixed_bytes_message};
use crate::text::bytes_are;
use crate::types::{direction_of_token, parse_base_direction, BaseDirection};

verus! {

/// An attribute of a tag: its key and its value as written in the document
/// (before entity references are resolved).
#[derive(Debug, Clone)]
pub struct XmlAttribute {
    pub key: Vec<u8>,
    pub value: Vec<u8>,
}

/// A start or empty-element tag: the element name, the attributes that
/// could be read, and the error met while reading them, if any (attributes
/// after a malformed one are not listed).
#[derive(Debug, Clone)]
pub struct XmlTag {
    pub name: Vec<u8>,
    pub attributes: Vec<XmlAttribute>,
    pub malformed: Option<String>,
}

/// One XML event as the reader reports it. Text-like payloads are the raw
/// bytes of the document.
#[derive(Debug, Clone)]
pub enum XmlEvent {
    Start(XmlTag),
    Empty(XmlTag),
    End(Vec<u8>),
    Text(Vec<u8>),
    CData(Vec<u8>),
    Comment(Vec<u8>),
    Decl(Vec<u8>),
    PI(Vec<u8>),
    DocType(Vec<u8>),
    GeneralRef(Vec<u8>),
    Eof,
}

/// The value of a tag.
pub struct XTag {
    pub name: Seq<u8>,
    pub attrs: Seq<(Seq<u8>, Seq<u8>)>,
    pub malformed: bool,
}

/// The value of an event.
pub enum XEv {
    Start(XTag),
    Empty(XTag),
    End(Seq<u8>),
    Text(Seq<u8>),
    CData(Seq<u8>),
    Comment(Seq<u8>),
    Decl(Seq<u8>),
    PI(Seq<u8>),
    DocType(Seq<u8>),
    GeneralRef(Seq<u8>),
    Eof,
}

impl View for XmlTag {
    type V = XTag;

    open spec fn view(&self) -> XTag {
        XTag {
            name: self.name@,
            attrs: self.attributes@.map_values(|a: XmlAttribute| (a.key@, a.value@)),
            malformed: self.malformed is Some,
        }
    }
}

impl View for XmlEvent {
    type V = XEv;

    open spec fn view(&self) -> XEv {
        match self {
            XmlEvent::Start(t) => XEv::Start(t@),
            XmlEvent::Empty(t) => XEv::Empty(t@),
            XmlEvent::End(n) => XEv::End(n@),
            XmlEvent::Text(b) => XEv::Text(b@),
            XmlEvent::CData(b) => XEv::CData(b@),
            XmlEvent::Comment(b) => XEv::Comment(b@),
            XmlEvent::Decl(b) => XEv::Decl(b@),
            XmlEvent::PI(b) => XEv::PI(b@),
            XmlEvent::DocType(b) => XEv::DocType(b@),
            XmlEvent::GeneralRef(b) => XEv::GeneralRef(b@),
            XmlEvent::Eof => XEv::Eof,
        }
    }
}

/// A copy of bytes.
pub fn copy_bytes(v: &Vec<u8>) -> (r: Vec<u8>)
    ensures
        r@ == v@,
{
    let mut r: Vec<u8> = Vec::new();
    let mut i: usize = 0;
    while i < v.len()
        invariant
            0 <= i <= v@.len(),
            r@ == v@.subrange(0, i as int),
        decreases v@.len() - i,
    {
        r.push(v[i]);
        i = i + 1;
        assert(v@.subrange(0, i as int) =~= v@.subrange(0, i - 1).push(v@[i - 1]));
    }
    assert(v@.subrange(0, v@.len() as int) =~= v@);
    r
}

impl XmlTag {
    /// A copy of the tag.
    pub fn duplicate(&self) -> (r: XmlTag)
        ensures
            r@ == self@,
    {
        let mut attributes: Vec<XmlAttribute> = Vec::new();
        let mut i: usize = 0;
        while i < self.attributes.len()
            invariant
                0 <= i <= self.attributes@.len(),
                attributes@.len() == i,
                forall|j: int|
                    0 <= j < i ==> #[trigger] attributes@[j].key@ == self.attributes@[j].key@
                        && attributes@[j].value@ == self.attributes@[j].value@,
            decreases self.attributes@.len() - i,
        {
            let a = XmlAttribute {
                key: copy_bytes(&self.attributes[i].key),
                value: copy_bytes(&self.attributes[i].value),
            };
            attributes.push(a);
            i = i + 1;
        }
        let r = XmlTag { name: copy_bytes(&self.name), attributes, malformed: None };
        assert(r@.attrs =~= self@.attrs);
        let malformed = match &self.malformed {
            Some(m) => Some(m.clone()),
            None => None,
        };
        XmlTag { malformed, ..r }
    }
}

impl XmlEvent {
    /// A copy of the event.
    pub fn duplicate(&self) -> (r: XmlEvent)
        ensures
            r@ == self@,
    {
        match self {
            XmlEvent::Start(t) => XmlEvent::Start(t.duplicate()),
            XmlEvent::Empty(t) => XmlEvent::Empty(t.duplicate()),
            XmlEvent::End(b) => XmlEvent::End(copy_bytes(b)),
            XmlEvent::Text(b) => XmlEvent::Text(copy_bytes(b)),
            XmlEvent::CData(b) => XmlEvent::CData(copy_bytes(b)),
            XmlEvent::Comment(b) => XmlEvent::Comment(copy_bytes(b)),
            XmlEvent::Decl(b) => XmlEvent::Decl(copy_bytes(b)),
            XmlEvent::PI(b) => XmlEvent::PI(copy_bytes(b)),
            XmlEvent::DocType(b) => XmlEvent::DocType(copy_bytes(b)),
            XmlEvent::GeneralRef(b) => XmlEvent::GeneralRef(copy_bytes(b)),
            XmlEvent::Eof => XmlEvent::Eof,
        }
    }
}

/// The values of a list of events.
pub open spec fn evs(es: Seq<XmlEvent>) -> Seq<XEv> {
    es.map_values(|e: XmlEvent| e@)
}

/// The position of the last byte `b` in `raw`.
pub open spec fn last_index_of(raw: Seq<u8>, b: u8) -> Option<int>
    decreases raw.len(),
{
    if raw.len() == 0 {
        None
    } else if raw.last() == b {
        Some(raw.len() - 1)
    } else {
        last_index_of(raw.drop_last(), b)
    }
}

/// The local part of a qualified name: what follows its last `:`.
pub open spec fn local_name(raw: Seq<u8>) -> Seq<u8> {
    match last_index_of(raw, 58) {
        Some(p) => raw.subrange(p + 1, raw.len() as int),
        None => raw,
    }
}

/// Where the local part of a name starts.
pub fn local_start(raw: &[u8]) -> (k: usize)
    ensures
        k <= raw@.len(),
        raw@.subrange(k as int, raw@.len() as int) == local_name(raw@),
{
    let mut i: usize = raw.len();
    assert(raw@.subrange(0, raw@.len() as int) =~= raw@);
    while i > 0 && raw[i - 1] != 58
        invariant
            0 <= i <= raw@.len(),
            last_index_of(raw@, 58) == last_index_of(raw@.subrange(0, i as int), 58),
        decreases i,
    {
        assert(raw@.subrange(0, i as int).drop_last() =~= raw@.subrange(0, i - 1));
        i = i - 1;
    }
    if i == 0 {
        assert(raw@.subrange(0, 0) =~= Seq::<u8>::empty());
        assert(raw@.subrange(0, raw@.len() as int) =~= raw@);
        0
    } else {
        assert(raw@.subrange(0, i as int).last() == 58);
        i
    }
}

/// Whether the local part of a name is the given text.
pub fn local_name_is(raw: &[u8], lit: &str) -> (r: bool)
    ensures
        r == (local_name(raw@) == encode_utf8(lit@)),
{
    let k = local_start(raw);
    bytes_are(&raw[k..raw.len()], lit)
}

/// The first attribute of the list with the given key.
pub open spec fn find_attr(attrs: Seq<(Seq<u8>, Seq<u8>)>, key: Seq<u8>) -> Option<int>
    decreases attrs.len(),
{
    if attrs.len() == 0 {
        None
    } else if attrs[0].0 == key {
        Some(0)
    } else {
        match find_attr(attrs.drop_first(), key) {
            Some(i) => Some(i + 1),
            None => None,
        }
    }
}

/// The first attribute whose key's local part is `dir`.
pub open spec fn find_dir_attr(attrs: Seq<(Seq<u8>, Seq<u8>)>) -> Option<int>
    decreases attrs.len(),
{
    if attrs.len() == 0 {
        None
    } else if local_name(attrs[0].0) == encode_utf8("dir"@) {
        Some(0)
    } else {
        match find_dir_attr(attrs.drop_first()) {
            Some(i) => Some(i + 1),
            None => None,
        }
    }
}

/// The text that `quick_xml` unescapes an attribute value to, if it
/// accepts it.
pub uninterp spec fn xml_unescape(raw: Seq<u8>) -> Option<Seq<char>>;

/// `quick_xml::events::attributes::Attribute::unescape_value`: decodes the
/// raw value as UTF-8 and resolves its entity and character references.
/// What it returns is named by `xml_unescape`; the error's message is left
/// unstated.
#[verifier::external_body]
fn unescape_value(raw: &[u8]) -> (r: Result<Vec<char>, String>)
    ensures
        r is Ok <==> xml_unescape(raw@) is Some,
        r matches Ok(s) ==> xml_unescape(raw@) == Some(s@),
{
    let attribute = quick_xml::events::attributes::Attribute {
        key: quick_xml::name::QName(b"value"),
        value: std::borrow::Cow::Borrowed(raw),
    };
    match attribute.unescape_value() {
        Ok(text) => Ok(text.chars().collect()),
        Err(err) => Err(err.to_string()),
    }
}

/// The unescaped value of an attribute, if `quick_xml` accepts it.
pub fn unescape_chars(raw: &[u8]) -> (r: Option<Vec<char>>)
    ensures
        r matches Some(s) ==> xml_unescape(raw@) == Some(s@),
        r is None ==> xml_unescape(raw@) is None,
{
    match unescape_value(raw) {
        Ok(s) => Some(s),
        Err(_) => None,
    }
}

/// `std::str::from_utf8`: the characters of the bytes when they are valid
/// UTF-8.
#[verifier::external_body]
pub(crate) fn decode_utf8_chars(bytes: &[u8]) -> (r: Option<Vec<char>>)
    ensures
        r is Some <==> valid_utf8(bytes@),
        r matches Some(s) ==> s@ == decode_utf8(bytes@),
{
    match std::str::from_utf8(bytes) {
        Ok(s) => Some(s.chars().collect()),
        Err(_) => None,
    }
}

/// `String::from_iter` over characters: the string of these characters.
#[verifier::external_body]
pub(crate) fn string_from_chars(chars: &[char]) -> (s: String)
    ensures
        s@ == chars@,
{
    chars.iter().collect()
}

/// The unescaped value of an attribute found at `i`.
pub open spec fn attr_text(tag: XTag, i: int) -> Result<Seq<char>, ErrKind> {
    match xml_unescape(tag.attrs[i].1) {
        Some(s) => Ok(s),
        None => Err(ErrKind::Xml),
    }
}

/// A required attribute: its text, an XML error if it cannot be read, or a
/// missing-element error if the tag has none.
pub open spec fn required_attr(tag: XTag, key: Seq<u8>) -> Result<Seq<char>, ErrKind> {
    match find_attr(tag.attrs, key) {
        Some(i) => attr_text(tag, i),
        None => if tag.malformed {
            Err(ErrKind::Xml)
        } else {
            Err(ErrKind::MissingElement)
        },
    }
}

/// An optional attribute: its text if present.
pub open spec fn optional_attr(tag: XTag, key: Seq<u8>) -> Result<Option<Seq<char>>, ErrKind> {
    match find_attr(tag.attrs, key) {
        Some(i) => match attr_text(tag, i) {
            Ok(s) => Ok(Some(s)),
            Err(k) => Err(k),
        },
        None => if tag.malformed {
            Err(ErrKind::Xml)
        } else {
            Ok(None)
        },
    }
}

/// The base direction carried by an attribute whose local name is `dir`,
/// whatever its namespace prefix; an unknown token is an invalid document.
pub open spec fn optional_dir(tag: XTag) -> Result<Option<BaseDirection>, ErrKind> {
    match find_dir_attr(tag.attrs) {
        Some(i) => match attr_text(tag, i) {
            Ok(s) => match direction_of_token(s) {
                Some(d) => Ok(Some(d)),
                None => Err(ErrKind::InvalidDocument),
            },
            Err(k) => Err(k),
        },
        None => if tag.malformed {
            Err(ErrKind::Xml)
        } else {
            Ok(None)
        },
    }
}

/// The position of the first attribute with the given key.
fn find_attr_index(tag: &XmlTag, key: &str) -> (r: Option<usize>)
    ensures
        r matches Some(i) ==> i < tag@.attrs.len(),
        match r {
            Some(i) => find_attr(tag@.attrs, encode_utf8(key@)) == Some(i as int),
            None => find_attr(tag@.attrs, encode_utf8(key@)) is None,
        },
{
    let ghost a = tag@.attrs;
    let ghost k = encode_utf8(key@);
    let mut i: usize = 0;
    assert(a.skip(0) =~= a);
    while i < tag.attributes.len()
        invariant
            a == tag@.attrs,
            k == encode_utf8(key@),
            0 <= i <= a.len(),
            a.len() == tag.attributes@.len(),
            find_attr(a, k) == match find_attr(a.skip(i as int), k) {
                Some(j) => Some(j + i),
                None => None,
            },
        decreases a.len() - i,
    {
        assert(a[i as int] == (tag.attributes@[i as int].key@, tag.attributes@[i as int].value@));
        if bytes_are(tag.attributes[i].key.as_slice(), key) {
            assert(a.skip(i as int)[0] == a[i as int]);
            return Some(i);
        }
        assert(a.skip(i as int).drop_first() =~= a.skip(i + 1));
        i = i + 1;
    }
    None
}

/// The position of the first attribute whose key's local part is `dir`.
fn find_dir_index(tag: &XmlTag) -> (r: Option<usize>)
    ensures
        r matches Some(i) ==> i < tag@.attrs.len(),
        match r {
            Some(i) => find_dir_attr(tag@.attrs) == Some(i as int),
            None => find_dir_attr(tag@.attrs) is None,
        },
{
    let ghost a = tag@.attrs;
    let mut i: usize = 0;
    assert(a.skip(0) =~= a);
    while i < tag.attributes.len()
        invariant
            a == tag@.attrs,
            0 <= i <= a.len(),
            a.len() == tag.attributes@.len(),
            find_dir_attr(a) == match find_dir_attr(a.skip(i as int)) {
                Some(j) => Some(j + i),
                None => None,
            },
        decreases a.len() - i,
    {
        assert(a[i as int] == (tag.attributes@[i as int].key@, tag.attributes@[i as int].value@));
        if local_name_is(tag.attributes[i].key.as_slice(), "dir") {
            assert(a.skip(i as int)[0] == a[i as int]);
            return Some(i);
        }
        assert(a.skip(i as int).drop_first() =~= a.skip(i + 1));
        i = i + 1;
    }
    None
}

/// The unescaped value of the attribute at `i`.
fn attr_text_at(tag: &XmlTag, i: usize) -> (r: Result<String, SparqlResultsError>)
    requires
        i < tag@.attrs.len(),
    ensures
        match attr_text(tag@, i as int) {
            Ok(s) => r matches Ok(t) && t@ == s,
            Err(k) => r matches Err(e) && e.kind() == k,
        },
{
    assert(tag@.attrs[i as int].1 == tag.attributes@[i as int].value@);
    match unescape_value(tag.attributes[i].value.as_slice()) {
        Ok(chars) => Ok(string_from_chars(chars.as_slice())),
        Err(msg) => Err(make_error(ErrKind::Xml, msg)),
    }
}

/// The error for a tag whose attributes could not all be read.
fn malformed_error(tag: &XmlTag) -> (e: SparqlResultsError)
    requires
        tag.malformed is Some,
    ensures
        e.kind() == ErrKind::Xml,
        e.message() == tag.malformed->Some_0@,
{
    match &tag.malformed {
        Some(m) => make_error(ErrKind::Xml, m.clone()),
        None => error_with(ErrKind::Xml, "invalid attribute"),
    }
}

/// A required attribute of a tag.
pub fn required_attr_of(tag: &XmlTag, key: &str) -> (r: Result<String, SparqlResultsError>)
    ensures
        match required_attr(tag@, encode_utf8(key@)) {
            Ok(s) => r matches Ok(t) && t@ == s,
            Err(k) => r matches Err(e) && e.kind() == k,
        },
{
    match find_attr_index(tag, key) {
        Some(i) => attr_text_at(tag, i),
        None => if tag.malformed.is_some() {
            Err(malformed_error(tag))
        } else {
            Err(make_error(ErrKind::MissingElement, prefixed_bytes_message("SRX attribute ", key.as_bytes())))
        },
    }
}

/// An optional attribute of a tag.
pub fn optional_attr_of(tag: &XmlTag, key: &str) -> (r: Result<Option<String>, SparqlResultsError>)
    ensures
        match optional_attr(tag@, encode_utf8(key@)) {
            Ok(Some(s)) => r matches Ok(Some(t)) && t@ == s,
            Ok(None) => r matches Ok(None),
            Err(k) => r matches Err(e) && e.kind() == k,
        },
{
    match find_attr_index(tag, key) {
        Some(i) => match attr_text_at(tag, i) {
            Ok(s) => Ok(Some(s)),
            Err(e) => Err(e),
        },
        None => if tag.malformed.is_some() {
            Err(malformed_error(tag))
        } else {
            Ok(None)
        },
    }
}

/// The base direction attribute of a tag.
pub fn optional_dir_of(tag: &XmlTag) -> (r: Result<Option<BaseDirection>, SparqlResultsError>)
    ensures
        match optional_dir(tag@) {
            Ok(d) => r == Ok::<Option<BaseDirection>, SparqlResultsError>(d),
            Err(k) => r matches Err(e) && e.kind() == k,
        },
{
    match find_dir_index(tag) {
        Some(i) => match attr_text_at(tag, i) {
            Ok(s) => match parse_base_direction(s.as_str()) {
                Ok(d) => Ok(Some(d)),
                Err(err) => Err(make_error(ErrKind::InvalidDocument, invalid_direction_message(err.token().as_str()))),
            },
            Err(e) => Err(e),
        },
        None => if tag.malformed.is_some() {
            Err(malformed_error(tag))
        } else {
            Ok(None)
        },
    }
}

} // verus!
