//! Shared result-set types used by both the SRX and SRJ codecs.
//!
//! These are a faithful representation of the W3C SPARQL Query Results
//! abstract model, so they can be produced by one codec and consumed by
//! the other without conversion.

use indexmap::IndexMap;
use vstd::prelude::*;

use crate::text::str_is;

verus! {

/// The base direction of an RDF 1.2 directional language-tagged literal
/// (`rdf:dirLangString`).
///
/// The two values map to the `"ltr"` / `"rtl"` tokens used on the wire (the
/// SRJ `"its:dir"` key and the SRX `its:dir` attribute).
#[derive(Debug, Clone, Copy, PartialEq, Eq, Structural)]
pub enum BaseDirection {
    /// Left-to-right base direction (`"ltr"`).
    Ltr,
    /// Right-to-left base direction (`"rtl"`).
    Rtl,
}

/// The wire token of a base direction.
pub open spec fn direction_token(d: BaseDirection) -> Seq<char> {
    match d {
        BaseDirection::Ltr => "ltr"@,
        BaseDirection::Rtl => "rtl"@,
    }
}

/// The base direction whose wire token is `s`, if any.
pub open spec fn direction_of_token(s: Seq<char>) -> Option<BaseDirection> {
    if s == "ltr"@ {
        Some(BaseDirection::Ltr)
    } else if s == "rtl"@ {
        Some(BaseDirection::Rtl)
    } else {
        None
    }
}

impl BaseDirection {
    /// The lowercase wire token for this direction (`"ltr"` or `"rtl"`).
    pub fn as_str(self) -> (s: &'static str)
        ensures
            s@ == direction_token(self),
    {
        match self {
            BaseDirection::Ltr => "ltr",
            BaseDirection::Rtl => "rtl",
        }
    }
}

/// Error returned when a string is not a valid [`BaseDirection`] token.
///
/// The only accepted tokens are `"ltr"` and `"rtl"`.
#[derive(Debug, Clone, PartialEq, Eq)]
pub struct ParseBaseDirectionError(String);

impl ParseBaseDirectionError {
    /// The rejected token.
    pub closed spec fn token_view(&self) -> Seq<char> {
        self.0@
    }

    /// The rejected token.
    pub fn token(&self) -> (t: &String)
        ensures
            t@ == self.token_view(),
    {
        &self.0
    }
}

/// Parses a wire token into a base direction: `"ltr"` and `"rtl"` are
/// accepted, every other text is rejected and carried in the error.
pub fn parse_base_direction(s: &str) -> (r: Result<BaseDirection, ParseBaseDirectionError>)
    ensures
        match direction_of_token(s@) {
            Some(d) => r == Ok::<BaseDirection, ParseBaseDirectionError>(d),
            None => r is Err && r->Err_0.token_view() == s@,
        },
{
    if str_is(s, "ltr") {
        Ok(BaseDirection::Ltr)
    } else if str_is(s, "rtl") {
        Ok(BaseDirection::Rtl)
    } else {
        Err(ParseBaseDirectionError(s.to_owned()))
    }
}

impl core::str::FromStr for BaseDirection {
    type Err = ParseBaseDirectionError;

    fn from_str(s: &str) -> (r: Result<Self, Self::Err>)
        ensures
            match direction_of_token(s@) {
                Some(d) => r == Ok::<BaseDirection, ParseBaseDirectionError>(d),
                None => r is Err && r->Err_0.token_view() == s@,
            },
    {
        parse_base_direction(s)
    }
}

/// Reading back the token of a direction gives the direction again, and a
/// token is accepted only if it is the token of the direction it yields.
pub proof fn lemma_direction_token_round_trip(d: BaseDirection, s: Seq<char>)
    ensures
        direction_of_token(direction_token(d)) == Some(d),
        direction_of_token(s) matches Some(e) ==> direction_token(e) == s,
{
    reveal_strlit("ltr");
    reveal_strlit("rtl");
    assert("ltr"@ != "rtl"@) by {
        assert("ltr"@[0] != "rtl"@[0]);
    }
}

/// The mathematical value of an RDF term bound in a result row.
pub enum Term {
    Uri(Seq<char>),
    Literal {
        value: Seq<char>,
        lang: Option<Seq<char>>,
        datatype: Option<Seq<char>>,
        dir: Option<BaseDirection>,
    },
    BNode(Seq<char>),
    Triple { subject: Box<Term>, predicate: Box<Term>, object: Box<Term> },
}

/// A value bound to a variable inside a row binding.
///
/// The variants correspond to the `<uri>`, `<literal>`, `<bnode>` and
/// `<triple>` wrappers in SRX and to the `{ "type": ... }` tag in SRJ.
#[derive(Debug, PartialEq, Eq)]
pub enum ResultValue {
    /// An IRI.
    Uri(String),
    /// A literal (possibly with language tag, datatype and base direction).
    Literal {
        /// The lexical form.
        value: String,
        /// Optional language tag.
        lang: Option<String>,
        /// Optional datatype IRI.
        datatype: Option<String>,
        /// Optional base direction of an RDF 1.2 directional literal; it
        /// maps to the SRJ `"its:dir"` key and the SRX `its:dir` attribute.
        dir: Option<BaseDirection>,
    },
    /// A blank node identifier.
    BNode(String),
    /// RDF-star/SPARQL 1.2 embedded triple term.
    Triple {
        /// Triple subject.
        subject: Box<ResultValue>,
        /// Triple predicate.
        predicate: Box<ResultValue>,
        /// Triple object.
        object: Box<ResultValue>,
    },
}

/// The view of an optional text.
pub open spec fn opt_text(o: Option<String>) -> Option<Seq<char>> {
    match o {
        Some(s) => Some(s@),
        None => None,
    }
}

/// The term that a value denotes.
pub open spec fn term_of(v: ResultValue) -> Term
    decreases v,
{
    match v {
        ResultValue::Uri(s) => Term::Uri(s@),
        ResultValue::Literal { value, lang, datatype, dir } => Term::Literal {
            value: value@,
            lang: opt_text(lang),
            datatype: opt_text(datatype),
            dir,
        },
        ResultValue::BNode(s) => Term::BNode(s@),
        ResultValue::Triple { subject, predicate, object } => Term::Triple {
            subject: Box::new(term_of(*subject)),
            predicate: Box::new(term_of(*predicate)),
            object: Box::new(term_of(*object)),
        },
    }
}

impl View for ResultValue {
    type V = Term;

    open spec fn view(&self) -> Term {
        term_of(*self)
    }
}

/// A copy of an optional text.
pub fn clone_opt_text(o: &Option<String>) -> (r: Option<String>)
    ensures
        opt_text(r) == opt_text(*o),
{
    match o {
        Some(s) => Some(s.clone()),
        None => None,
    }
}

impl Clone for ResultValue {
    fn clone(&self) -> (r: Self)
        ensures
            r@ == self@,
        decreases self,
    {
        match self {
            ResultValue::Uri(s) => ResultValue::Uri(s.clone()),
            ResultValue::Literal { value, lang, datatype, dir } => ResultValue::Literal {
                value: value.clone(),
                lang: clone_opt_text(lang),
                datatype: clone_opt_text(datatype),
                dir: *dir,
            },
            ResultValue::BNode(s) => ResultValue::BNode(s.clone()),
            ResultValue::Triple { subject, predicate, object } => ResultValue::Triple {
                subject: Box::new((**subject).clone()),
                predicate: Box::new((**predicate).clone()),
                object: Box::new((**object).clone()),
            },
        }
    }
}

#[verifier::external_type_specification]
#[verifier::external_body]
#[verifier::reject_recursive_types(K)]
#[verifier::reject_recursive_types(V)]
#[verifier::reject_recursive_types(S)]
pub struct ExIndexMap<K, V, S>(IndexMap<K, V, S>);

/// The key/value pairs of a row's binding map, in the map's order.
pub uninterp spec fn binding_entries(m: IndexMap<String, ResultValue>) -> Seq<(Seq<char>, Term)>;

/// The first position of `k` among the keys of `e` at or after `i`.
pub open spec fn key_position_from(e: Seq<(Seq<char>, Term)>, k: Seq<char>, i: int) -> Option<int>
    decreases e.len() - i,
{
    if i < 0 || i >= e.len() {
        None
    } else if e[i].0 == k {
        Some(i)
    } else {
        key_position_from(e, k, i + 1)
    }
}

/// The first position of `k` among the keys of `e`.
pub open spec fn key_position(e: Seq<(Seq<char>, Term)>, k: Seq<char>) -> Option<int> {
    key_position_from(e, k, 0)
}

/// The entries after inserting `k => v` the way an insertion-ordered map
/// does: an existing key keeps its place and takes the new value, a new key
/// goes last.
pub open spec fn entries_insert(e: Seq<(Seq<char>, Term)>, k: Seq<char>, v: Term) -> Seq<(Seq<char>, Term)> {
    match key_position(e, k) {
        Some(i) => e.update(i, (k, v)),
        None => e.push((k, v)),
    }
}

/// No key occurs twice among the entries.
pub open spec fn keys_unique(e: Seq<(Seq<char>, Term)>) -> bool {
    forall|i: int, j: int| 0 <= i < j < e.len() ==> e[i].0 != e[j].0
}

/// `IndexMap::new`: an empty map.
#[verifier::external_body]
pub(crate) fn new_bindings() -> (m: IndexMap<String, ResultValue>)
    ensures
        binding_entries(m) == Seq::<(Seq<char>, Term)>::empty(),
{
    IndexMap::new()
}

/// `IndexMap::insert`: an existing key keeps its position and takes the
/// new value; a new key is appended last (keys compare by their text).
#[verifier::external_body]
pub(crate) fn insert_binding(m: &mut IndexMap<String, ResultValue>, key: String, value: ResultValue)
    ensures
        binding_entries(*final(m)) == entries_insert(binding_entries(*old(m)), key@, value@),
{
    m.insert(key, value);
}

/// `IndexMap::len`: the number of entries.
#[verifier::external_body]
pub(crate) fn binding_count(m: &IndexMap<String, ResultValue>) -> (n: usize)
    ensures
        n == binding_entries(*m).len(),
{
    m.len()
}

/// `IndexMap::get_index`: the entry at a position of the map's order; no
/// other entry of the map has its key.
#[verifier::external_body]
pub(crate) fn binding_at(m: &IndexMap<String, ResultValue>, i: usize) -> (r: (&String, &ResultValue))
    requires
        i < binding_entries(*m).len(),
    ensures
        r.0@ == binding_entries(*m)[i as int].0,
        r.1@ == binding_entries(*m)[i as int].1,
        forall|j: int| 0 <= j < binding_entries(*m).len() && j != i ==> #[trigger] binding_entries(*m)[j].0 != r.0@,
{
    m.get_index(i).unwrap()
}

/// A single row in a SELECT result.
///
/// Bindings are stored by variable name; a variable that was not bound in
/// this row is absent from the map.
#[derive(Debug, PartialEq, Eq)]
pub struct ResultRow {
    /// Variable bindings for this row.
    pub bindings: IndexMap<String, ResultValue>,
}

impl ResultRow {
    /// The row's bindings, in the map's order.
    pub open spec fn entries(&self) -> Seq<(Seq<char>, Term)> {
        binding_entries(self.bindings)
    }
}

/// A parsed SPARQL result set: a tabular SELECT result or an ASK boolean.
#[derive(Debug, PartialEq, Eq)]
pub enum SparqlResult {
    /// SELECT query result: the projected variables plus one row per solution.
    Select {
        /// Variable names, in the order the producer declared them.
        vars: Vec<String>,
        /// Result rows.
        rows: Vec<ResultRow>,
    },
    /// ASK query result: a single boolean.
    Ask {
        /// The boolean answer.
        result: bool,
    },
}

} // verus!
