use indexmap::IndexMap;
use quick_xml::events::{BytesStart, Event};
use quick_xml::reader::Reader;
use sparql_results::{
    parse_srx_events, write_srx_bytes, BaseDirection, ResultRow, ResultValue, SparqlResult, SparqlResultsError,
    SrxCanonicalizer, SrxEvent, SrxOutcome, SrxParser, SrxStreamKind, SrxWriter, XmlAttribute, XmlEvent, XmlTag,
};

fn tag(e: &BytesStart<'_>) -> XmlTag {
    let mut attributes = Vec::new();
    let mut malformed = None;
    for attr in e.attributes() {
        match attr {
            Ok(a) => attributes.push(XmlAttribute { key: a.key.as_ref().to_vec(), value: a.value.to_vec() }),
            Err(err) => {
                malformed = Some(err.to_string());
                break;
            }
        }
    }
    XmlTag { name: e.name().as_ref().to_vec(), attributes, malformed }
}

/// The XML events of a document, as the reader reports them.
fn events(xml: &[u8]) -> Vec<XmlEvent> {
    let mut reader = Reader::from_reader(xml);
    let mut buf = Vec::new();
    let mut out = Vec::new();
    loop {
        let event = reader.read_event_into(&mut buf).expect("well-formed XML");
        let converted = match event {
            Event::Start(e) => XmlEvent::Start(tag(&e)),
            Event::Empty(e) => XmlEvent::Empty(tag(&e)),
            Event::End(e) => XmlEvent::End(e.name().as_ref().to_vec()),
            Event::Text(e) => XmlEvent::Text(e.as_ref().to_vec()),
            Event::CData(e) => XmlEvent::CData(e.as_ref().to_vec()),
            Event::Comment(e) => XmlEvent::Comment(e.as_ref().to_vec()),
            Event::Decl(e) => XmlEvent::Decl(e.as_ref().to_vec()),
            Event::PI(e) => XmlEvent::PI(e.as_ref().to_vec()),
            Event::DocType(e) => XmlEvent::DocType(e.as_ref().to_vec()),
            Event::GeneralRef(e) => XmlEvent::GeneralRef(e.as_ref().to_vec()),
            Event::Eof => XmlEvent::Eof,
        };
        let end = matches!(converted, XmlEvent::Eof);
        out.push(converted);
        if end {
            return out;
        }
        buf.clear();
    }
}

fn parse(xml: &[u8]) -> Result<SparqlResult, SparqlResultsError> {
    parse_srx_events(&events(xml))
}

fn canonical(xml: &str) -> String {
    let mut canon = SrxCanonicalizer::new();
    let mut out = Vec::new();
    for event in events(xml.as_bytes()) {
        let step = canon.step(&event);
        out.extend_from_slice(&step.bytes);
        assert!(step.error.is_none(), "canonicalizes");
    }
    String::from_utf8(out).expect("canonical XML is UTF-8")
}

fn row(pairs: Vec<(&str, ResultValue)>) -> ResultRow {
    let mut bindings = IndexMap::new();
    for (k, v) in pairs {
        bindings.insert(k.to_owned(), v);
    }
    ResultRow { bindings }
}

fn dir_lang_result(dir: BaseDirection) -> SparqlResult {
    SparqlResult::Select {
        vars: vec!["x".to_owned()],
        rows: vec![row(vec![(
            "x",
            ResultValue::Literal {
                value: "مرحبا".to_owned(),
                lang: Some("ar".to_owned()),
                datatype: None,
                dir: Some(dir),
            },
        )])],
    }
}

#[test]
fn bounded_srx_parser_preserves_terms_and_datatypes() {
    let xml = br#"<sparql xmlns="http://www.w3.org/2005/sparql-results#"><head><variable name="x"/></head><results><result><binding name="x"><triple><subject><uri>urn:s</uri></subject><predicate><uri>urn:p</uri></predicate><object><literal datatype="urn:mime:text">v</literal></object></triple></binding></result></results></sparql>"#;
    let result = parse(xml).unwrap();
    assert!(
        matches!(result, SparqlResult::Select { rows, .. } if matches!(rows[0].bindings["x"], ResultValue::Triple { .. }))
    );
}

#[test]
fn malformed_srx_documents_are_refused() {
    let err = parse(br"<sparql><head></head><results>").unwrap_err();
    assert!(matches!(err, SparqlResultsError::Xml(_) | SparqlResultsError::MissingElement(_)));
}

#[test]
fn srx_writer_round_trips() {
    let result = SparqlResult::Select {
        vars: vec!["x".to_owned(), "y".to_owned()],
        rows: vec![
            row(vec![(
                "x",
                ResultValue::Literal {
                    value: "v <&> 'q' \"d\"".to_owned(),
                    lang: Some("en".to_owned()),
                    datatype: Some("urn:mime:text".to_owned()),
                    dir: None,
                },
            )]),
            row(vec![
                ("y", ResultValue::BNode("b0".to_owned())),
                (
                    "x",
                    ResultValue::Triple {
                        subject: Box::new(ResultValue::Uri("urn:s".to_owned())),
                        predicate: Box::new(ResultValue::Uri("urn:p?a=1&b=2".to_owned())),
                        object: Box::new(ResultValue::Literal {
                            value: String::new(),
                            lang: None,
                            datatype: None,
                            dir: None,
                        }),
                    },
                ),
            ]),
        ],
    };
    let bytes = write_srx_bytes(&result);
    assert_eq!(parse(&bytes).unwrap(), result);
    let ask = SparqlResult::Ask { result: true };
    assert_eq!(parse(&write_srx_bytes(&ask)).unwrap(), ask);
}

#[test]
fn srx_writer_emits_exact_bytes() {
    let (mut writer, head) = SrxWriter::start_select(&["x".to_owned()]);
    assert_eq!(
        String::from_utf8(head).unwrap(),
        r#"<?xml version="1.0"?><sparql xmlns="http://www.w3.org/2005/sparql-results#"><head><variable name="x"/></head><results>"#
    );
    let r = writer.write_row(&row(vec![("x", ResultValue::Uri("urn:a&b".to_owned()))])).unwrap();
    assert_eq!(
        String::from_utf8(r).unwrap(),
        r#"<result><binding name="x"><uri>urn:a&amp;b</uri></binding></result>"#
    );
    assert_eq!(String::from_utf8(writer.finish().unwrap()).unwrap(), "</results></sparql>\n");
    let err = writer.finish().unwrap_err();
    assert_eq!(err, SparqlResultsError::InvalidDocument("SRX writer already finished".to_owned()));
    assert_eq!(
        String::from_utf8(write_srx_bytes(&SparqlResult::Ask { result: false })).unwrap(),
        "<?xml version=\"1.0\"?><sparql xmlns=\"http://www.w3.org/2005/sparql-results#\"><head/><boolean>false</boolean></sparql>\n"
    );
}

#[test]
fn srx_serializes_base_direction_with_its_namespace() {
    let result = dir_lang_result(BaseDirection::Rtl);
    let xml = String::from_utf8(write_srx_bytes(&result)).unwrap();
    assert!(
        xml.contains(r#"<literal xml:lang="ar" its:dir="rtl" xmlns:its="http://www.w3.org/2005/11/its">"#),
        "SRX must emit its:dir and its namespace on the literal: {xml}"
    );
    assert!(
        !xml.contains(r#"<sparql xmlns="http://www.w3.org/2005/sparql-results#" xmlns:its"#),
        "SRX must not declare the its namespace on the root: {xml}"
    );
}

#[test]
fn srx_parses_base_direction() {
    let xml = r#"<sparql xmlns="http://www.w3.org/2005/sparql-results#" xmlns:its="http://www.w3.org/2005/11/its"><head><variable name="x"/></head><results><result><binding name="x"><literal xml:lang="ar" its:dir="rtl">مرحبا</literal></binding></result></results></sparql>"#;
    let result = parse(xml.as_bytes()).unwrap();
    let SparqlResult::Select { rows, .. } = result else {
        panic!("expected SELECT result");
    };
    assert_eq!(
        rows[0].bindings["x"],
        ResultValue::Literal {
            value: "مرحبا".to_owned(),
            lang: Some("ar".to_owned()),
            datatype: None,
            dir: Some(BaseDirection::Rtl),
        }
    );
}

#[test]
fn srx_round_trip_and_canonicalize_preserve_base_direction() {
    let result = dir_lang_result(BaseDirection::Rtl);
    let xml = write_srx_bytes(&result);
    assert_eq!(parse(&xml).unwrap(), result, "SRX round-trip must preserve dir");
    let canonical = canonical(std::str::from_utf8(&xml).unwrap());
    assert!(canonical.contains(r#"its:dir="rtl""#), "canonicalize must preserve its:dir: {canonical}");
}

#[test]
fn srx_text_resolves_entities_and_cdata() {
    let xml = br#"<sparql><head><variable name="x"/></head><results><result><binding name="x"><literal>a&amp;b&#x41;&#66;&bogus;&#xD800;<![CDATA[<c>]]></literal></binding></result></results></sparql>"#;
    let SparqlResult::Select { rows, .. } = parse(xml).unwrap() else {
        panic!("expected SELECT result");
    };
    assert_eq!(
        rows[0].bindings["x"],
        ResultValue::Literal { value: "a&bAB&bogus;&#xD800;<c>".to_owned(), lang: None, datatype: None, dir: None }
    );
}

#[test]
fn srx_boolean_documents() {
    let ask = parse(b"<sparql><head/><boolean>\n  true \t</boolean></sparql>").unwrap();
    assert_eq!(ask, SparqlResult::Ask { result: true });
    let bad = parse(b"<sparql><head/><boolean>yes</boolean></sparql>").unwrap_err();
    assert!(matches!(bad, SparqlResultsError::InvalidDocument(_)));
    let twice = parse(b"<sparql><head/><boolean>true</boolean><boolean>false</boolean></sparql>").unwrap_err();
    assert!(matches!(twice, SparqlResultsError::InvalidDocument(_)));
}

#[test]
fn srx_error_kinds() {
    let unclosed = parse(b"<sparql><head/><results></results>").unwrap_err();
    assert!(matches!(unclosed, SparqlResultsError::MissingElement(_)));
    let unknown = parse(b"<sparql><head/><bogus/></sparql>").unwrap_err();
    assert!(matches!(unknown, SparqlResultsError::UnexpectedElement(_)));
    let nothing = parse(b"<sparql><head/></sparql>").unwrap_err();
    assert!(matches!(nothing, SparqlResultsError::MissingElement(_)));
    let unnamed = parse(b"<sparql><head><variable/></head><results/></sparql>").unwrap_err();
    assert!(matches!(unnamed, SparqlResultsError::MissingElement(_)));
    let bad_dir = parse(
        b"<sparql><head/><results><result><binding name=\"x\"><literal dir=\"up\">v</literal></binding></result></results></sparql>",
    )
    .unwrap_err();
    assert!(matches!(bad_dir, SparqlResultsError::InvalidDocument(_)));
}

#[test]
fn empty_result_element_is_an_empty_row() {
    let parsed = parse(b"<sparql><head><variable name=\"x\"/></head><results><result/></results></sparql>").unwrap();
    assert_eq!(
        parsed,
        SparqlResult::Select { vars: vec!["x".to_owned()], rows: vec![ResultRow { bindings: IndexMap::new() }] }
    );
}

#[test]
fn variable_with_end_tag_reads_like_empty_variable() {
    let long = parse(b"<sparql><head><variable name='x'></variable></head><results></results></sparql>").unwrap();
    let short = parse(b"<sparql><head><variable name='x'/></head><results></results></sparql>").unwrap();
    assert_eq!(long, short);
    assert_eq!(long, SparqlResult::Select { vars: vec!["x".to_owned()], rows: vec![] });
}

#[test]
fn srx_streaming_parser_reports_events_in_order() {
    let xml = br#"<sparql><head><variable name="a"/><variable name="b"/></head><results><result><binding name="a"><bnode>x</bnode></binding><binding name="a"><bnode>y</bnode></binding></result><result></result></results></sparql>"#;
    let mut parser = SrxParser::new();
    let mut seen = Vec::new();
    for event in events(xml) {
        let out = parser.step(event);
        match out.event {
            Some(SrxEvent::Header(v)) => seen.push(format!("header {}", v.join(","))),
            Some(SrxEvent::Row(r)) => seen.push(format!("row {}", r.bindings.len())),
            Some(SrxEvent::Ask(b)) => seen.push(format!("ask {b}")),
            None => {}
        }
        match out.outcome {
            SrxOutcome::Continue => {}
            SrxOutcome::Finished(summary) => {
                assert_eq!(summary.kind, SrxStreamKind::Select);
                assert_eq!(summary.row_count, 2);
                break;
            }
            SrxOutcome::Failed(e) => panic!("unexpected error {e:?}"),
        }
    }
    assert_eq!(seen, vec!["header a,b".to_owned(), "row 1".to_owned(), "row 0".to_owned()]);
}

#[test]
fn fixture_form_and_writer_form_canonicalize_equal() {
    let fixture = "<sparql xmlns='http://www.w3.org/2005/sparql-results#'>\n\
                   <head>\n<variable name='x'/>\n</head>\n\
                   <results>\n<result>\n\
                   <binding name='x'><uri>http://ex/a</uri></binding>\n\
                   </result>\n</results>\n</sparql>\n";
    let writer_form = "<?xml version=\"1.0\"?>\n\
                       <sparql xmlns=\"http://www.w3.org/2005/sparql-results#\">\n  \
                       <head>\n    <variable name=\"x\"/>\n  </head>\n  \
                       <results>\n    <result>\n      \
                       <binding name=\"x\">\n        \
                       <uri>http://ex/a</uri>\n      </binding>\n    \
                       </result>\n  </results>\n</sparql>\n";
    let a = canonical(fixture);
    let b = canonical(writer_form);
    assert_eq!(a, b, "canonical forms must match");
}

#[test]
fn meaningful_text_is_preserved() {
    let input = "<sparql xmlns='http://www.w3.org/2005/sparql-results#'>\n\
                 <head><variable name='x'/></head>\n\
                 <results>\n<result><binding name='x'>\
                 <literal datatype='http://www.w3.org/2001/XMLSchema#integer'>2</literal>\
                 </binding></result>\n</results>\n</sparql>\n";
    let canonical = canonical(input);
    assert!(canonical.contains(">2<"), "literal content must survive: {canonical}");
}

#[test]
fn empty_open_close_collapses_to_self_closing() {
    let open_close = "<sparql xmlns=\"http://www.w3.org/2005/sparql-results#\">\
                      <head></head><boolean>true</boolean></sparql>";
    let self_closing = "<sparql xmlns=\"http://www.w3.org/2005/sparql-results#\">\
                        <head/><boolean>true</boolean></sparql>";
    assert_eq!(canonical(open_close), canonical(self_closing));
}

#[test]
fn xml_declaration_is_dropped() {
    let with_decl = "<?xml version=\"1.0\"?>\n\
                     <sparql xmlns=\"http://www.w3.org/2005/sparql-results#\">\
                     <head/><boolean>true</boolean></sparql>";
    let without_decl = "<sparql xmlns=\"http://www.w3.org/2005/sparql-results#\">\
                        <head/><boolean>true</boolean></sparql>";
    assert_eq!(canonical(with_decl), canonical(without_decl));
}

#[test]
fn canonical_form_exact_bytes() {
    let input = "<!-- c --><a x='1&amp;2' y=\"&lt;\"><b></b><c>t</c>&amp;<![CDATA[z]]></a>";
    assert_eq!(
        canonical(input),
        "<a x=\"1&amp;2\" y=\"&lt;\"><b/><c>t</c>&amp;<![CDATA[z]]></a>"
    );
}

#[test]
fn duplicate_attribute_after_the_one_read_is_an_xml_error() {
    let xml = br#"<sparql xmlns="http://www.w3.org/2005/sparql-results#"><head><variable name="x"/></head><results><result><binding name="x"><literal xml:lang="en" xml:lang="fr">v</literal></binding></result></results></sparql>"#;
    let err = parse(xml).unwrap_err();
    assert!(matches!(err, SparqlResultsError::Xml(_)));
}

#[test]
fn srx_writer_pieces_join_to_whole_document() {
    let vars = vec!["x".to_owned()];
    let rows = vec![
        row(vec![("x", ResultValue::Uri("urn:a&b".to_owned()))]),
        row(vec![("x", ResultValue::BNode("b0".to_owned()))]),
    ];
    let (mut writer, mut bytes) = SrxWriter::start_select(&vars);
    for r in &rows {
        bytes.extend(writer.write_row(r).unwrap());
    }
    bytes.extend(writer.finish().unwrap());
    assert_eq!(bytes, write_srx_bytes(&SparqlResult::Select { vars, rows }));
}

#[test]
fn reader_failure_inside_an_invalid_row_reports_the_row_error() {
    let all = events(b"<sparql><head/><results><result><foo/></result></results></sparql>");
    let mut parser = SrxParser::new();
    for event in all.into_iter().take(5) {
        let out = parser.step(event);
        assert!(matches!(out.outcome, SrxOutcome::Continue));
    }
    let err = parser.interrupted(SparqlResultsError::Xml("reader failed".to_owned()));
    assert!(matches!(err, SparqlResultsError::UnexpectedElement(_)));
    let fresh = SrxParser::new();
    let err = fresh.interrupted(SparqlResultsError::Xml("reader failed".to_owned()));
    assert_eq!(err, SparqlResultsError::Xml("reader failed".to_owned()));
}

#[test]
fn canonical_form_is_a_fixed_point() {
    let xml = r#"<?xml version="1.0"?>
<!-- c --><sparql xmlns="http://www.w3.org/2005/sparql-results#">
  <head><variable name='x'></variable></head>
  <results><result><binding name="x"><literal xml:lang='en' datatype="urn:a&amp;b">a &lt; b</literal></binding></result>
  <result></result></results>
</sparql>"#;
    let once = canonical(xml);
    assert_eq!(canonical(&once), once);
}
