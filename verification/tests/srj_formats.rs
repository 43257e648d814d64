use indexmap::IndexMap;
use sparql_results::{
    parse_srj_document, scan_token, write_srj_bytes, BaseDirection, ResultRow, ResultValue, Scanned,
    SparqlResult, SparqlResultsError, SrjEvent, SrjOutcome, SrjParser, SrjStreamKind, SrjWriter, Token,
};

fn literal(value: &str) -> ResultValue {
    ResultValue::Literal { value: value.to_owned(), lang: None, datatype: None, dir: None }
}

fn row(pairs: Vec<(&str, ResultValue)>) -> ResultRow {
    let mut bindings = IndexMap::new();
    for (k, v) in pairs {
        bindings.insert(k.to_owned(), v);
    }
    ResultRow { bindings }
}

fn dir_lang_result(dir: BaseDirection) -> SparqlResult {
    SparqlResult::Select {
        vars: vec!["x".to_owned()],
        rows: vec![row(vec![(
            "x",
            ResultValue::Literal {
                value: "مرحبا".to_owned(),
                lang: Some("ar".to_owned()),
                datatype: None,
                dir: Some(dir),
            },
        )])],
    }
}

/// Feeds the bytes to the streaming parser token by token, handing it
/// one byte more at a time, and counts the events.
fn stream_events(input: &[u8]) -> (Result<sparql_results::SrjStreamSummary, SparqlResultsError>, usize, Vec<String>) {
    let mut parser = SrjParser::new();
    let mut rows = 0;
    let mut vars = Vec::new();
    let mut start = 0;
    let mut end = 0;
    loop {
        let at_eof = end == input.len();
        match scan_token(&input[start..end], at_eof) {
            Scanned::NeedMore => {
                end += 1;
            }
            Scanned::Failed(e) => return (Err(parser.interrupted(e)), rows, vars),
            Scanned::Token(token, n) => {
                start += n;
                if end < start {
                    end = start;
                }
                let out = parser.step(token);
                match out.event {
                    Some(SrjEvent::Header(v)) => vars = v,
                    Some(SrjEvent::Row(_)) => rows += 1,
                    Some(SrjEvent::Ask(_)) | None => {}
                }
                match out.outcome {
                    SrjOutcome::Continue => {}
                    SrjOutcome::Finished(summary) => return (Ok(summary), rows, vars),
                    SrjOutcome::Failed(e) => return (Err(e), rows, vars),
                }
            }
        }
    }
}

#[test]
fn bounded_parsers_preserve_terms_and_datatypes() {
    let json = br#"{"head":{"vars":["x"]},"results":{"bindings":[{"x":{"type":"triple","value":{"subject":{"type":"uri","value":"urn:s"},"predicate":{"type":"uri","value":"urn:p"},"object":{"type":"literal","value":"v","datatype":"urn:mime:text"}}}}]}}"#;
    let result = parse_srj_document(json).unwrap();
    assert!(
        matches!(result, SparqlResult::Select { rows, .. } if matches!(rows[0].bindings["x"], ResultValue::Triple { .. }))
    );
}

#[test]
fn streaming_thousands_of_rows_does_not_require_expected_row_storage() {
    let mut json = String::from(r#"{"head":{"vars":["x"]},"results":{"bindings":["#);
    for r in 0..2_000 {
        if r != 0 {
            json.push(',');
        }
        json.push_str(&format!(r#"{{"x":{{"type":"literal","value":"{r}"}}}}"#));
    }
    json.push_str("]}}");
    let (summary, rows, vars) = stream_events(json.as_bytes());
    let summary = summary.unwrap();
    assert_eq!(summary.row_count, 2_000);
    assert_eq!(rows, 2_000);
    assert_eq!(vars, vec!["x".to_owned()]);
    assert_eq!(summary.kind, SrjStreamKind::Select);
}

#[test]
fn malformed_srj_document_is_a_json_error() {
    let malformed = parse_srj_document(br#"{"head":{}"#).unwrap_err();
    assert!(matches!(malformed, SparqlResultsError::Json(_)));
    let (streamed, _, _) = stream_events(br#"{"head":{}"#);
    assert!(matches!(streamed.unwrap_err(), SparqlResultsError::Json(_)));
}

#[test]
fn srj_rows_reach_the_sink_before_the_document_ends() {
    let input = br#"{"head":{},"results":{"bindings":[{}]}}"#;
    let mut parser = SrjParser::new();
    let mut start = 0;
    let mut seen_row = false;
    loop {
        match scan_token(&input[start..], true) {
            Scanned::Token(token, n) => {
                start += n;
                let out = parser.step(token);
                if let Some(SrjEvent::Row(r)) = out.event {
                    assert!(r.bindings.is_empty());
                    seen_row = true;
                    break;
                }
                assert!(matches!(out.outcome, SrjOutcome::Continue));
            }
            _ => panic!("unexpected scan outcome"),
        }
    }
    assert!(seen_row);
}

#[test]
fn srj_writer_round_trips() {
    let result = SparqlResult::Select {
        vars: vec!["x".to_owned()],
        rows: vec![row(vec![(
            "x",
            ResultValue::Literal {
                value: "v".to_owned(),
                lang: Some("en".to_owned()),
                datatype: Some("urn:mime:text".to_owned()),
                dir: None,
            },
        )])],
    };
    let bytes = write_srj_bytes(&result);
    assert_eq!(parse_srj_document(&bytes).unwrap(), result);
}

#[test]
fn srj_round_trip_sorts_bindings_and_keeps_the_map() {
    let result = SparqlResult::Select {
        vars: vec!["b".to_owned(), "a".to_owned()],
        rows: vec![
            row(vec![("b", ResultValue::Uri("urn:b".to_owned())), ("a", ResultValue::BNode("n1".to_owned()))]),
            row(vec![]),
            row(vec![(
                "t",
                ResultValue::Triple {
                    subject: Box::new(ResultValue::Uri("urn:s".to_owned())),
                    predicate: Box::new(ResultValue::Uri("urn:p".to_owned())),
                    object: Box::new(ResultValue::Literal {
                        value: "quote \" and \\ and \n".to_owned(),
                        lang: Some("en".to_owned()),
                        datatype: None,
                        dir: Some(BaseDirection::Rtl),
                    }),
                },
            )]),
        ],
    };
    let bytes = write_srj_bytes(&result);
    let text = String::from_utf8(bytes.clone()).unwrap();
    assert!(text.contains(r#"{"a":{"type":"bnode","value":"n1"},"b":{"type":"uri","value":"urn:b"}}"#), "{text}");
    let parsed = parse_srj_document(&bytes).unwrap();
    assert_eq!(parsed, result);
    if let SparqlResult::Select { rows, .. } = parsed {
        let keys: Vec<&String> = rows[0].bindings.keys().collect();
        assert_eq!(keys, vec!["a", "b"]);
    }
}

#[test]
fn srj_writer_emits_exact_bytes() {
    let (mut writer, head) = SrjWriter::start_select(&["x".to_owned(), "y".to_owned()]);
    assert_eq!(head, br#"{"head":{"vars":["x","y"]},"results":{"bindings":["#.to_vec());
    let first = writer.write_row(&row(vec![("x", literal("1"))])).unwrap();
    assert_eq!(first, br#"{"x":{"type":"literal","value":"1"}}"#.to_vec());
    let second = writer.write_row(&row(vec![("y", ResultValue::Uri("urn:a".to_owned()))])).unwrap();
    assert_eq!(second, br#",{"y":{"type":"uri","value":"urn:a"}}"#.to_vec());
    assert_eq!(writer.finish().unwrap(), b"]}}".to_vec());
}

#[test]
fn srj_writer_refuses_after_finish() {
    let (mut writer, _) = SrjWriter::start_select(&[]);
    writer.finish().unwrap();
    let err = writer.write_row(&row(vec![])).unwrap_err();
    assert_eq!(err, SparqlResultsError::InvalidDocument("SRJ writer already finished".to_owned()));
    let err = writer.finish().unwrap_err();
    assert_eq!(err, SparqlResultsError::InvalidDocument("SRJ writer already finished".to_owned()));
}

#[test]
fn srj_ask_documents() {
    assert_eq!(write_srj_bytes(&SparqlResult::Ask { result: true }), br#"{"head":{},"boolean":true}"#.to_vec());
    assert_eq!(write_srj_bytes(&SparqlResult::Ask { result: false }), br#"{"head":{},"boolean":false}"#.to_vec());
    let parsed = parse_srj_document(br#" { "head" : { } , "boolean" : false } "#).unwrap();
    assert_eq!(parsed, SparqlResult::Ask { result: false });
}

#[test]
fn srj_serializes_base_direction() {
    let result = dir_lang_result(BaseDirection::Ltr);
    let json = String::from_utf8(write_srj_bytes(&result)).unwrap();
    assert!(json.contains(r#""its:dir":"ltr""#), "SRJ must emit its:dir: {json}");
    assert!(json.contains(r#""xml:lang":"ar""#), "SRJ must keep lang: {json}");
    assert_eq!(parse_srj_document(json.as_bytes()).unwrap(), result);
}

#[test]
fn srj_error_kinds() {
    let results_first = parse_srj_document(br#"{"results":{"bindings":[]},"head":{"vars":[]}}"#).unwrap_err();
    assert!(matches!(results_first, SparqlResultsError::InvalidDocument(_)));
    let no_result = parse_srj_document(br#"{"head":{"vars":[]}}"#).unwrap_err();
    assert!(matches!(no_result, SparqlResultsError::MissingElement(_)));
    let unknown_type = parse_srj_document(
        br#"{"head":{"vars":["x"]},"results":{"bindings":[{"x":{"type":"thing","value":"v"}}]}}"#,
    )
    .unwrap_err();
    assert!(matches!(unknown_type, SparqlResultsError::UnexpectedElement(_)));
    let no_value = parse_srj_document(br#"{"head":{"vars":["x"]},"results":{"bindings":[{"x":{"type":"uri"}}]}}"#)
        .unwrap_err();
    assert!(matches!(no_value, SparqlResultsError::MissingElement(_)));
    let trailing = parse_srj_document(br#"{"head":{},"boolean":true} x"#).unwrap_err();
    assert!(matches!(trailing, SparqlResultsError::Json(_)));
    let trailing_comma = parse_srj_document(br#"{"head":{},"boolean":true,}"#).unwrap_err();
    assert!(matches!(trailing_comma, SparqlResultsError::Json(_)));
}

#[test]
fn srj_lenient_forms_are_accepted() {
    let parsed = parse_srj_document(
        br#"{"head":{"vars":["x"],"link":["l"]},"results":{"distinct":false,"bindings":[{"x":{"type":"literal","value":"7","lang":"de","extra":[1,{"a":null}]}}]},"other":1.5e3}"#,
    )
    .unwrap();
    let expected = SparqlResult::Select {
        vars: vec!["x".to_owned()],
        rows: vec![row(vec![(
            "x",
            ResultValue::Literal { value: "7".to_owned(), lang: Some("de".to_owned()), datatype: None, dir: None },
        )])],
    };
    assert_eq!(parsed, expected);
}

#[test]
fn srj_tokenizer_reads_one_token_at_a_time() {
    assert!(matches!(scan_token(b"  {", false), Scanned::Token(Token::ObjectStart, 3)));
    assert!(matches!(scan_token(b"\"ab", false), Scanned::NeedMore));
    assert!(matches!(scan_token(b"\"ab", true), Scanned::Failed(SparqlResultsError::Json(_))));
    match scan_token(br#""a\"b" rest"#, false) {
        Scanned::Token(Token::String(s), n) => {
            assert_eq!(s, "a\"b");
            assert_eq!(n, 6);
        }
        _ => panic!("expected a string token"),
    }
    assert!(matches!(scan_token(b"tru", false), Scanned::NeedMore));
    assert!(matches!(scan_token(b"true,", false), Scanned::Token(Token::Bool(true), 4)));
    assert!(matches!(scan_token(b"nul!", false), Scanned::Failed(_)));
    assert!(matches!(scan_token(b"-12.5e3", false), Scanned::NeedMore));
    assert!(matches!(scan_token(b"-12.5e3", true), Scanned::Token(Token::Number, 7)));
    assert!(matches!(scan_token(b"1.2.3 ", false), Scanned::Failed(_)));
    assert!(matches!(scan_token(b"   ", true), Scanned::Token(Token::Eof, 3)));
    assert!(matches!(scan_token(b"@", true), Scanned::Failed(SparqlResultsError::Json(_))));
}

#[test]
fn srj_writer_pieces_join_to_whole_document() {
    let vars = vec!["x".to_owned(), "y".to_owned()];
    let rows = vec![row(vec![("x", literal("1"))]), row(vec![("y", ResultValue::Uri("urn:a".to_owned()))])];
    let (mut writer, mut bytes) = SrjWriter::start_select(&vars);
    for r in &rows {
        bytes.extend(writer.write_row(r).unwrap());
    }
    bytes.extend(writer.finish().unwrap());
    assert_eq!(bytes, write_srj_bytes(&SparqlResult::Select { vars, rows }));
}

#[test]
fn srj_unknown_direction_member_is_skipped() {
    let parsed = parse_srj_document(
        br#"{"head":{"vars":["x"]},"results":{"bindings":[{"x":{"type":"literal","value":"v","its:dir":"up","lang":"en"}}]}}"#,
    )
    .unwrap();
    let expected = SparqlResult::Select {
        vars: vec!["x".to_owned()],
        rows: vec![row(vec![(
            "x",
            ResultValue::Literal { value: "v".to_owned(), lang: Some("en".to_owned()), datatype: None, dir: None },
        )])],
    };
    assert_eq!(parsed, expected);
    let non_string = parse_srj_document(
        br#"{"head":{"vars":["x"]},"results":{"bindings":[{"x":{"type":"literal","value":"v","its:dir":[1,{"a":2}]}}]}}"#,
    )
    .unwrap();
    assert_eq!(non_string, SparqlResult::Select { vars: vec!["x".to_owned()], rows: vec![row(vec![("x", literal("v"))])] });
}
