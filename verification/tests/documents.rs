use ya::value::{Content, Scalar, StandardTag, Tag};
use ya::{parse, parse_document, parse_stream, Error};

#[test]
fn parses_a_single_document() {
    let doc = parse_document("key: value\n").unwrap();
    let Content::Mapping(map) = &doc.as_node().value else {
        panic!("expected a mapping, got {:?}", doc.as_node().value);
    };
    assert_eq!(map.entries()[0].value.as_str(), Some("value"));
}

#[test]
fn parse_document_resolves_tags() {
    assert_eq!(parse_document("1\n").unwrap().as_node().as_i64(), Some(1));
}

#[test]
fn parse_document_reads_an_empty_stream_as_null() {
    assert!(parse_document("").unwrap().as_node().is_null());
    assert!(parse_document("# just a comment\n").unwrap().as_node().is_null());
}

#[test]
fn parse_document_rejects_a_multi_document_stream() {
    assert_eq!(parse_document("a: 1\n---\na: 2\n").unwrap_err(), Error::MultipleDocuments);
}

#[test]
fn parse_document_reports_syntax_errors() {
    assert!(matches!(parse_document("[a, b").unwrap_err(), Error::Parse(_)));
}

#[test]
fn parse_document_reports_resolve_errors() {
    assert!(matches!(parse_document("!!int foo\n").unwrap_err(), Error::Resolve(_)));
}

fn collect(input: &str) -> Result<Vec<ya::value::Document>, Error> {
    let mut docs = parse_stream(input);
    let mut out = Vec::new();
    while let Some(d) = docs.next() {
        out.push(d?);
    }
    Ok(out)
}

#[test]
fn parse_stream_yields_every_document() {
    let docs = collect("1\n---\n2\n---\n3\n").unwrap();
    let values: Vec<_> = docs.iter().map(|d| d.as_node().as_i64().unwrap()).collect();
    assert_eq!(values, vec![1, 2, 3]);
}

#[test]
fn parse_stream_is_empty_for_an_empty_input() {
    assert_eq!(collect("").unwrap().len(), 0);
    assert_eq!(collect("# nothing here\n").unwrap().len(), 0);
}

#[test]
fn parse_stream_yields_a_document_before_parsing_a_later_broken_one() {
    let mut docs = parse_stream("1\n---\n[unclosed");
    assert_eq!(docs.next().unwrap().unwrap().as_node().as_i64(), Some(1));
}

#[test]
fn parse_stream_ends_after_a_parse_error() {
    let mut docs = parse_stream("1\n---\n[unclosed");
    assert!(docs.next().unwrap().is_ok());
    assert!(docs.next().unwrap().unwrap().as_node().is_null());
    assert!(matches!(docs.next(), Some(Err(Error::Parse(_)))));
    assert!(docs.next().is_none());
    assert!(docs.next().is_none());
}

#[test]
fn parse_stream_continues_after_a_resolve_error() {
    let mut docs = parse_stream("!!int foo\n---\n2\n");
    assert!(matches!(docs.next(), Some(Err(Error::Resolve(_)))));
    assert_eq!(docs.next().unwrap().unwrap().as_node().as_i64(), Some(2));
    assert!(docs.next().is_none());
}

#[test]
fn parse_composes_yaml_stream_and_resolve() {
    let stream = parse("key: value\n").unwrap();
    let doc = stream.documents()[0].as_node();
    let Content::Mapping(map) = &doc.value else {
        panic!("expected a mapping, got {:?}", doc.value);
    };
    assert_eq!(map.entries()[0].value.as_str(), Some("value"));
}

#[test]
fn parse_reports_syntax_errors() {
    assert!(matches!(parse("[a, b").unwrap_err(), Error::Parse(_)));
}

#[test]
fn parse_reports_resolve_errors() {
    assert!(matches!(parse("!!int foo\n").unwrap_err(), Error::Resolve(_)));
}

#[test]
fn syntax_error_reports_its_position() {
    let Error::Parse(err) = parse("a: [1, 2\nb: 3\n").unwrap_err() else {
        panic!("expected a syntax error");
    };
    assert_eq!(err.offset(), 0);
    assert_eq!(err.line(), 1);
    assert_eq!(err.column(), 1);
    assert_eq!(err.line_text(), "a: [1, 2");
    assert!(err.to_string().contains("a: [1, 2"));
}

#[test]
fn block_mapping_with_nested_sequence() {
    let doc = parse_document("a:\n  - 1\n  - two\nb: {c: d}\n").unwrap();
    let Content::Mapping(map) = &doc.as_node().value else { panic!("mapping") };
    let e = map.entries();
    assert_eq!(e[0].key.as_str(), Some("a"));
    let Content::Sequence(items) = &e[0].value.value else { panic!("sequence") };
    assert_eq!(items[0].as_i64(), Some(1));
    assert_eq!(items[1].as_str(), Some("two"));
    let Content::Mapping(inner) = &e[1].value.value else { panic!("flow mapping") };
    assert_eq!(inner.entries()[0].value.as_str(), Some("d"));
}

#[test]
fn sequence_at_the_key_indentation() {
    let doc = parse_document("a:\n- 1\n- 2\nb: 3\n").unwrap();
    let Content::Mapping(map) = &doc.as_node().value else { panic!("mapping") };
    let Content::Sequence(items) = &map.entries()[0].value.value else { panic!("sequence") };
    assert_eq!(items.len(), 2);
    assert_eq!(map.entries()[1].value.as_i64(), Some(3));
}

#[test]
fn compact_nested_sequences_and_mappings() {
    let doc = parse_document("- - a\n  - b\n- c: d\n  e: f\n").unwrap();
    let Content::Sequence(items) = &doc.as_node().value else { panic!("sequence") };
    let Content::Sequence(first) = &items[0].value else { panic!("inner sequence") };
    assert_eq!(first.len(), 2);
    let Content::Mapping(second) = &items[1].value else { panic!("inner mapping") };
    assert_eq!(second.entries().len(), 2);
    assert_eq!(second.entries()[1].value.as_str(), Some("f"));
}

#[test]
fn literal_and_folded_block_scalars() {
    let doc = parse_document("a: |\n  one\n  two\nb: >\n  three\n  four\n\n  five\nc: |-\n  x\n").unwrap();
    let Content::Mapping(map) = &doc.as_node().value else { panic!("mapping") };
    let e = map.entries();
    assert_eq!(e[0].value.value, Content::Scalar(Scalar::Literal("one\ntwo\n".to_string())));
    assert_eq!(e[1].value.value, Content::Scalar(Scalar::Folded("three four\nfive\n".to_string())));
    assert_eq!(e[2].value.value, Content::Scalar(Scalar::Literal("x".to_string())));
}

#[test]
fn keep_chomping_keeps_trailing_lines() {
    let doc = parse_document("--- |+\n  a\n\n\n").unwrap();
    assert_eq!(doc.as_node().value, Content::Scalar(Scalar::Literal("a\n\n\n".to_string())));
}

#[test]
fn quoted_scalars_fold_and_unescape() {
    let doc = parse_document("- 'it''s'\n- \"a\\tb\\u00e9\\x41\"\n- \"one\n  two\"\n- 'x\n\n  y'\n").unwrap();
    let Content::Sequence(items) = &doc.as_node().value else { panic!("sequence") };
    assert_eq!(items[0].value, Content::Scalar(Scalar::SingleStr("it's".to_string())));
    assert_eq!(items[1].value, Content::Scalar(Scalar::DoubleStr("a\tbéA".to_string())));
    assert_eq!(items[2].value, Content::Scalar(Scalar::DoubleStr("one two".to_string())));
    assert_eq!(items[3].value, Content::Scalar(Scalar::SingleStr("x\ny".to_string())));
}

#[test]
fn multi_line_plain_scalar_folds() {
    let doc = parse_document("a: one\n  two\n\n  three\n").unwrap();
    let Content::Mapping(map) = &doc.as_node().value else { panic!("mapping") };
    assert_eq!(map.entries()[0].value.as_str(), Some("one two\nthree"));
}

#[test]
fn anchors_aliases_and_tags() {
    let doc = parse_document("a: &x !!str 12\nb: *x\nc: !local v\n").unwrap();
    let Content::Mapping(map) = &doc.as_node().value else { panic!("mapping") };
    let e = map.entries();
    assert_eq!(e[0].value.tag, Tag::Standard(StandardTag::Str));
    assert_eq!(e[1].value.as_str(), Some("12"));
    assert_eq!(e[2].value.tag, Tag::Global("!local".to_string()));
}

#[test]
fn tag_directive_declares_a_handle() {
    let doc = parse_document("%TAG !e! tag:example.com,2000:app/\n---\n!e!foo bar\n").unwrap();
    assert_eq!(doc.as_node().tag, Tag::Global("tag:example.com,2000:app/foo".to_string()));
}

#[test]
fn flow_sequence_with_a_single_pair() {
    let doc = parse_document("[a: b, c]\n").unwrap();
    let Content::Sequence(items) = &doc.as_node().value else { panic!("sequence") };
    let Content::Mapping(pair) = &items[0].value else { panic!("pair") };
    assert_eq!(pair.entries()[0].key.as_str(), Some("a"));
    assert_eq!(items[1].as_str(), Some("c"));
}

#[test]
fn comments_and_document_markers() {
    let docs = collect("# c\n--- # c\na: 1 # c\n...\n---\nb\n").unwrap();
    assert_eq!(docs.len(), 2);
    assert_eq!(docs[1].as_node().as_str(), Some("b"));
}

#[test]
fn explicit_keys() {
    let doc = parse_document("? a\n: b\n? c\n").unwrap();
    let Content::Mapping(map) = &doc.as_node().value else { panic!("mapping") };
    assert_eq!(map.entries()[0].value.as_str(), Some("b"));
    assert!(map.entries()[1].value.is_null());
}

#[test]
fn error_outlives_the_parsed_input() {
    fn load() -> std::result::Result<(), Error> {
        let owned = String::from("[a, b");
        parse(&owned)?;
        Ok(())
    }

    assert!(load().is_err());
}
