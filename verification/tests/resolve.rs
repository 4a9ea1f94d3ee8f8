use ya::resolve::{classify_core_schema, resolve, resolve_node, unspecified_tag, ResolveErrorKind};
use ya::value::{Content, Document, MapEntry, Mapping, Node, Scalar, StandardTag, Stream, Tag};

fn plain(text: &str) -> Node {
    Node::unspecified(Content::Scalar(Scalar::Plain(text.to_string())))
}

fn resolved(text: &str) -> Tag {
    Tag::Standard(classify_core_schema(text).unwrap_or(StandardTag::Str))
}

#[test]
fn core_schema_table() {
    for s in ["null", "Null", "NULL", "~", ""] {
        assert_eq!(Some(StandardTag::Null), classify_core_schema(s), "{s:?}");
    }
    for s in ["true", "True", "TRUE", "false", "False", "FALSE"] {
        assert_eq!(Some(StandardTag::Bool), classify_core_schema(s), "{s:?}");
    }
    for s in ["0", "0o7", "0x3A", "-19", "+19", "123"] {
        assert_eq!(Some(StandardTag::Int), classify_core_schema(s), "{s:?}");
    }
    for s in ["0.", "-0.0", ".5", "+12e03", "-2E+05", ".inf", "-.Inf", "+.INF", ".NAN"] {
        assert_eq!(Some(StandardTag::Float), classify_core_schema(s), "{s:?}");
    }
    for s in ["yes", "no", "on", "off", "1.2.3", "foo"] {
        assert_eq!(None, classify_core_schema(s), "{s:?}");
    }
}

#[test]
fn unspecified_collections_resolve_by_kind() {
    assert_eq!(StandardTag::Sequence, unspecified_tag(&Content::Sequence(vec![])));
    assert_eq!(StandardTag::Mapping, unspecified_tag(&Content::Mapping(Mapping(vec![]))));
    assert_eq!(StandardTag::Null, unspecified_tag(&Content::Empty));
}

#[test]
fn unspecified_non_plain_scalar_is_always_str() {
    assert_eq!(
        StandardTag::Str,
        unspecified_tag(&Content::Scalar(Scalar::SingleStr("42".to_string())))
    );
    assert_eq!(
        StandardTag::Str,
        unspecified_tag(&Content::Scalar(Scalar::DoubleStr("true".to_string())))
    );
}

#[test]
fn non_specific_tag_is_left_unresolved() {
    let node = Node::new(Content::Scalar(Scalar::Plain("a".to_string())), Tag::NonSpecific);
    let resolved = resolve_node(node).unwrap();
    assert_eq!(Tag::NonSpecific, resolved.tag);
}

#[test]
fn explicit_standard_tag_validates_content() {
    let ok = Node::new(
        Content::Scalar(Scalar::Plain("42".to_string())),
        Tag::Global("tag:yaml.org,2002:int".to_string()),
    );
    assert_eq!(Tag::Standard(StandardTag::Int), resolve_node(ok).unwrap().tag);

    let bad = Node::new(
        Content::Scalar(Scalar::Plain("foo".to_string())),
        Tag::Global("tag:yaml.org,2002:int".to_string()),
    );
    assert_eq!(
        &ResolveErrorKind::ContentMismatch { tag: StandardTag::Int, text: "foo".to_string() },
        resolve_node(bad).unwrap_err().kind()
    );
}

#[test]
fn explicit_standard_tag_validates_kind() {
    let bad = Node::new(
        Content::Scalar(Scalar::Plain("foo".to_string())),
        Tag::Global("tag:yaml.org,2002:map".to_string()),
    );
    assert_eq!(
        &ResolveErrorKind::KindMismatch {
            tag: StandardTag::Mapping,
            expected_kind: "mapping",
            actual_kind: "scalar",
        },
        resolve_node(bad).unwrap_err().kind()
    );
}

#[test]
fn custom_global_tag_stays_global() {
    let node = Node::new(
        Content::Scalar(Scalar::Plain("foo".to_string())),
        Tag::Global("tag:example.com,2000:app/foo".to_string()),
    );
    assert_eq!(
        Tag::Global("tag:example.com,2000:app/foo".to_string()),
        resolve_node(node).unwrap().tag
    );
}

#[test]
fn global_tag_percent_escape_is_decoded() {
    let node = Node::new(
        Content::Scalar(Scalar::DoubleStr("baz".to_string())),
        Tag::Global("tag:example.com,2000:app/tag%21".to_string()),
    );
    assert_eq!(
        Tag::Global("tag:example.com,2000:app/tag!".to_string()),
        resolve_node(node).unwrap().tag
    );
}

#[test]
fn resolve_error_carries_the_offending_node_span() {
    let input = "a: 1\nb: !!int nope\n";
    let err = ya::parse_document(input).unwrap_err();
    let ya::Error::Resolve(err) = err else {
        panic!("expected a resolution error, got {err:?}");
    };
    assert_eq!(&input[err.span().expect("a parsed node has a span").range()], "!!int nope");
    assert_eq!(err.excerpt().unwrap().line(), 2);
}

#[test]
fn resolve_error_renders_the_offending_source() {
    let err = ya::parse_document("a: 1\nb: !!int nope\n").unwrap_err();
    assert_eq!(
        err.to_string(),
        "\
error: explicit tag Int does not match scalar content \"nope\"
  |
2 | b: !!int nope
  |    ^^^^^^^^^^"
    );
}

#[test]
fn resolve_error_without_a_span_renders_its_message_alone() {
    let node = Node::new(
        Content::Scalar(Scalar::Plain("foo".to_string())),
        Tag::Global("tag:yaml.org,2002:int".to_string()),
    );
    let err = resolve_node(node).unwrap_err();
    assert_eq!(err.span(), None);
    assert_eq!(
        err.located("irrelevant, there is no span to locate").to_string(),
        "explicit tag Int does not match scalar content \"foo\""
    );
}

#[test]
fn resolve_recurses_into_collections() {
    let stream = Stream(vec![Document::new(Node::unspecified(Content::Mapping(Mapping(vec![
        MapEntry {
            key: plain("a"),
            value: Node::unspecified(Content::Sequence(vec![plain("1"), plain("true")])),
        },
    ]))))]);
    let resolved_stream = resolve(stream).unwrap();
    let doc = &resolved_stream.documents()[0];
    let Content::Mapping(mapping) = &doc.as_node().value else {
        panic!("expected a mapping");
    };
    assert_eq!(resolved("a"), mapping.entries()[0].key.tag);
    let Content::Sequence(items) = &mapping.entries()[0].value.value else {
        panic!("expected a sequence");
    };
    assert_eq!(Tag::Standard(StandardTag::Int), items[0].tag);
    assert_eq!(Tag::Standard(StandardTag::Bool), items[1].tag);
}

#[test]
fn core_tag_resolution_example() {
    let input = [
        "{",
        "'A null': null, ",
        "'Also a null': , ",
        "'Not a null': \"\", ",
        "Booleans: [true, True, false, FALSE], ",
        "Integers: [0, 0o7, 0x3A, -19], ",
        "Floats: [0., -0.0, .5, +12e03, -2E+05], ",
        "Also floats: [.inf, -.Inf, +.INF, .NAN]",
        "}",
    ]
    .concat();
    let input = input.as_str();
    let doc = ya::parse_document(input).unwrap();
    let Content::Mapping(mapping) = &doc.as_node().value else {
        panic!("expected a mapping, got {:?}", doc.as_node().value);
    };
    let entries = mapping.entries();
    assert_eq!(Tag::Standard(StandardTag::Null), entries[0].value.tag);
    assert_eq!(Tag::Standard(StandardTag::Null), entries[1].value.tag);
    assert_eq!(Tag::Standard(StandardTag::Str), entries[2].value.tag);
    for (i, tag) in [(3, StandardTag::Bool), (4, StandardTag::Int), (5, StandardTag::Float), (6, StandardTag::Float)] {
        let Content::Sequence(items) = &entries[i].value.value else {
            panic!("expected a sequence");
        };
        for item in items {
            assert_eq!(Tag::Standard(tag), item.tag);
        }
    }
}

#[test]
fn kind_mismatch_message_names_both_kinds() {
    let bad = Node::new(
        Content::Sequence(vec![]),
        Tag::Global("tag:yaml.org,2002:str".to_string()),
    );
    assert_eq!(
        resolve_node(bad).unwrap_err().to_string(),
        "explicit tag Str requires a scalar node, but found a sequence"
    );
}

#[test]
fn first_failure_in_document_order_wins() {
    let bad_int = Node::new(
        Content::Scalar(Scalar::Plain("x".to_string())),
        Tag::Global("tag:yaml.org,2002:int".to_string()),
    );
    let bad_map = Node::new(
        Content::Scalar(Scalar::Plain("y".to_string())),
        Tag::Global("tag:yaml.org,2002:map".to_string()),
    );
    let seq = Node::unspecified(Content::Sequence(vec![bad_int, bad_map]));
    assert!(matches!(
        resolve_node(seq).unwrap_err().kind(),
        ResolveErrorKind::ContentMismatch { .. }
    ));
}
