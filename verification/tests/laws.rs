use ya::de::{visit, Visit};
use ya::parse::anchor::AnchorStore;
use ya::parse::tag_handles::TagHandles;
use ya::parse::document::yaml_stream;
use ya::parse::input::{ParseState, Text};
use ya::resolve::{decode_tag_uri, resolve_node};
use ya::value::{Content, MapEntry, Mapping, Node, Scalar, Span, StandardTag, Tag};
use ya::{parse, parse_document, parse_stream, Error};

fn check_spans(node: &Node, input: &str) {
    let span = node.span().expect("every parsed node records its span");
    assert!(span.start() <= span.end());
    assert!(span.end() <= input.len());
    assert!(input.is_char_boundary(span.start()) && input.is_char_boundary(span.end()));
    match &node.value {
        Content::Sequence(items) => {
            for item in items {
                check_spans(item, input);
            }
        }
        Content::Mapping(map) => {
            for entry in map.entries() {
                check_spans(&entry.key, input);
                check_spans(&entry.value, input);
            }
        }
        _ => {}
    }
}

#[test]
fn every_parsed_node_records_a_span_within_the_input() {
    let input = "a: [1, {b: ç}]\nc:\n  - &x d\n  - *x\n  - |\n    text\n---\n\"é\": k\n";
    let stream = parse(input).unwrap();
    assert_eq!(stream.documents().len(), 2);
    for doc in stream.documents() {
        check_spans(doc.as_node(), input);
    }
}

#[test]
fn the_span_of_a_node_is_its_byte_range() {
    let input = "é: [x]\n";
    let doc = parse_document(input).unwrap();
    let Content::Mapping(map) = &doc.as_node().value else { panic!("mapping") };
    let key = &map.entries()[0].key;
    let value = &map.entries()[0].value;
    assert_eq!(&input[key.span().unwrap().range()], "é");
    assert_eq!(&input[value.span().unwrap().range()], "[x]");
}

fn spanned(content: Content, tag: Tag, start: usize, end: usize) -> Node {
    Node::new(content, tag).with_span(Span::new(start, end))
}

fn text_of(node: &Node) -> &str {
    node.scalar_text().unwrap()
}

#[test]
fn resolution_changes_tags_only() {
    let items = vec![
        spanned(Content::Scalar(Scalar::Plain("12".to_string())), Tag::Unspecified, 1, 3),
        spanned(Content::Scalar(Scalar::DoubleStr("12".to_string())), Tag::Unspecified, 5, 9),
        spanned(Content::Empty, Tag::Unspecified, 10, 10),
    ];
    let node = spanned(Content::Sequence(items), Tag::Unspecified, 0, 11);
    let resolved = resolve_node(node).unwrap();
    assert_eq!(resolved.span(), Some(Span::new(0, 11)));
    assert_eq!(resolved.tag, Tag::Standard(StandardTag::Sequence));
    let Content::Sequence(items) = &resolved.value else { panic!("sequence") };
    assert_eq!(items.len(), 3);
    assert_eq!(text_of(&items[0]), "12");
    assert_eq!(items[0].tag, Tag::Standard(StandardTag::Int));
    assert_eq!(items[0].span(), Some(Span::new(1, 3)));
    assert_eq!(items[1].value, Content::Scalar(Scalar::DoubleStr("12".to_string())));
    assert_eq!(items[1].tag, Tag::Standard(StandardTag::Str));
    assert_eq!(items[1].span(), Some(Span::new(5, 9)));
    assert_eq!(items[2].value, Content::Empty);
    assert_eq!(items[2].tag, Tag::Standard(StandardTag::Null));
}

fn global(uri: &str, content: Content) -> Node {
    Node::new(content, Tag::Global(uri.to_string()))
}

#[test]
fn resolution_fails_exactly_where_a_standard_tag_does_not_fit() {
    let int = |text: &str| {
        global("tag:yaml.org,2002:int", Content::Scalar(Scalar::Plain(text.to_string())))
    };
    assert!(resolve_node(int("12")).is_ok());
    assert!(resolve_node(int("twelve")).is_err());
    // A custom tag always fits.
    let custom = global("tag:example.com,2000:x", Content::Scalar(Scalar::Plain("y".to_string())));
    assert_eq!(resolve_node(custom).unwrap().tag, Tag::Global("tag:example.com,2000:x".to_string()));
    // A misfit deep inside a collection fails the whole tree.
    let inner = Mapping(vec![MapEntry { key: Node::unspecified(Content::Empty), value: int("x") }]);
    let outer = Node::unspecified(Content::Sequence(vec![
        Node::unspecified(Content::Mapping(inner)),
    ]));
    assert!(resolve_node(outer).is_err());
    // A sequence tag on a mapping does not fit.
    let seq_tag = global("tag:yaml.org,2002:seq", Content::Mapping(Mapping(vec![])));
    assert!(resolve_node(seq_tag).is_err());
}

fn int_scalar(text: &str) -> Node {
    Node::new(Content::Scalar(Scalar::Plain(text.to_string())), Tag::Standard(StandardTag::Int))
}

#[test]
fn core_schema_ints_read_as_the_integer_they_denote() {
    assert_eq!(visit(&int_scalar("0x1F")), Visit::I64(31));
    assert_eq!(visit(&int_scalar("0o17")), Visit::I64(15));
    assert_eq!(visit(&int_scalar("-42")), Visit::I64(-42));
    assert_eq!(visit(&int_scalar("+7")), Visit::I64(7));
    assert_eq!(visit(&int_scalar("-9223372036854775807")), Visit::I64(-9223372036854775807));
    assert_eq!(visit(&int_scalar("9223372036854775808")), Visit::U64(9223372036854775808));
    assert_eq!(visit(&int_scalar("+18446744073709551615")), Visit::U64(u64::MAX));
    assert_eq!(visit(&int_scalar("0xFFFFFFFFFFFFFFFF")), Visit::U64(u64::MAX));
    // Beyond the range: not read.
    assert!(matches!(visit(&int_scalar("18446744073709551616")), Visit::Invalid(_)));
    assert_eq!(visit(&int_scalar("-9223372036854775808")), Visit::I64(i64::MIN));
    assert!(matches!(visit(&int_scalar("-9223372036854775809")), Visit::Invalid(_)));
}

#[test]
fn a_later_anchor_replaces_an_earlier_one() {
    let mut anchors = AnchorStore::new();
    let one = Node::unspecified(Content::Scalar(Scalar::Plain("1".to_string())));
    let two = Node::unspecified(Content::Scalar(Scalar::Plain("2".to_string())));
    anchors.put("a".to_string(), one.clone());
    anchors.put("b".to_string(), two.clone());
    anchors.put("a".to_string(), two.clone());
    assert_eq!(anchors.get("a"), Some(&two));
    assert_eq!(anchors.get("b"), Some(&two));
    assert_eq!(anchors.get("c"), None);
    anchors.clear();
    assert_eq!(anchors.get("a"), None);
}

#[test]
fn a_later_tag_directive_replaces_an_earlier_handle() {
    let mut handles = TagHandles::new();
    assert_eq!(handles.get("!!").map(|s| s.as_str()), Some("tag:yaml.org,2002:"));
    handles.put("!e!".to_string(), "tag:one:".to_string());
    handles.put("!e!".to_string(), "tag:two:".to_string());
    assert_eq!(handles.get("!e!").map(|s| s.as_str()), Some("tag:two:"));
    assert_eq!(handles.get("!").map(|s| s.as_str()), Some("!"));
    handles.clear();
    assert_eq!(handles.get("!e!"), None);
}

#[test]
fn anchors_do_not_leak_into_the_next_document() {
    assert!(parse("- &a x\n- *a\n").is_ok());
    assert!(parse("&a x\n---\n*a\n").is_err());
}

#[test]
fn a_stream_that_stops_early_fails_where_it_stops() {
    let input = "a: 1\n]\n";
    let mut docs = parse_stream(input);
    let first = docs.next().unwrap().unwrap();
    assert_eq!(first.as_node().span().map(|s| s.start()), Some(0));
    let Some(Err(Error::Parse(err))) = docs.next() else { panic!("a parse error") };
    assert_eq!(err.message(), "");
    assert_eq!(err.offset(), 5);
    assert!(docs.next().is_none());
}

#[test]
fn a_resolve_failure_is_reported_and_the_stream_goes_on() {
    let mut docs = parse_stream("!!int x\n---\n!!str y\n");
    assert!(matches!(docs.next(), Some(Err(Error::Resolve(_)))));
    let second = docs.next().unwrap().unwrap();
    assert_eq!(second.as_node().scalar_text(), Some("y"));
    assert!(docs.next().is_none());
}

#[test]
fn parse_reports_the_first_resolve_failure_in_document_order() {
    let Err(Error::Resolve(e)) = parse("!!int x\n---\n!!bool y\n") else { panic!("resolve error") };
    assert_eq!(e.span(), Some(Span::new(0, 7)));
}

#[test]
fn parse_document_takes_exactly_one_document() {
    assert!(matches!(parse_document("a\n---\nb\n"), Err(Error::MultipleDocuments)));
    // A second document that fails to resolve is that failure, not a count.
    assert!(matches!(parse_document("a\n---\n!!int b\n"), Err(Error::Resolve(_))));
    let empty = parse_document("# nothing\n").unwrap();
    assert_eq!(empty.as_node().value, Content::Empty);
    assert_eq!(empty.as_node().tag, Tag::Standard(StandardTag::Null));
    assert_eq!(empty.as_node().span(), None);
}

#[test]
fn tag_directive_prefix_joins_the_suffix() {
    let input = "%TAG !e! tag:example.com,2000:%41pp/\n--- !e!x%42y\n- !<tag:z%43> a\n- !!str b\n";
    let t = Text::new(input);
    let mut st = ParseState::new();
    let (docs, q) = yaml_stream(&t, &mut st, 0);
    assert_eq!(input[t.offset(q)..].to_string(), "");
    assert_eq!(docs.len(), 1);
    assert_eq!(docs[0].as_node().tag, Tag::Global("tag:example.com,2000:%41pp/x%42y".to_string()));
    assert!(parse(input).is_ok());
}

#[test]
fn decode_tag_uri_keeps_an_escape_that_cuts_a_character() {
    let cs: Vec<char> = "%aé".chars().collect();
    assert_eq!(decode_tag_uri(&cs), "%aé");
    let cs: Vec<char> = "x%41%C3%A9".chars().collect();
    assert_eq!(decode_tag_uri(&cs), "xAé");
}

#[test]
fn resolve_keeps_a_hand_built_tag_whose_escape_cuts_a_character() {
    let node = Node::new(
        Content::Scalar(Scalar::Plain("a".to_string())),
        Tag::Global("tag:x%aé".to_string()),
    );
    let resolved = resolve_node(node).unwrap();
    assert_eq!(resolved.tag, Tag::Global("tag:x%aé".to_string()));
}
