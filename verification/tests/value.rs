use ya::value::{Content, Node, Scalar, Span, StandardTag, Tag};

fn tagged(tag: StandardTag, text: &str) -> Node {
    Node::new(Content::Scalar(Scalar::Plain(text.to_string())), Tag::Standard(tag))
}

#[test]
fn span_round_trips_and_defaults_to_none() {
    let node = tagged(StandardTag::Int, "1");
    assert_eq!(node.span(), None);
    assert_eq!(node.with_span(Span::new(3, 4)).span(), Some(Span::new(3, 4)));
}

#[test]
fn nodes_differing_only_in_span_are_equal() {
    let node = tagged(StandardTag::Int, "1");
    assert_eq!(node.clone().with_span(Span::new(0, 1)), node);
    assert_eq!(
        node.clone().with_span(Span::new(0, 1)),
        node.clone().with_span(Span::new(9, 10))
    );
}

#[test]
fn is_null_requires_standard_null_tag() {
    assert!(tagged(StandardTag::Null, "null").is_null());
    assert!(!tagged(StandardTag::Str, "null").is_null());
    assert!(!Node::unspecified(Content::Empty).is_null());
}

#[test]
fn as_bool_parses_all_core_schema_forms() {
    for text in ["true", "True", "TRUE"] {
        assert_eq!(Some(true), tagged(StandardTag::Bool, text).as_bool());
    }
    for text in ["false", "False", "FALSE"] {
        assert_eq!(Some(false), tagged(StandardTag::Bool, text).as_bool());
    }
    assert_eq!(None, tagged(StandardTag::Str, "true").as_bool());
}

#[test]
fn as_str_accepts_standard_str_and_non_specific() {
    assert_eq!(Some("foo"), tagged(StandardTag::Str, "foo").as_str());
    let non_specific = Node::new(
        Content::Scalar(Scalar::Plain("foo".to_string())),
        Tag::NonSpecific,
    );
    assert_eq!(Some("foo"), non_specific.as_str());
    assert_eq!(None, tagged(StandardTag::Int, "42").as_str());
}

#[test]
fn as_i64_parses_decimal_octal_and_hex() {
    assert_eq!(Some(7), tagged(StandardTag::Int, "0o7").as_i64());
    assert_eq!(Some(0x1A), tagged(StandardTag::Int, "0x1A").as_i64());
    assert_eq!(Some(-12), tagged(StandardTag::Int, "-12").as_i64());
    assert_eq!(Some(12), tagged(StandardTag::Int, "+12").as_i64());
}

#[test]
fn as_i64_overflow_leaves_node_valid_but_fails_conversion() {
    let node = tagged(StandardTag::Int, "99999999999999999999999");
    assert_eq!(None, node.as_i64());
    assert_eq!(Tag::Standard(StandardTag::Int), node.tag);
    assert_eq!(Some("99999999999999999999999"), node.scalar_text());
}

#[test]
fn as_i64_reads_the_extremes_of_its_range() {
    assert_eq!(Some(i64::MIN), tagged(StandardTag::Int, "-9223372036854775808").as_i64());
    assert_eq!(None, tagged(StandardTag::Int, "-9223372036854775809").as_i64());
    assert_eq!(Some(-i64::MAX), tagged(StandardTag::Int, "-9223372036854775807").as_i64());
    assert_eq!(Some(i64::MAX), tagged(StandardTag::Int, "9223372036854775807").as_i64());
    assert_eq!(None, tagged(StandardTag::Int, "9223372036854775808").as_i64());
    assert_eq!(Some(-255), tagged(StandardTag::Int, "-0xff").as_i64());
}

#[test]
fn span_reports_its_range_and_length() {
    let span = Span::new(2, 5);
    assert_eq!(span.range(), 2..5);
    assert_eq!(span.len(), 3);
    assert!(!span.is_empty());
    assert!(Span::new(4, 4).is_empty());
    assert_eq!(Span::new(5, 2).len(), 0);
}

#[test]
fn accessors_on_non_scalar_content_give_nothing() {
    let seq = Node::new(Content::Sequence(vec![]), Tag::Standard(StandardTag::Str));
    assert_eq!(seq.scalar_text(), None);
    assert_eq!(seq.as_str(), None);
    let empty = Node::new(Content::Empty, Tag::Standard(StandardTag::Str));
    assert_eq!(empty.as_str(), Some(""));
}
