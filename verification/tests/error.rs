use ya::error::{clamp, locate, Excerpt};
use ya::value::Span;
use ya::OwnedParseError;

#[test]
fn locate_reports_line_column_and_line_text() {
    let input = "one\ntwo\nthree\n";
    assert_eq!(locate(input, 0), (1, 1, "one".to_string()));
    assert_eq!(locate(input, 3), (1, 4, "one".to_string()));
    assert_eq!(locate(input, 4), (2, 1, "two".to_string()));
    assert_eq!(locate(input, 9), (3, 2, "three".to_string()));
    assert_eq!(locate(input, input.len()), (4, 1, "".to_string()));
}

#[test]
fn locate_counts_columns_in_chars_not_bytes() {
    let input = "ペン";
    assert_eq!(locate(input, 3), (1, 2, "ペン".to_string()));
}

#[test]
fn locate_clamps_an_out_of_range_offset() {
    assert_eq!(locate("ab", 99), (1, 3, "ab".to_string()));
}

#[test]
fn excerpt_covers_the_lines_its_span_touches() {
    let input = "one\ntwo\nthree\n";
    let excerpt = Excerpt::new(input, Span::new(4, 7));
    assert_eq!(excerpt.line(), 2);
    assert_eq!(excerpt.column(), 1);
    assert_eq!(excerpt.text(), "two");
    assert_eq!(excerpt.span_in_text(), 0..3);

    let excerpt = Excerpt::new(input, Span::new(5, 9));
    assert_eq!(excerpt.line(), 2);
    assert_eq!(excerpt.column(), 2);
    assert_eq!(excerpt.text(), "two\nthree");
    assert_eq!(&excerpt.text()[excerpt.span_in_text()], "wo\nt");
}

#[test]
fn excerpt_at_points_at_a_position_with_no_extent() {
    let excerpt = Excerpt::at("foo: [bar\n", 5);
    assert_eq!((excerpt.line(), excerpt.column()), (1, 6));
    assert_eq!(excerpt.line_text(), "foo: [bar");
    assert!(excerpt.span().is_empty());
}

#[test]
fn excerpt_handles_an_offset_at_end_of_input() {
    let excerpt = Excerpt::at("ab", 2);
    assert_eq!((excerpt.line(), excerpt.column()), (1, 3));
    assert_eq!(excerpt.text(), "ab");
    assert_eq!(excerpt.span_in_text(), 2..2);
}

#[test]
fn owned_parse_error_renders_the_offending_line_with_a_caret() {
    let err = OwnedParseError::from_parts("key: value\nfoo: [bar\n", 16, "expected `]`".to_string());
    assert_eq!(
        err.to_string(),
        "\
error: expected `]`
  |
2 | foo: [bar
  |      ^"
    );
}

#[test]
fn parse_error_without_a_message_still_renders_a_title() {
    let err = OwnedParseError::from_parts("[a, b", 0, String::new());
    assert!(err.to_string().starts_with("error: invalid YAML syntax"));
    assert!(err.to_string().contains("[a, b"));
}

#[test]
fn clamp_moves_an_offset_back_onto_a_character_boundary() {
    assert_eq!(clamp("ペン", 1), 0);
    assert_eq!(clamp("ペン", 3), 3);
    assert_eq!(clamp("ペン", 4), 3);
    assert_eq!(clamp("ab", 99), 2);
}

#[test]
fn owned_parse_error_reports_its_position() {
    let err = OwnedParseError::from_parts("a\nbc\n", 3, "m".to_string());
    assert_eq!(err.offset(), 3);
    assert_eq!(err.line(), 2);
    assert_eq!(err.column(), 2);
    assert_eq!(err.line_text(), "bc");
    assert_eq!(err.message(), "m");
}

#[test]
fn multiple_documents_error_has_its_message() {
    assert_eq!(
        ya::Error::MultipleDocuments.to_string(),
        "expected a single YAML document, found a stream of more than one"
    );
}

#[test]
fn error_offset_is_the_greatest_char_boundary_at_or_below() {
    let input = "aé b";
    assert_eq!(OwnedParseError::from_parts(input, 1, String::new()).offset(), 1);
    assert_eq!(OwnedParseError::from_parts(input, 2, String::new()).offset(), 1);
    assert_eq!(OwnedParseError::from_parts(input, 3, String::new()).offset(), 3);
    assert_eq!(OwnedParseError::from_parts(input, 99, String::new()).offset(), input.len());
}
