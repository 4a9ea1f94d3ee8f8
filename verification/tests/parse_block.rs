use ya::parse::block::{
    block_header, block_in_block, block_map_entry, block_mapping, block_scalar, block_scalar_body,
    block_sequence, compact_mapping, compact_sequence, detect_indentation, ChompingMode,
};
use ya::parse::input::{ParseState, Text};
use ya::parse::spaces::{Context, IndentLevel};
use ya::value::{Content, MapEntry, Node, Scalar};

fn plain(s: &str) -> Node {
    Node::unspecified(Content::Scalar(Scalar::Plain(s.to_string())))
}

fn entry(key: Node, value: Node) -> MapEntry {
    MapEntry { key, value }
}

fn run<T>(
    input: &str,
    f: impl FnOnce(&Text, &mut ParseState, usize) -> Option<(T, usize)>,
) -> Option<(String, T)> {
    let t = Text::new(input);
    let mut st = ParseState::new();
    f(&t, &mut st, 0).map(|(v, q)| (input[t.offset(q)..].to_string(), v))
}

fn header(input: &str) -> (String, Option<usize>, ChompingMode) {
    let t = Text::new(input);
    let (m, c, q) = block_header(&t, 0).unwrap();
    (input[t.offset(q)..].to_string(), m, c)
}

fn body(input: &str, level: IndentLevel, folded: bool) -> Option<(String, Content)> {
    let t = Text::new(input);
    block_scalar_body(&t, 0, level, folded).map(|(c, q)| (input[t.offset(q)..].to_string(), c))
}

fn literal(s: &str) -> Content {
    Content::Scalar(Scalar::Literal(s.to_string()))
}

fn folded(s: &str) -> Content {
    Content::Scalar(Scalar::Folded(s.to_string()))
}

#[test]
fn block_header_empty() {
    assert_eq!(header(" # Empty header\nliteral\n"), ("literal\n".to_string(), None, ChompingMode::Clip));
}

#[test]
fn block_header_indentation_then_chomping() {
    assert_eq!(header("1 # Indentation indicator\nfolded\n"), ("folded\n".to_string(), Some(1), ChompingMode::Clip));
}

#[test]
fn block_header_chomping_only() {
    assert_eq!(header("+ # Chomping indicator\nkeep\n"), ("keep\n".to_string(), None, ChompingMode::Keep));
}

#[test]
fn block_header_both_indicators() {
    assert_eq!(header("1- # Both indicators\nstrip\n"), ("strip\n".to_string(), Some(1), ChompingMode::Strip));
    assert_eq!(
        header("-1 # Both indicators, reversed order\nstrip\n"),
        ("strip\n".to_string(), Some(1), ChompingMode::Strip)
    );
}

#[test]
fn detect_indentation_from_first_non_empty_line() {
    let t = Text::new(" detected\n");
    let detected = detect_indentation(&t, 0, IndentLevel::initial()).unwrap();
    assert_eq!(Some(1), detected.content);
    assert_eq!(1, detected.bound);
}

#[test]
fn detect_indentation_rejects_over_indented_leading_empty_line() {
    let t = Text::new("  \n text\n");
    assert_eq!(detect_indentation(&t, 0, IndentLevel::initial()), None);
}

#[test]
fn detect_indentation_stops_at_sibling_content_not_indented_further() {
    let t = Text::new("sibling: x\n");
    let detected = detect_indentation(&t, 0, IndentLevel::new(0)).unwrap();
    assert_eq!(None, detected.content);
    assert_eq!(0, detected.bound);
}

#[test]
fn detect_indentation_detects_zero_indented_content_at_document_root() {
    let t = Text::new("line1\nline2\n");
    let detected = detect_indentation(&t, 0, IndentLevel::initial()).unwrap();
    assert_eq!(Some(0), detected.content);
}

#[test]
fn keep_empty_counts_final_blank_line_with_no_trailing_break() {
    assert_eq!(body("|+4\n   ", IndentLevel::initial(), false), Some((String::new(), literal("\n"))));
}

#[test]
fn literal_clip_keeps_final_break() {
    assert_eq!(body("|\n  text\n", IndentLevel::new(0), false), Some((String::new(), literal("text\n"))));
}

#[test]
fn literal_strip_drops_final_break() {
    assert_eq!(body("|-\n  text\n", IndentLevel::new(0), false), Some((String::new(), literal("text"))));
}

#[test]
fn literal_keep_keeps_trailing_empty_lines() {
    assert_eq!(body("|+\n  text\n", IndentLevel::new(0), false), Some((String::new(), literal("text\n"))));
}

#[test]
fn literal_scalar_example() {
    assert_eq!(
        body("|\n literal\n \ttext\n\n", IndentLevel::initial(), false),
        Some((String::new(), literal("literal\n\ttext\n")))
    );
}

#[test]
fn literal_content_example() {
    let input = "|\n \n  \n  literal\n   \n  \n  text\n\n # Comment\n";
    assert_eq!(
        body(input, IndentLevel::initial(), false),
        Some((String::new(), literal("\n\nliteral\n \n\ntext\n")))
    );
}

#[test]
fn folded_scalar_example() {
    assert_eq!(
        body(">\n folded\n text\n\n", IndentLevel::initial(), true),
        Some((String::new(), folded("folded text\n")))
    );
}

#[test]
fn folded_strip_drops_final_break() {
    assert_eq!(body(">-\n  text\n", IndentLevel::new(0), true), Some((String::new(), folded("text"))));
}

#[test]
fn folded_lines_fold_single_breaks_to_spaces() {
    assert_eq!(
        body(">\n folded\n line\n\n next\n line\n\n", IndentLevel::initial(), true),
        Some((String::new(), folded("folded line\nnext line\n")))
    );
}

#[test]
fn folded_more_indented_lines_are_not_folded() {
    assert_eq!(
        body(">\n literal\n   more\n literal\n", IndentLevel::initial(), true),
        Some((String::new(), folded("literal\n  more\nliteral\n")))
    );
}

#[test]
fn block_scalar_literal() {
    let (rest, node) = run(" |\n  text\n", |t, st, p| {
        block_scalar(t, st, p, IndentLevel::initial(), Context::BlockOut)
    })
    .unwrap();
    assert_eq!(rest, "");
    assert_eq!(node.value, literal("text\n"));
}

#[test]
fn block_scalar_folded() {
    let (rest, node) = run(" >\n  text\n", |t, st, p| {
        block_scalar(t, st, p, IndentLevel::initial(), Context::BlockOut)
    })
    .unwrap();
    assert_eq!(rest, "");
    assert_eq!(node.value, folded("text\n"));
}

#[test]
fn block_mapping_example_8_16() {
    let (rest, got) = run(" key: value\n", |t, st, p| block_mapping(t, st, p, IndentLevel::new(0))).unwrap();
    assert_eq!(rest, "");
    assert_eq!(got, vec![entry(plain("key"), plain("value"))]);
}

#[test]
fn block_map_explicit_entry_example_8_17() {
    let (rest, got) = run("? explicit key\n: value\n", |t, st, p| {
        block_map_entry(t, st, p, IndentLevel::initial())
    })
    .unwrap();
    assert_eq!(rest, "");
    assert_eq!(got, entry(plain("explicit key"), plain("value")));
}

#[test]
fn block_map_explicit_entry_without_value_is_empty() {
    let (rest, got) = run("? key\n", |t, st, p| block_map_entry(t, st, p, IndentLevel::initial())).unwrap();
    assert_eq!(rest, "");
    assert_eq!(got, entry(plain("key"), Node::unspecified(Content::Empty)));
}

#[test]
fn compact_mapping_example_8_19() {
    let (rest, got) = run("sun: yellow\n", |t, st, p| compact_mapping(t, st, p, IndentLevel::new(2))).unwrap();
    assert_eq!(rest, "");
    assert_eq!(got, vec![entry(plain("sun"), plain("yellow"))]);
}

#[test]
fn block_sequence_example_8_14() {
    let (rest, got) = run("  - one\n  - two\n", |t, st, p| block_sequence(t, st, p, IndentLevel::new(0))).unwrap();
    assert_eq!(rest, "");
    assert_eq!(got, vec![plain("one"), plain("two")]);
}

#[test]
fn compact_sequence_nested_dash() {
    let (rest, got) = run("- one\n  - two\n", |t, st, p| compact_sequence(t, st, p, IndentLevel::new(2))).unwrap();
    assert_eq!(rest, "");
    assert_eq!(got, vec![plain("one"), plain("two")]);
}

#[test]
fn block_in_block_reads_a_block_collection() {
    let (rest, got) = run("- a\n- b\n", |t, st, p| {
        block_in_block(t, st, p, IndentLevel::initial(), Context::BlockIn)
    })
    .unwrap();
    assert_eq!(rest, "");
    assert_eq!(got.value, Content::Sequence(vec![plain("a"), plain("b")]));
}

#[test]
fn block_in_block_leaves_flow_content_alone() {
    assert!(run("a\n", |t, st, p| {
        block_in_block(t, st, p, IndentLevel::initial(), Context::BlockIn)
    })
    .is_none());
}
