use ya::parse::chars::{is_nb_json, is_non_break};
use ya::parse::input::Text;
use ya::parse::scalar::{double_quoted, escape_to_char, plain, single_quoted};
use ya::parse::spaces::{
    block_line_prefix, break_line_trimmed, flow_folded, forbidden, indent, indent_at_least,
    non_break_comment_text, start_of_line, Context, IndentLevel,
};

fn scan<T>(input: &str, f: impl FnOnce(&Text) -> Option<(T, usize)>) -> Option<(String, T)> {
    let t = Text::new(input);
    f(&t).map(|(v, q)| (input[t.offset(q)..].to_string(), v))
}

fn plain_in(input: &str, c: Context) -> Option<(String, String)> {
    scan(input, |t| plain(t, 0, IndentLevel::initial(), c))
}

fn double_in(input: &str, level: IndentLevel) -> Option<(String, String)> {
    scan(input, |t| double_quoted(t, 0, level, Context::FlowIn))
}

fn pair(rest: &str, text: &str) -> Option<(String, String)> {
    Some((rest.to_string(), text.to_string()))
}

#[test]
fn plain_one_line_flow_key() {
    assert_eq!(plain_in("abc ", Context::FlowKey), pair(" ", "abc"));
}

#[test]
fn plain_stops_before_colon_space() {
    assert_eq!(plain_in("key: value", Context::FlowOut), pair(": value", "key"));
}

#[test]
fn plain_allows_colon_without_following_space() {
    assert_eq!(plain_in("a:b", Context::FlowOut), pair("", "a:b"));
}

#[test]
fn plain_hash_mid_word_is_not_a_comment() {
    assert_eq!(plain_in("foo#bar", Context::FlowOut), pair("", "foo#bar"));
}

#[test]
fn plain_hash_after_space_starts_a_comment() {
    assert_eq!(plain_in("foo #bar", Context::FlowOut), pair(" #bar", "foo"));
}

#[test]
fn plain_negative_number() {
    assert_eq!(plain_in("-123", Context::FlowOut), pair("", "-123"));
}

#[test]
fn plain_leading_colon_flow_indicator() {
    assert_eq!(plain_in("::vector", Context::FlowOut), pair("", "::vector"));
}

#[test]
fn plain_multi_line_folds_and_trims() {
    let input = "1st non-empty\n\n 2nd non-empty \n\t3rd non-empty";
    assert_eq!(
        plain_in(input, Context::FlowOut),
        pair("", "1st non-empty\n2nd non-empty 3rd non-empty")
    );
}

#[test]
fn plain_multi_line_single_char_stays_borrowed() {
    assert_eq!(plain_in("abc", Context::FlowOut), pair("", "abc"));
}

#[test]
fn plain_multi_line_does_not_swallow_document_end_marker() {
    assert_eq!(plain_in("foo\n...\n", Context::FlowOut), pair("\n...\n", "foo"));
}

#[test]
fn plain_stops_at_flow_indicators_inside_flow_collections() {
    assert_eq!(plain_in("a,b", Context::FlowIn), pair(",b", "a"));
    assert_eq!(plain_in("a,b", Context::FlowOut), pair("", "a,b"));
}

#[test]
fn non_break_single_text_single_line() {
    let input = "' 1st non-empty\n\n 2nd non-empty \n 3rd non-empty '";
    assert_eq!(
        scan(input, |t| single_quoted(t, 0, IndentLevel::initial(), Context::FlowIn)),
        pair("", " 1st non-empty\n2nd non-empty 3rd non-empty ")
    );
}

#[test]
fn single_quoted_key_stays_on_one_line() {
    assert_eq!(scan("'a\nb'", |t| single_quoted(t, 0, IndentLevel::initial(), Context::FlowKey)), None);
    assert_eq!(
        scan("'it''s' x", |t| single_quoted(t, 0, IndentLevel::initial(), Context::FlowKey)),
        pair(" x", "it's")
    );
}

#[test]
fn double_quoted_folding() {
    let input = [
        r#""folded "#,
        "\n",
        "to a space,\t\n",
        " \n",
        "to a line feed, or \t",
        r#"\"#,
        "\n",
        r#" \ "#,
        "\tnon-content\"",
    ]
    .concat();
    assert_eq!(
        double_in(&input, IndentLevel::initial()),
        pair("", "folded to a space,\nto a line feed, or \t \tnon-content")
    );
}

#[test]
fn double_quoted_lines() {
    let input = "\" 1st non-empty\n\n 2nd non-empty \n\t3rd non-empty \"";
    assert_eq!(
        double_in(input, IndentLevel::initial()),
        pair("", " 1st non-empty\n2nd non-empty 3rd non-empty ")
    );
}

#[test]
fn double_escaped_line_break_parses_input() {
    assert_eq!(double_in("\"\\\n\"", IndentLevel::initial()), pair("", ""));
    assert_eq!(double_in("\"\\\n  \n\n    a\"", IndentLevel::new(3)), pair("", "\n\na"));
}

#[test]
fn non_break_double_chars_no_escape() {
    assert_eq!(
        double_in("\"foo bar\t\x7f\"", IndentLevel::initial()),
        pair("", "foo bar\t\x7f")
    );
}

#[test]
fn non_break_double_chars_escape() {
    let input = r#""foo\t\x20bar\u3042いうえお \U00010083\n""#;
    assert_eq!(
        double_in(input, IndentLevel::initial()),
        pair("", "foo\t barあいうえお \u{10083}\n")
    );
}

#[test]
fn double_quoted_escaped_tab_before_fold_is_preserved() {
    assert_eq!(double_in("\"1 trailing\\t\n    tab\"", IndentLevel::initial()), pair("", "1 trailing\t tab"));
}

#[test]
fn double_quoted_escaped_tab_with_trailing_spaces_before_fold_is_preserved() {
    assert_eq!(double_in("\"2 trailing\\t  \n    tab\"", IndentLevel::initial()), pair("", "2 trailing\t tab"));
}

#[test]
fn double_quoted_escaped_raw_tab_before_fold_is_preserved() {
    assert_eq!(double_in("\"3 trailing\\\t\n    tab\"", IndentLevel::initial()), pair("", "3 trailing\t tab"));
}

#[test]
fn double_quoted_unescaped_trailing_tab_is_trimmed() {
    assert_eq!(double_in("\"5 trailing\t\n    tab\"", IndentLevel::initial()), pair("", "5 trailing tab"));
}

#[test]
fn double_quoted_rejects_bad_escapes() {
    assert_eq!(double_in("\"\\q\"", IndentLevel::initial()), None);
    assert_eq!(double_in("\"\\uD800\"", IndentLevel::initial()), None);
    assert_eq!(double_in("\"\\x4\"", IndentLevel::initial()), None);
    assert_eq!(double_in("\"open", IndentLevel::initial()), None);
}

#[test]
fn escape_to_char_covers_the_single_character_escapes() {
    assert_eq!(escape_to_char('0'), Some('\0'));
    assert_eq!(escape_to_char('e'), Some('\u{1b}'));
    assert_eq!(escape_to_char('N'), Some('\u{85}'));
    assert_eq!(escape_to_char('P'), Some('\u{2029}'));
    assert_eq!(escape_to_char('\t'), Some('\t'));
    assert_eq!(escape_to_char('x'), None);
}

#[test]
fn indent_takes_exact() {
    let t = Text::new("   _");
    assert_eq!(indent(&t, 0, IndentLevel::new(3)), Some(3));
    assert_eq!(indent(&t, 0, IndentLevel::new(4)), None);
}

#[test]
fn indent_at_least_consumes_larger() {
    let t = Text::new("      _");
    assert_eq!(indent_at_least(&t, 0, IndentLevel::new(3)), Some((6, 6)));
}

#[test]
fn flow_folded_parses_single_break_as_space() {
    let t = Text::new("  \nfoo");
    assert_eq!(flow_folded(&t, 0, IndentLevel::initial()), Some((0, 3)));
}

#[test]
fn flow_folded_parses_multi_breaks_as_newline() {
    let t = Text::new("  \n\nfoo");
    assert_eq!(flow_folded(&t, 0, IndentLevel::initial()), Some((1, 4)));
}

#[test]
fn input_is_start_of_line() {
    let t = Text::new("this\nis\nペン");
    assert!(start_of_line(&t, 0), "beginning must be also start of line");
    assert!(!start_of_line(&t, 1), "middle of line");
    assert!(!start_of_line(&t, 4), "right at line break");
    assert!(start_of_line(&t, 5), "beginning of 2nd line");
    assert!(!start_of_line(&t, 6), "middle of line");
    assert!(start_of_line(&t, 8), "3rd line");
    assert!(!start_of_line(&t, 9), "middle of line");
}

#[test]
fn forbidden_marks_document_markers_at_line_start() {
    let t = Text::new("a\n---\n... x\n---x\n");
    assert!(forbidden(&t, 2));
    assert!(forbidden(&t, 6));
    assert!(!forbidden(&t, 12));
    assert!(!forbidden(&t, 1));
}

#[test]
fn break_line_trimmed_needs_an_empty_line() {
    let t = Text::new("\n\nx");
    assert_eq!(break_line_trimmed(&t, 0, IndentLevel::initial(), Context::BlockIn), Some((1, 2)));
    let t = Text::new("\nx");
    assert_eq!(break_line_trimmed(&t, 0, IndentLevel::initial(), Context::BlockIn), None);
}

#[test]
fn block_line_prefix_is_the_indentation() {
    let t = Text::new("  x");
    assert_eq!(block_line_prefix(&t, 0, IndentLevel::new(2)), Some(2));
    assert_eq!(block_line_prefix(&t, 0, IndentLevel::new(3)), None);
}

#[test]
fn non_break_comment_text_runs_to_the_line_break() {
    let t = Text::new("# hi\nx");
    assert_eq!(non_break_comment_text(&t, 0), Some(4));
    assert_eq!(non_break_comment_text(&t, 5), None);
}

#[test]
fn nb_json_admits_the_tab() {
    assert!(is_nb_json('\t') && is_nb_json('\x7f') && is_nb_json(' '));
    assert!(!is_nb_json('\n') && !is_nb_json('\x1f'));
}

#[test]
fn nb_char_follows_the_printable_set() {
    assert!(is_non_break('\t') && is_non_break(' ') && is_non_break('\u{85}'));
    assert!(is_non_break('\u{a0}') && is_non_break('\u{fffd}') && is_non_break('\u{10000}'));
    assert!(!is_non_break('\u{feff}') && !is_non_break('\u{fffe}') && !is_non_break('\u{ffff}'));
    assert!(!is_non_break('\n') && !is_non_break('\r') && !is_non_break('\u{80}'));
}

#[test]
fn double_quoted_keeps_a_tab() {
    let t = Text::new("\"a\tb\"");
    let (s, q) = double_quoted(&t, 0, IndentLevel::initial(), Context::FlowOut).unwrap();
    assert_eq!(s, "a\tb");
    assert_eq!(q, 5);
}
