//! Character classes of the YAML grammar.
//!
//! Each predicate has a spec function of the same meaning, stated over the character's code
//! point, that the rest of the library's contracts use.
use vstd::prelude::*;

verus! {

/// Byte-order mark.
pub const BOM: char = '\u{feff}';

/// `nb-char`: a printable character (`c-printable`) that is neither a line break nor the
/// byte-order mark: tab, U+0020..U+007E, U+0085, U+00A0..U+FFFD other than U+FEFF (the
/// surrogates are no characters), and U+10000 up.
pub open spec fn spec_non_break(c: char) -> bool {
    let u = c as u32;
    ||| u == 0x09
    ||| (0x20 <= u && u <= 0x7E)
    ||| u == 0x85
    ||| (0xA0 <= u && u <= 0xFFFD && u != 0xFEFF)
    ||| u >= 0x10000
}

/// `s-white`: space or tab.
pub open spec fn spec_white_space(c: char) -> bool {
    c == ' ' || c == '\t'
}

/// `ns-char`: a non-break character that is not white space.
pub open spec fn spec_non_space(c: char) -> bool {
    spec_non_break(c) && !spec_white_space(c)
}

/// `c-flow-indicator`.
pub open spec fn spec_flow_indicator(c: char) -> bool {
    c == ',' || c == '[' || c == ']' || c == '{' || c == '}'
}

/// `c-indicator`.
pub open spec fn spec_indicator(c: char) -> bool {
    c == '-' || c == '?' || c == ':' || c == ',' || c == '[' || c == ']' || c == '{' || c == '}'
        || c == '#' || c == '&' || c == '*' || c == '!' || c == '|' || c == '>' || c == '\''
        || c == '"' || c == '%' || c == '@' || c == '`'
}

/// ASCII decimal digit.
pub open spec fn spec_dec_digit(c: char) -> bool {
    '0' <= c && c <= '9'
}

/// ASCII hexadecimal digit.
pub open spec fn spec_hex_digit(c: char) -> bool {
    ('0' <= c && c <= '9') || ('a' <= c && c <= 'f') || ('A' <= c && c <= 'F')
}

/// `ns-word-char`: ASCII alphanumeric or `-`.
pub open spec fn spec_word_char(c: char) -> bool {
    spec_dec_digit(c) || ('a' <= c && c <= 'z') || ('A' <= c && c <= 'Z') || c == '-'
}

/// The single-character alternatives of `ns-uri-char`.
pub open spec fn spec_uri_char_single(c: char) -> bool {
    spec_word_char(c) || c == '#' || c == ';' || c == '/' || c == '?' || c == ':' || c == '@'
        || c == '&' || c == '=' || c == '+' || c == '$' || c == ',' || c == '_' || c == '.'
        || c == '!' || c == '~' || c == '*' || c == '\'' || c == '(' || c == ')' || c == '['
        || c == ']'
}

/// `ns-tag-char`: a single-character URI char other than `!` and the flow indicators.
pub open spec fn spec_tag_char(c: char) -> bool {
    spec_uri_char_single(c) && c != '!' && !spec_flow_indicator(c)
}

/// `nb-json`: the tab, or any character from U+0020 up.
pub open spec fn spec_nb_json(c: char) -> bool {
    c == '\t' || (c as u32) >= 0x20
}

/// `ns-plain-safe-out`.
pub open spec fn spec_plain_safe_out(c: char) -> bool {
    spec_non_space(c)
}

/// `ns-plain-safe-in`.
pub open spec fn spec_plain_safe_in(c: char) -> bool {
    spec_plain_safe_out(c) && !spec_flow_indicator(c)
}

/// Non-break chars (`nb-char`).
pub fn is_non_break(c: char) -> (r: bool)
    ensures
        r == spec_non_break(c),
{
    let u = c as u32;
    u == 0x09 || (0x20 <= u && u <= 0x7E) || u == 0x85 || (0xA0 <= u && u <= 0xFFFD && u
        != 0xFEFF) || u >= 0x10000
}

/// Non-break non-space chars (`ns-char`).
pub fn is_non_space(c: char) -> (r: bool)
    ensures
        r == spec_non_space(c),
{
    is_non_break(c) && !is_white_space(c)
}

/// White space, ASCII tab or space (`s-white`).
pub fn is_white_space(c: char) -> (r: bool)
    ensures
        r == spec_white_space(c),
{
    c == '\t' || c == ' '
}

/// Flow indicator chars (`c-flow-indicator`).
pub fn is_flow_indicator(c: char) -> (r: bool)
    ensures
        r == spec_flow_indicator(c),
{
    c == ',' || c == '[' || c == ']' || c == '{' || c == '}'
}

/// Indicator chars (`c-indicator`).
pub fn is_indicator(c: char) -> (r: bool)
    ensures
        r == spec_indicator(c),
{
    c == '-' || c == '?' || c == ':' || c == ',' || c == '[' || c == ']' || c == '{' || c == '}'
        || c == '#' || c == '&' || c == '*' || c == '!' || c == '|' || c == '>' || c == '\''
        || c == '"' || c == '%' || c == '@' || c == '`'
}

/// Word chars (`ns-word-char`), used in tag handles.
pub fn is_word_char(c: char) -> (r: bool)
    ensures
        r == spec_word_char(c),
{
    ('0' <= c && c <= '9') || ('a' <= c && c <= 'z') || ('A' <= c && c <= 'Z') || c == '-'
}

/// The single-character (i.e. non-`%XX`-escape) alternatives of `ns-uri-char`.
pub fn is_uri_char_single(c: char) -> (r: bool)
    ensures
        r == spec_uri_char_single(c),
{
    is_word_char(c) || c == '#' || c == ';' || c == '/' || c == '?' || c == ':' || c == '@'
        || c == '&' || c == '=' || c == '+' || c == '$' || c == ',' || c == '_' || c == '.'
        || c == '!' || c == '~' || c == '*' || c == '\'' || c == '(' || c == ')' || c == '['
        || c == ']'
}

/// Tag chars (`ns-tag-char`): URI chars minus `!` and the flow indicators.
pub fn is_tag_char(c: char) -> (r: bool)
    ensures
        r == spec_tag_char(c),
{
    is_uri_char_single(c) && c != '!' && !is_flow_indicator(c)
}

/// ASCII hexadecimal digit.
pub fn is_hex_digit(c: char) -> (r: bool)
    ensures
        r == spec_hex_digit(c),
{
    ('0' <= c && c <= '9') || ('a' <= c && c <= 'f') || ('A' <= c && c <= 'F')
}

/// ASCII decimal digit.
pub fn is_dec_digit(c: char) -> (r: bool)
    ensures
        r == spec_dec_digit(c),
{
    '0' <= c && c <= '9'
}

/// JSON compatible chars (`nb-json`).
pub fn is_nb_json(c: char) -> (r: bool)
    ensures
        r == spec_nb_json(c),
{
    c == '\t' || (c as u32) >= 0x20
}

/// Plain safe chars outside of flow context (`ns-plain-safe-out`).
pub fn is_plain_safe_out(c: char) -> (r: bool)
    ensures
        r == spec_plain_safe_out(c),
{
    is_non_space(c)
}

/// Plain safe chars inside flow context (`ns-plain-safe-in`).
pub fn is_plain_safe_in(c: char) -> (r: bool)
    ensures
        r == spec_plain_safe_in(c),
{
    is_plain_safe_out(c) && !is_flow_indicator(c)
}

/// The value of a hexadecimal digit.
pub open spec fn spec_hex_value(c: char) -> nat {
    if '0' <= c && c <= '9' {
        (c as u32 - '0' as u32) as nat
    } else if 'a' <= c && c <= 'f' {
        (c as u32 - 'a' as u32 + 10) as nat
    } else if 'A' <= c && c <= 'F' {
        (c as u32 - 'A' as u32 + 10) as nat
    } else {
        0
    }
}

/// The value of a hexadecimal digit.
pub fn hex_value(c: char) -> (r: u32)
    requires
        spec_hex_digit(c),
    ensures
        r == spec_hex_value(c),
        r < 16,
{
    if '0' <= c && c <= '9' {
        c as u32 - '0' as u32
    } else if 'a' <= c && c <= 'f' {
        c as u32 - 'a' as u32 + 10
    } else {
        c as u32 - 'A' as u32 + 10
    }
}

} // verus!
