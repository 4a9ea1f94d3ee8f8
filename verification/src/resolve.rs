//! Tag resolution against the Core Schema.
//!
//! [`resolve`] is a post-pass over an already-parsed [`Stream`]: it rewrites *tags only*, never
//! scalar content, turning [`Tag::Unspecified`] and canonical [`Tag::Global`] values into
//! [`Tag::Standard`]. [`Tag::NonSpecific`] (the explicit bare `!`) is deliberately left as it is:
//! the reference event streams record it as written, and the [`Node`] accessors already treat it
//! as its forced kind.
use vstd::prelude::*;

use crate::error::{render, spec_excerpt, spec_render, Excerpt, ExcerptV};
use crate::parse::chars::{spec_hex_digit, spec_hex_value};
use crate::text::{byte_len, chars_of, slice_of, string_of};
use crate::value::{
    bool_value, entries_view, lemma_entries_view_len, lemma_nodes_view_len, node_view,
    nodes_view, spec_all_digits, spec_bool_value, spec_has_radix_prefix, spec_radix_digit,
    spec_split_sign, Content, ContentV, Document, MapEntry, Mapping, Node, NodeV, Scalar,
    ScalarStyle, Span, StandardTag, Stream, Tag, TagV, spans_in, content_spans_in,
};

verus! {

broadcast use vstd::std_specs::vec::group_vec_axioms;

// ---------------------------------------------------------------------------------------------
// Core Schema classifiers
// ---------------------------------------------------------------------------------------------
/// `null | Null | NULL | ~ | /* Empty */`.
pub open spec fn spec_is_null(s: Seq<char>) -> bool {
    s == seq!['n', 'u', 'l', 'l'] || s == seq!['N', 'u', 'l', 'l'] || s == seq!['N', 'U', 'L', 'L']
        || s == seq!['~'] || s.len() == 0
}

/// `true | True | TRUE | false | False | FALSE`.
pub open spec fn spec_is_bool(s: Seq<char>) -> bool {
    spec_bool_value(s) is Some
}

/// `[-+]? [0-9]+`.
pub open spec fn spec_is_dec_int(s: Seq<char>) -> bool {
    let body = spec_split_sign(s).1;
    body.len() > 0 && spec_all_digits(body, 10)
}

/// `0` followed by `c`, then one or more digits of `radix`.
pub open spec fn spec_is_radix_int(s: Seq<char>, c: char, radix: nat) -> bool {
    spec_has_radix_prefix(s, c) && s.skip(2).len() > 0 && spec_all_digits(s.skip(2), radix)
}

/// `[-+]? [0-9]+ | 0o [0-7]+ | 0x [0-9a-fA-F]+`.
pub open spec fn spec_is_int(s: Seq<char>) -> bool {
    spec_is_dec_int(s) || spec_is_radix_int(s, 'o', 8) || spec_is_radix_int(s, 'x', 16)
}

/// The index of the first `c` in `s` at or after `i`.
pub open spec fn spec_find_from(s: Seq<char>, c: char, i: int) -> Option<int>
    decreases s.len() - i,
{
    if i < 0 || i >= s.len() {
        None
    } else if s[i] == c {
        Some(i)
    } else {
        spec_find_from(s, c, i + 1)
    }
}

/// The index of the first `c` in `s`.
pub open spec fn spec_find(s: Seq<char>, c: char) -> Option<int> {
    spec_find_from(s, c, 0)
}

/// A float's mantissa: `\.[0-9]+ | [0-9]+ ( \.[0-9]* )?`.
pub open spec fn spec_is_float_mantissa(m: Seq<char>) -> bool {
    if m.len() > 0 && m[0] == '.' {
        m.drop_first().len() > 0 && spec_all_digits(m.drop_first(), 10)
    } else {
        match spec_find(m, '.') {
            Some(i) => i > 0 && spec_all_digits(m.subrange(0, i), 10) && spec_all_digits(
                m.subrange(i + 1, m.len() as int),
                10,
            ),
            None => m.len() > 0 && spec_all_digits(m, 10),
        }
    }
}

/// `[-+]? ( \.[0-9]+ | [0-9]+ ( \.[0-9]* )? ) ( [eE] [-+]? [0-9]+ )?`, the exponent split off at
/// the first `e`, or failing that the first `E`.
pub open spec fn spec_is_regular_float(s: Seq<char>) -> bool {
    let rest = spec_split_sign(s).1;
    let split = match spec_find(rest, 'e') {
        Some(i) => Some(i),
        None => spec_find(rest, 'E'),
    };
    match split {
        Some(i) => spec_is_float_mantissa(rest.subrange(0, i)) && spec_is_dec_int(
            rest.subrange(i + 1, rest.len() as int),
        ),
        None => spec_is_float_mantissa(rest),
    }
}

/// `.inf | .Inf | .INF`.
pub open spec fn spec_is_inf(s: Seq<char>) -> bool {
    s == seq!['.', 'i', 'n', 'f'] || s == seq!['.', 'I', 'n', 'f'] || s == seq!['.', 'I', 'N', 'F']
}

/// `.nan | .NaN | .NAN`.
pub open spec fn spec_is_nan(s: Seq<char>) -> bool {
    s == seq!['.', 'n', 'a', 'n'] || s == seq!['.', 'N', 'a', 'N'] || s == seq!['.', 'N', 'A', 'N']
}

/// `[-+]? ( \.inf | \.Inf | \.INF ) | \.nan | \.NaN | \.NAN`, or a regular float.
pub open spec fn spec_is_float(s: Seq<char>) -> bool {
    spec_is_inf(spec_split_sign(s).1) || spec_is_nan(s) || spec_is_regular_float(s)
}

/// The Core Schema's classification of `s`, in the table's own order; `None` falls back to str.
pub open spec fn spec_classify(s: Seq<char>) -> Option<StandardTag> {
    if spec_is_null(s) {
        Some(StandardTag::Null)
    } else if spec_is_bool(s) {
        Some(StandardTag::Bool)
    } else if spec_is_int(s) {
        Some(StandardTag::Int)
    } else if spec_is_float(s) {
        Some(StandardTag::Float)
    } else {
        None
    }
}

proof fn lemma_find_none(s: Seq<char>, c: char, i: int)
    requires
        0 <= i,
        forall|j: int| i <= j < s.len() ==> s[j] != c,
    ensures
        spec_find_from(s, c, i) is None,
    decreases s.len() - i,
{
    if i < s.len() {
        lemma_find_none(s, c, i + 1);
    }
}

proof fn lemma_find_at(s: Seq<char>, c: char, i: int, k: int)
    requires
        0 <= i <= k < s.len(),
        s[k] == c,
        forall|j: int| i <= j < k ==> s[j] != c,
    ensures
        spec_find_from(s, c, i) == Some(k),
    decreases k - i,
{
    if i < k {
        lemma_find_at(s, c, i + 1, k);
    }
}

/// A run of decimal digits, a point, and another run of decimal digits (the first run not
/// empty, the second perhaps empty), after an optional sign, is what the Core Schema reads as a
/// float: `[-+]? [0-9]+ \. [0-9]*` resolves to `tag:yaml.org,2002:float`, whatever its digits.
pub proof fn lemma_decimal_point_is_float(sign: Seq<char>, a: Seq<char>, b: Seq<char>)
    requires
        sign == Seq::<char>::empty() || sign == seq!['-'] || sign == seq!['+'],
        a.len() > 0,
        forall|i: int| 0 <= i < a.len() ==> '0' <= #[trigger] a[i] && a[i] <= '9',
        forall|i: int| 0 <= i < b.len() ==> '0' <= #[trigger] b[i] && b[i] <= '9',
    ensures
        spec_classify(sign + a + seq!['.'] + b) == Some(StandardTag::Float),
{
    let s = sign + a + seq!['.'] + b;
    let rest = a + seq!['.'] + b;
    let d = a.len() as int;
    assert(spec_split_sign(s).1 =~= rest) by {
        if sign.len() > 0 {
            assert(s.drop_first() =~= rest);
        } else {
            assert(s =~= rest);
        }
    }
    assert(rest[d] == '.');
    assert(rest[0] == a[0]);
    assert(s[sign.len() + d] == '.');
    assert forall|j: int| 0 <= j < rest.len() implies rest[j] != 'e' && rest[j] != 'E' by {
        if j < d {
            assert(rest[j] == a[j]);
        } else if j > d {
            assert(rest[j] == b[j - d - 1]);
        }
    }
    // Not null, bool or int: each of those has no point.
    let e = sign.len() + d;
    assert(s != seq!['n', 'u', 'l', 'l'] && s != seq!['N', 'u', 'l', 'l'] && s != seq!['N', 'U', 'L', 'L']
        && s != seq!['~'] && s.len() != 0);
    assert(spec_bool_value(s) is None);
    assert(!spec_all_digits(rest, 10)) by {
        assert(!spec_radix_digit(rest[d], 10));
    }
    assert(!spec_is_radix_int(s, 'o', 8) && !spec_is_radix_int(s, 'x', 16)) by {
        if sign.len() == 0 && a.len() >= 2 {
            assert(s[1] == a[1]);
        }
    }
    assert(!spec_is_inf(rest));
    assert(!spec_is_nan(s));
    lemma_find_none(rest, 'e', 0);
    lemma_find_none(rest, 'E', 0);
    assert forall|j: int| 0 <= j < d implies rest[j] != '.' by {
        assert(rest[j] == a[j]);
    }
    lemma_find_at(rest, '.', 0, d);
    assert(rest.subrange(0, d) =~= a);
    assert(rest.subrange(d + 1, rest.len() as int) =~= b);
    assert(spec_is_float_mantissa(rest));
}

fn strip_sign(s: &[char]) -> (r: &[char])
    ensures
        r@ == spec_split_sign(s@).1,
{
    if s.len() > 0 && (s[0] == '-' || s[0] == '+') {
        let r = &s[1..s.len()];
        assert(r@ =~= s@.drop_first());
        r
    } else {
        s
    }
}

fn all_digits(s: &[char], radix: u32) -> (r: bool)
    requires
        radix == 8 || radix == 10 || radix == 16,
    ensures
        r == spec_all_digits(s@, radix as nat),
{
    let mut i: usize = 0;
    while i < s.len()
        invariant
            i <= s.len(),
            radix == 8 || radix == 10 || radix == 16,
            forall|j: int| 0 <= j < i ==> spec_radix_digit(#[trigger] s@[j], radix as nat),
        decreases s.len() - i,
    {
        let c = s[i];
        let ok = if radix == 16 {
            crate::parse::chars::is_hex_digit(c)
        } else if radix == 8 {
            '0' <= c && c <= '7'
        } else {
            '0' <= c && c <= '9'
        };
        if !ok {
            return false;
        }
        i = i + 1;
    }
    true
}

fn is_dec_int(s: &[char]) -> (r: bool)
    ensures
        r == spec_is_dec_int(s@),
{
    let body = strip_sign(s);
    body.len() > 0 && all_digits(body, 10)
}

fn is_radix_int(s: &[char], c: char, radix: u32) -> (r: bool)
    requires
        radix == 8 || radix == 16,
    ensures
        r == spec_is_radix_int(s@, c, radix as nat),
{
    if s.len() >= 2 && s[0] == '0' && s[1] == c {
        let rest = &s[2..s.len()];
        assert(rest@ =~= s@.skip(2));
        rest.len() > 0 && all_digits(rest, radix)
    } else {
        false
    }
}

fn find(s: &[char], c: char) -> (r: Option<usize>)
    ensures
        r matches Some(i) ==> spec_find(s@, c) == Some(i as int) && i < s@.len(),
        r is None ==> spec_find(s@, c) is None,
{
    let mut i: usize = 0;
    while i < s.len()
        invariant
            i <= s.len(),
            spec_find_from(s@, c, i as int) == spec_find(s@, c),
        decreases s.len() - i,
    {
        if s[i] == c {
            return Some(i);
        }
        i = i + 1;
    }
    None
}

fn is_float_mantissa(m: &[char]) -> (r: bool)
    ensures
        r == spec_is_float_mantissa(m@),
{
    if m.len() > 0 && m[0] == '.' {
        let frac = slice_of(m, 1, m.len());
        assert(frac@ =~= m@.drop_first());
        return frac.len() > 0 && all_digits(frac, 10);
    }
    match find(m, '.') {
        Some(i) => i > 0 && all_digits(slice_of(m, 0, i), 10) && all_digits(slice_of(m, i + 1, m.len()), 10),
        None => m.len() > 0 && all_digits(m, 10),
    }
}

fn is_regular_float(s: &[char]) -> (r: bool)
    ensures
        r == spec_is_regular_float(s@),
{
    let rest = strip_sign(s);
    let split = match find(rest, 'e') {
        Some(i) => Some(i),
        None => find(rest, 'E'),
    };
    match split {
        Some(i) => {
            let n = rest.len();
            is_float_mantissa(slice_of(rest, 0, i)) && is_dec_int(slice_of(rest, i + 1, n))
        },
        None => is_float_mantissa(rest),
    }
}

fn is_one_of3(s: &[char], a: &[char], b: &[char], c: &[char]) -> (r: bool)
    ensures
        r == (s@ == a@ || s@ == b@ || s@ == c@),
{
    crate::text::same_chars(s, a) || crate::text::same_chars(s, b) || crate::text::same_chars(s, c)
}

fn is_inf(s: &[char]) -> (r: bool)
    ensures
        r == spec_is_inf(s@),
{
    let a = ['.', 'i', 'n', 'f'];
    let b = ['.', 'I', 'n', 'f'];
    let c = ['.', 'I', 'N', 'F'];
    assert(a@ == seq!['.', 'i', 'n', 'f']);
    assert(b@ == seq!['.', 'I', 'n', 'f']);
    assert(c@ == seq!['.', 'I', 'N', 'F']);
    is_one_of3(s, &a, &b, &c)
}

fn is_nan(s: &[char]) -> (r: bool)
    ensures
        r == spec_is_nan(s@),
{
    let a = ['.', 'n', 'a', 'n'];
    let b = ['.', 'N', 'a', 'N'];
    let c = ['.', 'N', 'A', 'N'];
    assert(a@ == seq!['.', 'n', 'a', 'n']);
    assert(b@ == seq!['.', 'N', 'a', 'N']);
    assert(c@ == seq!['.', 'N', 'A', 'N']);
    is_one_of3(s, &a, &b, &c)
}

fn is_null(s: &[char]) -> (r: bool)
    ensures
        r == spec_is_null(s@),
{
    let a = ['n', 'u', 'l', 'l'];
    let b = ['N', 'u', 'l', 'l'];
    let c = ['N', 'U', 'L', 'L'];
    let d = ['~'];
    assert(a@ == seq!['n', 'u', 'l', 'l']);
    assert(b@ == seq!['N', 'u', 'l', 'l']);
    assert(c@ == seq!['N', 'U', 'L', 'L']);
    assert(d@ == seq!['~']);
    is_one_of3(s, &a, &b, &c) || crate::text::same_chars(s, &d) || s.len() == 0
}

/// Classifies `text` against the Core Schema's null/bool/int/float patterns.
fn classify_chars(text: &[char]) -> (r: Option<StandardTag>)
    ensures
        r == spec_classify(text@),
{
    if is_null(text) {
        Some(StandardTag::Null)
    } else if bool_value(text).is_some() {
        Some(StandardTag::Bool)
    } else if is_dec_int(text) || is_radix_int(text, 'o', 8) || is_radix_int(text, 'x', 16) {
        Some(StandardTag::Int)
    } else if is_inf(strip_sign(text)) || is_nan(text) || is_regular_float(text) {
        Some(StandardTag::Float)
    } else {
        None
    }
}

/// Classifies `text` (a plain scalar's content, or an explicitly-tagged scalar's content)
/// against the Core Schema's null/bool/int/float patterns, in the table's own order. `None` if
/// nothing matches (falls back to `str`).
pub fn classify_core_schema(text: &str) -> (r: Option<StandardTag>)
    ensures
        r == spec_classify(text@),
{
    let cs = chars_of(text);
    classify_chars(cs.as_slice())
}

// ---------------------------------------------------------------------------------------------
// Tag URIs
// ---------------------------------------------------------------------------------------------
/// The byte a `%` escape's two characters stand for, as `u8::from_str_radix(.., 16)` reads
/// them: two hex digits, or `+` and one hex digit.
pub open spec fn spec_hex_pair(a: char, b: char) -> Option<u8> {
    if spec_hex_digit(a) && spec_hex_digit(b) {
        Some((16 * spec_hex_value(a) + spec_hex_value(b)) as u8)
    } else if a == '+' && spec_hex_digit(b) {
        Some(spec_hex_value(b) as u8)
    } else {
        None
    }
}

/// `s` starts with a `%` escape that decodes.
pub open spec fn spec_escape_at_start(s: Seq<char>) -> bool {
    s.len() >= 3 && s[0] == '%' && spec_hex_pair(s[1], s[2]) is Some
}

/// The bytes of a tag URI once its `%XX` escapes are decoded; every other character stands
/// for its own UTF-8 encoding.
pub open spec fn spec_decode_bytes(s: Seq<char>) -> Seq<u8>
    decreases s.len(),
{
    if s.len() == 0 {
        Seq::empty()
    } else if spec_escape_at_start(s) {
        seq![spec_hex_pair(s[1], s[2])->0] + spec_decode_bytes(s.skip(3))
    } else {
        vstd::utf8::encode_utf8(seq![s[0]]) + spec_decode_bytes(s.drop_first())
    }
}

/// A tag URI with its `%XX` escapes decoded, or the URI as written when the decoded bytes are
/// not valid UTF-8.
pub open spec fn spec_decode_tag_uri(s: Seq<char>) -> Seq<char> {
    let b = spec_decode_bytes(s);
    if vstd::utf8::valid_utf8(b) {
        vstd::utf8::decode_utf8(b)
    } else {
        s
    }
}

/// The UTF-8 encoding of `c`, byte by byte as vstd's `encode_scalar` states it.
fn encode_char(c: char) -> (r: Vec<u8>)
    ensures
        r@ == vstd::utf8::encode_utf8(seq![c]),
{
    let v = c as u32;
    proof {
        assert(seq![c].drop_first() =~= Seq::<char>::empty());
        assert(vstd::utf8::encode_utf8(seq![c]) =~= vstd::utf8::encode_scalar(v)
            + vstd::utf8::encode_utf8(Seq::<char>::empty()));
    }
    let mut out: Vec<u8> = Vec::new();
    if v <= 0x7F {
        out.push((v & 0x7F) as u8);
    } else if 0x80 <= v && v <= 0x7FF {
        out.push(0xC0 | ((v >> 6) & 0x1F) as u8);
        out.push(0x80 | (v & 0x3F) as u8);
    } else if 0x800 <= v && v <= 0xFFFF && !(0xD800 <= v && v <= 0xDFFF) {
        out.push(0xE0 | ((v >> 12) & 0x0F) as u8);
        out.push(0x80 | ((v >> 6) & 0x3F) as u8);
        out.push(0x80 | (v & 0x3F) as u8);
    } else {
        out.push(0xF0 | ((v >> 18) & 0x7) as u8);
        out.push(0x80 | ((v >> 12) & 0x3F) as u8);
        out.push(0x80 | ((v >> 6) & 0x3F) as u8);
        out.push(0x80 | (v & 0x3F) as u8);
    }
    assert(out@ =~= vstd::utf8::encode_scalar(v));
    out
}

fn hex_pair(a: char, b: char) -> (r: Option<u8>)
    ensures
        r == spec_hex_pair(a, b),
{
    if crate::parse::chars::is_hex_digit(a) && crate::parse::chars::is_hex_digit(b) {
        let hi = crate::parse::chars::hex_value(a);
        let lo = crate::parse::chars::hex_value(b);
        Some((16 * hi + lo) as u8)
    } else if a == '+' && crate::parse::chars::is_hex_digit(b) {
        Some(crate::parse::chars::hex_value(b) as u8)
    } else {
        None
    }
}

/// Percent-decodes `%XX` escapes in a tag URI. A multi-byte UTF-8 character can be spread
/// across consecutive escapes, so bytes are collected first and the whole buffer is validated
/// as UTF-8 once at the end; a malformed result keeps the raw text.
pub fn decode_tag_uri(uri: &[char]) -> (r: String)
    ensures
        r@ == spec_decode_tag_uri(uri@),
{
    let mut out: Vec<u8> = Vec::new();
    let mut i: usize = 0;
    assert(uri@.skip(0) =~= uri@);
    while i < uri.len()
        invariant
            i <= uri@.len(),
            out@ + spec_decode_bytes(uri@.skip(i as int)) == spec_decode_bytes(uri@),
        decreases uri.len() - i,
    {
        let ghost rest = uri@.skip(i as int);
        if uri[i] == '%' && uri.len() - i > 2 {
            match hex_pair(uri[i + 1], uri[i + 2]) {
                Some(b) => {
                    assert(spec_escape_at_start(rest));
                    assert(rest.skip(3) =~= uri@.skip(i + 3));
                    out.push(b);
                    assert(out@ + spec_decode_bytes(uri@.skip(i + 3)) =~= spec_decode_bytes(
                        uri@,
                    ));
                    i = i + 3;
                    continue ;
                },
                None => {},
            }
        }
        assert(!spec_escape_at_start(rest));
        assert(rest.drop_first() =~= uri@.skip(i + 1));
        let mut bytes = encode_char(uri[i]);
        let ghost before = out@;
        out.append(&mut bytes);
        assert(out@ + spec_decode_bytes(uri@.skip(i + 1)) =~= spec_decode_bytes(uri@));
        i = i + 1;
    }
    assert(uri@.skip(uri@.len() as int) =~= Seq::<char>::empty());
    assert(out@ =~= spec_decode_bytes(uri@));
    match crate::text::string_from_utf8(out) {
        Some(s) => s,
        None => string_of(uri),
    }
}

/// The canonical `tag:yaml.org,2002:` prefix.
pub open spec fn yaml_prefix() -> Seq<char> {
    seq!['t', 'a', 'g', ':', 'y', 'a', 'm', 'l', '.', 'o', 'r', 'g', ',', '2', '0', '0', '2', ':']
}

/// Maps a (decoded) tag URI to a [`StandardTag`] if it's one of the seven canonical
/// `tag:yaml.org,2002:*` URIs.
pub open spec fn spec_explicit_standard_tag(uri: Seq<char>) -> Option<StandardTag> {
    if uri == yaml_prefix() + seq!['m', 'a', 'p'] {
        Some(StandardTag::Mapping)
    } else if uri == yaml_prefix() + seq!['s', 'e', 'q'] {
        Some(StandardTag::Sequence)
    } else if uri == yaml_prefix() + seq!['s', 't', 'r'] {
        Some(StandardTag::Str)
    } else if uri == yaml_prefix() + seq!['n', 'u', 'l', 'l'] {
        Some(StandardTag::Null)
    } else if uri == yaml_prefix() + seq!['b', 'o', 'o', 'l'] {
        Some(StandardTag::Bool)
    } else if uri == yaml_prefix() + seq!['i', 'n', 't'] {
        Some(StandardTag::Int)
    } else if uri == yaml_prefix() + seq!['f', 'l', 'o', 'a', 't'] {
        Some(StandardTag::Float)
    } else {
        None
    }
}

fn explicit_standard_tag(uri: &[char]) -> (r: Option<StandardTag>)
    ensures
        r == spec_explicit_standard_tag(uri@),
{
    let p = [
        't',
        'a',
        'g',
        ':',
        'y',
        'a',
        'm',
        'l',
        '.',
        'o',
        'r',
        'g',
        ',',
        '2',
        '0',
        '0',
        '2',
        ':',
    ];
    assert(p@ =~= yaml_prefix());
    if uri.len() < 18 {
        return None;
    }
    let head = slice_of(uri, 0, 18);
    if !crate::text::same_chars(head, &p) {
        proof {
            assert forall|w: Seq<char>| uri@ != yaml_prefix() + w by {
                if uri@ == yaml_prefix() + w {
                    assert(uri@.subrange(0, 18) =~= yaml_prefix());
                }
            }
        }
        return None;
    }
    let rest = slice_of(uri, 18, uri.len());
    assert(uri@ =~= yaml_prefix() + rest@);
    proof {
        assert forall|w: Seq<char>| uri@ == yaml_prefix() + w implies w == rest@ by {
            assert(w =~= (yaml_prefix() + w).subrange(18, (yaml_prefix() + w).len() as int));
        }
    }
    let w_map = ['m', 'a', 'p'];
    let w_seq = ['s', 'e', 'q'];
    let w_str = ['s', 't', 'r'];
    let w_null = ['n', 'u', 'l', 'l'];
    let w_bool = ['b', 'o', 'o', 'l'];
    let w_int = ['i', 'n', 't'];
    let w_float = ['f', 'l', 'o', 'a', 't'];
    assert(w_map@ =~= seq!['m', 'a', 'p']);
    assert(w_seq@ =~= seq!['s', 'e', 'q']);
    assert(w_str@ =~= seq!['s', 't', 'r']);
    assert(w_null@ =~= seq!['n', 'u', 'l', 'l']);
    assert(w_bool@ =~= seq!['b', 'o', 'o', 'l']);
    assert(w_int@ =~= seq!['i', 'n', 't']);
    assert(w_float@ =~= seq!['f', 'l', 'o', 'a', 't']);
    if crate::text::same_chars(rest, &w_map) {
        Some(StandardTag::Mapping)
    } else if crate::text::same_chars(rest, &w_seq) {
        Some(StandardTag::Sequence)
    } else if crate::text::same_chars(rest, &w_str) {
        Some(StandardTag::Str)
    } else if crate::text::same_chars(rest, &w_null) {
        Some(StandardTag::Null)
    } else if crate::text::same_chars(rest, &w_bool) {
        Some(StandardTag::Bool)
    } else if crate::text::same_chars(rest, &w_int) {
        Some(StandardTag::Int)
    } else if crate::text::same_chars(rest, &w_float) {
        Some(StandardTag::Float)
    } else {
        None
    }
}

// ---------------------------------------------------------------------------------------------
// The model of resolution
// ---------------------------------------------------------------------------------------------
/// What went wrong when an explicit standard tag was checked against its node.
pub enum Failure {
    /// The tag requires a node of kind `expected` (by name), but the node is of kind `actual`.
    KindMismatch { tag: StandardTag, expected: Seq<char>, actual: Seq<char> },
    /// The tag requires scalar text matching its Core Schema pattern, and `text` does not.
    ContentMismatch { tag: StandardTag, text: Seq<char> },
}

/// The name of a content's kind: `mapping`, `sequence`, or `scalar` (an empty node is a scalar).
pub open spec fn spec_kind_name(c: ContentV) -> Seq<char> {
    match c {
        ContentV::Sequence(_) => "sequence"@,
        ContentV::Mapping(_) => "mapping"@,
        _ => "scalar"@,
    }
}

/// The name of the kind of node an explicit standard tag requires.
pub open spec fn spec_required_kind(t: StandardTag) -> Seq<char> {
    match t {
        StandardTag::Mapping => "mapping"@,
        StandardTag::Sequence => "sequence"@,
        _ => "scalar"@,
    }
}

/// The text of scalar-kind content (empty for an empty node).
pub open spec fn spec_content_text(c: ContentV) -> Seq<char> {
    match c {
        ContentV::Scalar(_, t) => t,
        _ => Seq::empty(),
    }
}

/// Whether an explicit standard tag must also match its Core Schema pattern.
pub open spec fn spec_pattern_tag(t: StandardTag) -> bool {
    t == StandardTag::Null || t == StandardTag::Bool || t == StandardTag::Int || t
        == StandardTag::Float
}

/// Checks an explicit standard tag against the content it was applied to: map/seq/str
/// require the matching kind, and null/bool/int/float also the matching Core Schema pattern.
pub open spec fn spec_validate(t: StandardTag, c: ContentV) -> Option<Failure> {
    if spec_kind_name(c) != spec_required_kind(t) {
        Some(Failure::KindMismatch { tag: t, expected: spec_required_kind(t), actual: spec_kind_name(c) })
    } else if spec_pattern_tag(t) && spec_classify(spec_content_text(c)) != Some(t) {
        Some(Failure::ContentMismatch { tag: t, text: spec_content_text(c) })
    } else {
        None
    }
}

/// The resolution of an untagged node: collections by kind, an empty node to null, a plain
/// scalar by the Core Schema (falling back to str), any other scalar to str.
pub open spec fn spec_unspecified_tag(c: ContentV) -> StandardTag {
    match c {
        ContentV::Sequence(_) => StandardTag::Sequence,
        ContentV::Mapping(_) => StandardTag::Mapping,
        ContentV::Empty => StandardTag::Null,
        ContentV::Scalar(style, text) => if style == ScalarStyle::Plain {
            match spec_classify(text) {
                Some(t) => t,
                None => StandardTag::Str,
            }
        } else {
            StandardTag::Str
        },
    }
}

/// A tag URI with no `%` in it decodes to itself.
pub proof fn lemma_decode_without_escapes(u: Seq<char>)
    requires
        forall|i: int| 0 <= i < u.len() ==> #[trigger] u[i] != '%',
    ensures
        spec_decode_tag_uri(u) == u,
{
    lemma_decode_bytes_without_escapes(u);
    vstd::utf8::encode_utf8_valid_utf8(u);
    vstd::utf8::encode_utf8_decode_utf8(u);
}

proof fn lemma_decode_bytes_without_escapes(u: Seq<char>)
    requires
        forall|i: int| 0 <= i < u.len() ==> #[trigger] u[i] != '%',
    ensures
        spec_decode_bytes(u) == vstd::utf8::encode_utf8(u),
    decreases u.len(),
{
    if u.len() > 0 {
        let r = u.drop_first();
        assert forall|i: int| 0 <= i < r.len() implies #[trigger] r[i] != '%' by {
            assert(r[i] == u[i + 1]);
        }
        lemma_decode_bytes_without_escapes(r);
        let one = seq![u[0]];
        assert(one.drop_first() =~= Seq::<char>::empty());
        assert(one[0] == u[0]);
        assert(vstd::utf8::encode_utf8(Seq::<char>::empty()) =~= Seq::<u8>::empty());
        assert(vstd::utf8::encode_utf8(one) =~= vstd::utf8::encode_scalar(u[0] as u32)
            + vstd::utf8::encode_utf8(one.drop_first()));
        assert(vstd::utf8::encode_utf8(u) =~= vstd::utf8::encode_scalar(u[0] as u32)
            + vstd::utf8::encode_utf8(r));
    }
}

/// A scalar node with the given style, text and span, tagged with the URI `uri`.
pub open spec fn scalar_tagged(style: ScalarStyle, text: Seq<char>, span: Option<Span>, uri: Seq<char>) -> NodeV {
    NodeV { value: ContentV::Scalar(style, text), tag: TagV::Global(uri), span }
}

/// What a scalar explicitly tagged with the standard tag `t`, one with a Core Schema pattern,
/// resolves to: the standard tag when its text matches that pattern, else a content mismatch
/// located at the node.
pub open spec fn checked_against(
    t: StandardTag,
    style: ScalarStyle,
    text: Seq<char>,
    span: Option<Span>,
) -> Result<NodeV, (Failure, Option<Span>)> {
    if spec_classify(text) == Some(t) {
        Ok(NodeV { value: ContentV::Scalar(style, text), tag: TagV::Standard(t), span })
    } else {
        Err((Failure::ContentMismatch { tag: t, text }, span))
    }
}

/// The URIs `tag:yaml.org,2002:null`, `bool`, `int` and `float` name standard tags: a scalar
/// carrying one resolves to that standard tag when its text is of the Core Schema pattern for
/// it, and fails with a content mismatch otherwise, whatever its style, text and span. The URI
/// `tag:yaml.org,2002:str` names the standard str tag, which every scalar takes.
pub proof fn lemma_standard_scalar_tags(style: ScalarStyle, text: Seq<char>, span: Option<Span>)
    ensures
        spec_resolve_node(scalar_tagged(style, text, span, "tag:yaml.org,2002:null"@))
            == checked_against(StandardTag::Null, style, text, span),
        spec_resolve_node(scalar_tagged(style, text, span, "tag:yaml.org,2002:bool"@))
            == checked_against(StandardTag::Bool, style, text, span),
        spec_resolve_node(scalar_tagged(style, text, span, "tag:yaml.org,2002:int"@))
            == checked_against(StandardTag::Int, style, text, span),
        spec_resolve_node(scalar_tagged(style, text, span, "tag:yaml.org,2002:float"@))
            == checked_against(StandardTag::Float, style, text, span),
        spec_resolve_node(scalar_tagged(style, text, span, "tag:yaml.org,2002:str"@)) == Ok::<
            NodeV,
            (Failure, Option<Span>),
        >(NodeV { value: ContentV::Scalar(style, text), tag: TagV::Standard(StandardTag::Str), span }),
{
    let p = yaml_prefix();
    let names = seq![
        seq!['m', 'a', 'p'],
        seq!['s', 'e', 'q'],
        seq!['s', 't', 'r'],
        seq!['n', 'u', 'l', 'l'],
        seq!['b', 'o', 'o', 'l'],
        seq!['i', 'n', 't'],
        seq!['f', 'l', 'o', 'a', 't'],
    ];
    assert forall|k: int| 0 <= k < 7 implies (#[trigger] (p + names[k]))[18] == names[k][0] && (p
        + names[k]).len() == 18 + names[k].len() by {}
    assert(names[0] == seq!['m', 'a', 'p']);
    assert(names[1] == seq!['s', 'e', 'q']);
    assert(names[2] == seq!['s', 't', 'r']);
    assert(names[3] == seq!['n', 'u', 'l', 'l']);
    assert(names[4] == seq!['b', 'o', 'o', 'l']);
    assert(names[5] == seq!['i', 'n', 't']);
    assert(names[6] == seq!['f', 'l', 'o', 'a', 't']);
    assert((p + names[1])[19] == 'e' && (p + names[2])[19] == 't');
    reveal_strlit("tag:yaml.org,2002:null");
    assert("tag:yaml.org,2002:null"@ =~= p + seq!['n', 'u', 'l', 'l']);
    lemma_scalar_under_standard_uri(StandardTag::Null, "tag:yaml.org,2002:null"@, style, text, span);
    reveal_strlit("tag:yaml.org,2002:bool");
    assert("tag:yaml.org,2002:bool"@ =~= p + seq!['b', 'o', 'o', 'l']);
    lemma_scalar_under_standard_uri(StandardTag::Bool, "tag:yaml.org,2002:bool"@, style, text, span);
    reveal_strlit("tag:yaml.org,2002:int");
    assert("tag:yaml.org,2002:int"@ =~= p + seq!['i', 'n', 't']);
    lemma_scalar_under_standard_uri(StandardTag::Int, "tag:yaml.org,2002:int"@, style, text, span);
    reveal_strlit("tag:yaml.org,2002:float");
    assert("tag:yaml.org,2002:float"@ =~= p + seq!['f', 'l', 'o', 'a', 't']);
    lemma_scalar_under_standard_uri(StandardTag::Float, "tag:yaml.org,2002:float"@, style, text, span);
    reveal_strlit("tag:yaml.org,2002:str");
    assert("tag:yaml.org,2002:str"@ =~= p + seq!['s', 't', 'r']);
    lemma_scalar_under_standard_uri(StandardTag::Str, "tag:yaml.org,2002:str"@, style, text, span);
}

/// A scalar under a `%`-free URI that names the scalar standard tag `t` resolves as that tag
/// checks it.
proof fn lemma_scalar_under_standard_uri(
    t: StandardTag,
    uri: Seq<char>,
    style: ScalarStyle,
    text: Seq<char>,
    span: Option<Span>,
)
    requires
        forall|i: int| 0 <= i < uri.len() ==> #[trigger] uri[i] != '%',
        spec_explicit_standard_tag(uri) == Some(t),
        t != StandardTag::Mapping && t != StandardTag::Sequence,
    ensures
        spec_resolve_node(scalar_tagged(style, text, span, uri)) == (if spec_pattern_tag(t) {
            checked_against(t, style, text, span)
        } else {
            Ok(NodeV { value: ContentV::Scalar(style, text), tag: TagV::Standard(t), span })
        }),
{
    lemma_decode_without_escapes(uri);
}

/// The resolution of one tag, given the node's (resolved) content.
pub open spec fn spec_resolve_tag(tag: TagV, c: ContentV) -> Result<TagV, Failure> {
    match tag {
        TagV::Standard(t) => Ok(TagV::Standard(t)),
        TagV::NonSpecific => Ok(TagV::NonSpecific),
        TagV::Unspecified => Ok(TagV::Standard(spec_unspecified_tag(c))),
        TagV::Global(uri) => {
            let decoded = spec_decode_tag_uri(uri);
            match spec_explicit_standard_tag(decoded) {
                Some(t) => match spec_validate(t, c) {
                    Some(f) => Err(f),
                    None => Ok(TagV::Standard(t)),
                },
                None => Ok(TagV::Global(decoded)),
            }
        },
    }
}

/// The resolution of a node: its content first, then its own tag. The first failure met wins; a
/// failure of the node's own tag is located at the node's span.
pub open spec fn spec_resolve_node(n: NodeV) -> Result<NodeV, (Failure, Option<Span>)>
    decreases n, 0nat,
{
    match spec_resolve_content(n.value) {
        Err(e) => Err(e),
        Ok(c) => match spec_resolve_tag(n.tag, c) {
            Err(f) => Err((f, n.span)),
            Ok(t) => Ok(NodeV { value: c, tag: t, span: n.span }),
        },
    }
}

/// The resolution of each node of a content.
pub open spec fn spec_resolve_content(c: ContentV) -> Result<ContentV, (Failure, Option<Span>)>
    decreases c, 0nat,
{
    match c {
        ContentV::Sequence(items) => match spec_resolve_nodes(items) {
            Ok(v) => Ok(ContentV::Sequence(v)),
            Err(e) => Err(e),
        },
        ContentV::Mapping(entries) => match spec_resolve_entries(entries) {
            Ok(v) => Ok(ContentV::Mapping(v)),
            Err(e) => Err(e),
        },
        _ => Ok(c),
    }
}

/// The resolution of nodes in order; the first failure wins.
pub open spec fn spec_resolve_nodes(s: Seq<NodeV>) -> Result<Seq<NodeV>, (Failure, Option<Span>)>
    decreases s, s.len(),
{
    if s.len() == 0 {
        Ok(Seq::empty())
    } else {
        match spec_resolve_nodes(s.drop_last()) {
            Err(e) => Err(e),
            Ok(p) => match spec_resolve_node(s.last()) {
                Err(e) => Err(e),
                Ok(n) => Ok(p.push(n)),
            },
        }
    }
}

/// The resolution of mapping entries in order, each key before its value; the first failure
/// wins.
pub open spec fn spec_resolve_entries(s: Seq<(NodeV, NodeV)>) -> Result<
    Seq<(NodeV, NodeV)>,
    (Failure, Option<Span>),
>
    decreases s, s.len(),
{
    if s.len() == 0 {
        Ok(Seq::empty())
    } else {
        match spec_resolve_entries(s.drop_last()) {
            Err(e) => Err(e),
            Ok(p) => match spec_resolve_node(s.last().0) {
                Err(e) => Err(e),
                Ok(k) => match spec_resolve_node(s.last().1) {
                    Err(e) => Err(e),
                    Ok(v) => Ok(p.push((k, v))),
                },
            },
        }
    }
}

/// The Debug name of a standard tag, as error messages print it.
pub open spec fn spec_tag_name(t: StandardTag) -> Seq<char> {
    match t {
        StandardTag::Mapping => "Map"@,
        StandardTag::Sequence => "Seq"@,
        StandardTag::Str => "Str"@,
        StandardTag::Null => "Null"@,
        StandardTag::Bool => "Bool"@,
        StandardTag::Int => "Int"@,
        StandardTag::Float => "Float"@,
    }
}

/// What `format!("{:?}", s)` renders for the string `s`: std's quoted, escaped Debug form.
pub uninterp spec fn debug_string(s: Seq<char>) -> Seq<char>;

/// The message of a resolution failure.
pub open spec fn spec_failure_message(f: Failure) -> Seq<char> {
    match f {
        Failure::KindMismatch { tag, expected, actual } => "explicit tag "@ + spec_tag_name(tag)
            + " requires a "@ + expected + " node, but found a "@ + actual,
        Failure::ContentMismatch { tag, text } => "explicit tag "@ + spec_tag_name(tag)
            + " does not match scalar content "@ + debug_string(text),
    }
}

// ---------------------------------------------------------------------------------------------
// Resolution errors
// ---------------------------------------------------------------------------------------------
/// What went wrong, independent of where.
#[derive(Debug, Clone, PartialEq)]
pub enum ResolveErrorKind {
    /// An explicit standard tag (`!!map`/`!!seq`/`!!str`/...) requires a node of a specific
    /// kind (mapping/sequence/scalar) that the tagged node doesn't have.
    KindMismatch { tag: StandardTag, expected_kind: &'static str, actual_kind: &'static str },
    /// An explicit `!!null`/`!!bool`/`!!int`/`!!float` tag was applied to scalar text that
    /// doesn't match that tag's Core Schema pattern.
    ContentMismatch { tag: StandardTag, text: String },
}

impl View for ResolveErrorKind {
    type V = Failure;

    open spec fn view(&self) -> Failure {
        match self {
            ResolveErrorKind::KindMismatch { tag, expected_kind, actual_kind } => {
                Failure::KindMismatch { tag: *tag, expected: expected_kind@, actual: actual_kind@ }
            },
            ResolveErrorKind::ContentMismatch { tag, text } => Failure::ContentMismatch {
                tag: *tag,
                text: text@,
            },
        }
    }
}

/// A tag-resolution failure: an explicit standard tag was applied to content it can't legally
/// describe. Carries the [`Span`] of the offending node when the node came from the parser;
/// [`located`](Self::located) turns that span into a renderable source excerpt.
#[derive(Debug, Clone, PartialEq)]
pub struct ResolveError {
    kind: ResolveErrorKind,
    span: Option<Span>,
    excerpt: Option<Excerpt>,
}

impl ResolveError {
    /// The failure.
    pub closed spec fn spec_kind(self) -> Failure {
        self.kind@
    }

    /// The span of the offending node, if it had one.
    pub closed spec fn spec_span(self) -> Option<Span> {
        self.span
    }

    /// The source excerpt, once [`located`](Self::located) has been given the input.
    pub closed spec fn spec_excerpt(self) -> Option<ExcerptV> {
        match self.excerpt {
            Some(e) => Some(e.spec_view()),
            None => None,
        }
    }

    /// The rendered diagnostic.
    pub open spec fn spec_rendered(self) -> Seq<char> {
        spec_render(spec_failure_message(self.spec_kind()), self.spec_excerpt())
    }

    fn new(kind: ResolveErrorKind) -> (r: ResolveError)
        ensures
            r.spec_kind() == kind@,
            r.spec_span() is None,
            r.spec_excerpt() is None,
    {
        ResolveError { kind, span: None, excerpt: None }
    }

    /// What went wrong.
    pub fn kind(&self) -> (r: &ResolveErrorKind)
        ensures
            r@ == self.spec_kind(),
    {
        &self.kind
    }

    /// Where it went wrong, if the offending node carried a [`Span`].
    pub fn span(&self) -> (r: Option<Span>)
        ensures
            r == self.spec_span(),
    {
        self.span
    }

    /// The source this error points at, once [`located`](Self::located) has been given the
    /// input.
    pub fn excerpt(&self) -> (r: Option<&Excerpt>)
        ensures
            match r {
                Some(e) => self.spec_excerpt() == Some(e.spec_view()),
                None => self.spec_excerpt() is None,
            },
    {
        match &self.excerpt {
            Some(e) => Some(e),
            None => None,
        }
    }

    /// Attaches the source the error was resolved from, so the rendering can show the offending
    /// text rather than only describing it. A no-op if the error has no span.
    pub fn located(self, source: &str) -> (r: ResolveError)
        requires
            byte_len(source@) < usize::MAX,
        ensures
            r.spec_kind() == self.spec_kind(),
            r.spec_span() == self.spec_span(),
            r.spec_excerpt() == (match self.spec_span() {
                Some(s) => Some(spec_excerpt(source@, s.spec_start() as int, s.spec_end() as int)),
                None => self.spec_excerpt(),
            }),
    {
        match self.span {
            Some(span) => {
                let e = Excerpt::new(source, span);
                ResolveError { kind: self.kind, span: self.span, excerpt: Some(e) }
            },
            None => self,
        }
    }

    /// Records `span` unless a nested node already recorded its own (a more precise one).
    fn at(self, span: Option<Span>) -> (r: ResolveError)
        ensures
            r.spec_kind() == self.spec_kind(),
            r.spec_span() == (match self.spec_span() {
                Some(s) => Some(s),
                None => span,
            }),
            r.spec_excerpt() == self.spec_excerpt(),
    {
        match self.span {
            Some(_) => self,
            None => ResolveError { kind: self.kind, span, excerpt: self.excerpt },
        }
    }

    /// The rendered diagnostic: the failure's message, over the offending source if located.
    pub fn to_string(&self) -> (r: String)
        ensures
            r@ == self.spec_rendered(),
    {
        let message = kind_message(&self.kind);
        match &self.excerpt {
            Some(e) => render(message.as_str(), Some(e)),
            None => render(message.as_str(), None),
        }
    }
}

/// Renders `s` as `format!("{:?}", s)` does, through std's `Debug` for `str`. The contract
/// claims only that the result is the named rendering of `s`.
#[verifier::external_body]
pub(crate) fn debug_quoted(s: &str) -> (r: String)
    ensures
        r@ == debug_string(s@),
{
    format!("{s:?}")
}

fn tag_name(t: StandardTag) -> (r: &'static str)
    ensures
        r@ == spec_tag_name(t),
{
    match t {
        StandardTag::Mapping => "Map",
        StandardTag::Sequence => "Seq",
        StandardTag::Str => "Str",
        StandardTag::Null => "Null",
        StandardTag::Bool => "Bool",
        StandardTag::Int => "Int",
        StandardTag::Float => "Float",
    }
}

fn kind_message(kind: &ResolveErrorKind) -> (r: String)
    ensures
        r@ == spec_failure_message(kind@),
{
    let mut m = String::from_str("explicit tag ");
    m.append(tag_name(
        match kind {
            ResolveErrorKind::KindMismatch { tag, .. } => *tag,
            ResolveErrorKind::ContentMismatch { tag, .. } => *tag,
        },
    ));
    match kind {
        ResolveErrorKind::KindMismatch { expected_kind, actual_kind, .. } => {
            m.append(" requires a ");
            m.append(expected_kind);
            m.append(" node, but found a ");
            m.append(actual_kind);
        },
        ResolveErrorKind::ContentMismatch { text, .. } => {
            m.append(" does not match scalar content ");
            let q = debug_quoted(text.as_str());
            m.append(q.as_str());
        },
    }
    m
}

// ---------------------------------------------------------------------------------------------
// Resolution
// ---------------------------------------------------------------------------------------------
fn content_kind(c: &Content) -> (r: &'static str)
    ensures
        r@ == spec_kind_name(c@),
{
    match c {
        Content::Sequence(_) => "sequence",
        Content::Mapping(_) => "mapping",
        _ => "scalar",
    }
}

fn required_kind(t: StandardTag) -> (r: &'static str)
    ensures
        r@ == spec_required_kind(t),
{
    match t {
        StandardTag::Mapping => "mapping",
        StandardTag::Sequence => "sequence",
        _ => "scalar",
    }
}

fn content_text(c: &Content) -> (r: &str)
    ensures
        r@ == spec_content_text(c@),
{
    match c {
        Content::Scalar(s) => match s {
            Scalar::Plain(t) => t.as_str(),
            Scalar::SingleStr(t) => t.as_str(),
            Scalar::DoubleStr(t) => t.as_str(),
            Scalar::Literal(t) => t.as_str(),
            Scalar::Folded(t) => t.as_str(),
        },
        _ => {
            proof {
                reveal_strlit("");
            }
            ""
        },
    }
}

fn same_str(a: &str, b: &str) -> (r: bool)
    ensures
        r == (a@ == b@),
{
    let x = chars_of(a);
    let y = chars_of(b);
    crate::text::same_chars(x.as_slice(), y.as_slice())
}

/// Validates an explicit standard tag against the content it was applied to.
fn validate(t: StandardTag, c: &Content) -> (r: Option<ResolveErrorKind>)
    ensures
        match r {
            Some(k) => spec_validate(t, c@) == Some(k@),
            None => spec_validate(t, c@) is None,
        },
{
    let expected = required_kind(t);
    let actual = content_kind(c);
    if !same_str(expected, actual) {
        return Some(
            ResolveErrorKind::KindMismatch { tag: t, expected_kind: expected, actual_kind: actual },
        );
    }
    match t {
        StandardTag::Null | StandardTag::Bool | StandardTag::Int | StandardTag::Float => {
            let text = content_text(c);
            let class = classify_core_schema(text);
            let matches = match class {
                Some(k) => k == t,
                None => false,
            };
            if matches {
                None
            } else {
                Some(ResolveErrorKind::ContentMismatch { tag: t, text: text.to_owned() })
            }
        },
        _ => None,
    }
}

/// The tag an untagged node resolves to, by its content.
pub fn unspecified_tag(c: &Content) -> (r: StandardTag)
    ensures
        r == spec_unspecified_tag(c@),
{
    match c {
        Content::Sequence(_) => StandardTag::Sequence,
        Content::Mapping(_) => StandardTag::Mapping,
        Content::Empty => StandardTag::Null,
        Content::Scalar(Scalar::Plain(text)) => match classify_core_schema(text.as_str()) {
            Some(t) => t,
            None => StandardTag::Str,
        },
        Content::Scalar(_) => StandardTag::Str,
    }
}

fn resolve_tag(tag: &Tag, c: &Content) -> (r: Result<Tag, ResolveErrorKind>)
    ensures
        match r {
            Ok(t) => spec_resolve_tag(tag@, c@) == Ok::<TagV, Failure>(t@),
            Err(k) => spec_resolve_tag(tag@, c@) == Err::<TagV, Failure>(k@),
        },
{
    match tag {
        Tag::Standard(t) => Ok(Tag::Standard(*t)),
        Tag::NonSpecific => Ok(Tag::NonSpecific),
        Tag::Unspecified => Ok(Tag::Standard(unspecified_tag(c))),
        Tag::Global(uri) => {
            let cs = chars_of(uri.as_str());
            let decoded = decode_tag_uri(cs.as_slice());
            let dcs = chars_of(decoded.as_str());
            match explicit_standard_tag(dcs.as_slice()) {
                Some(t) => match validate(t, c) {
                    Some(k) => Err(k),
                    None => Ok(Tag::Standard(t)),
                },
                None => Ok(Tag::Global(decoded)),
            }
        },
    }
}

proof fn lemma_nodes_err_extends(s: Seq<NodeV>, k: int)
    requires
        0 <= k <= s.len(),
        spec_resolve_nodes(s.subrange(0, k)) is Err,
    ensures
        spec_resolve_nodes(s) == spec_resolve_nodes(s.subrange(0, k)),
    decreases s.len() - k,
{
    if k < s.len() {
        let t = s.subrange(0, k + 1);
        assert(t.drop_last() =~= s.subrange(0, k));
        assert(spec_resolve_nodes(t) == spec_resolve_nodes(s.subrange(0, k)));
        lemma_nodes_err_extends(s, k + 1);
    } else {
        assert(s.subrange(0, k) =~= s);
    }
}

proof fn lemma_entries_err_extends(s: Seq<(NodeV, NodeV)>, k: int)
    requires
        0 <= k <= s.len(),
        spec_resolve_entries(s.subrange(0, k)) is Err,
    ensures
        spec_resolve_entries(s) == spec_resolve_entries(s.subrange(0, k)),
    decreases s.len() - k,
{
    if k < s.len() {
        let t = s.subrange(0, k + 1);
        assert(t.drop_last() =~= s.subrange(0, k));
        assert(spec_resolve_entries(t) == spec_resolve_entries(s.subrange(0, k)));
        lemma_entries_err_extends(s, k + 1);
    } else {
        assert(s.subrange(0, k) =~= s);
    }
}

fn resolve_node_ref(node: &Node) -> (r: Result<Node, ResolveError>)
    ensures
        match r {
            Ok(m) => spec_resolve_node(node@) == Ok::<NodeV, (Failure, Option<Span>)>(m@),
            Err(e) => spec_resolve_node(node@) == Err::<NodeV, (Failure, Option<Span>)>(
                (e.spec_kind(), e.spec_span()),
            ) && e.spec_excerpt() is None,
        },
    decreases *node, 2nat,
{
    let span = node.span();
    let content = match resolve_content(&node.value) {
        Ok(c) => c,
        Err(e) => return Err(e),
    };
    match resolve_tag(&node.tag, &content) {
        Err(k) => Err(ResolveError::new(k).at(span)),
        Ok(tag) => Ok(Node { value: content, tag, span: node.span }),
    }
}

fn resolve_content(c: &Content) -> (r: Result<Content, ResolveError>)
    ensures
        match r {
            Ok(m) => spec_resolve_content(c@) == Ok::<ContentV, (Failure, Option<Span>)>(m@),
            Err(e) => spec_resolve_content(c@) == Err::<ContentV, (Failure, Option<Span>)>(
                (e.spec_kind(), e.spec_span()),
            ) && e.spec_excerpt() is None,
        },
    decreases *c, 2nat,
{
    match c {
        Content::Empty => Ok(Content::Empty),
        Content::Scalar(s) => Ok(Content::Scalar(s.duplicate())),
        Content::Sequence(items) => match resolve_nodes(items) {
            Ok(v) => Ok(Content::Sequence(v)),
            Err(e) => Err(e),
        },
        Content::Mapping(m) => match resolve_entries(&m.0) {
            Ok(v) => Ok(Content::Mapping(Mapping(v))),
            Err(e) => Err(e),
        },
    }
}

fn resolve_nodes(v: &Vec<Node>) -> (r: Result<Vec<Node>, ResolveError>)
    ensures
        match r {
            Ok(m) => spec_resolve_nodes(nodes_view(v@)) == Ok::<
                Seq<NodeV>,
                (Failure, Option<Span>),
            >(nodes_view(m@)),
            Err(e) => spec_resolve_nodes(nodes_view(v@)) == Err::<
                Seq<NodeV>,
                (Failure, Option<Span>),
            >((e.spec_kind(), e.spec_span())) && e.spec_excerpt() is None,
        },
    decreases *v, 1nat,
{
    let ghost ns = nodes_view(v@);
    proof {
        lemma_nodes_view_len(v@);
        assert(ns.subrange(0, 0) =~= Seq::<NodeV>::empty());
    }
    let mut out: Vec<Node> = Vec::new();
    let mut i: usize = 0;
    while i < v.len()
        invariant
            i <= v.len(),
            ns == nodes_view(v@),
            ns.len() == v@.len(),
            forall|j: int| 0 <= j < v@.len() ==> #[trigger] ns[j] == node_view(v@[j]),
            spec_resolve_nodes(ns.subrange(0, i as int)) == Ok::<
                Seq<NodeV>,
                (Failure, Option<Span>),
            >(nodes_view(out@)),
        decreases v.len() - i,
    {
        assert(decreases_to!(*v => v@[i as int]));
        let ghost t = ns.subrange(0, i + 1);
        assert(t.drop_last() =~= ns.subrange(0, i as int));
        assert(t.last() == ns[i as int]);
        match resolve_node_ref(&v[i]) {
            Ok(n) => {
                let ghost before = out@;
                out.push(n);
                assert(out@.drop_last() =~= before);
                i = i + 1;
            },
            Err(e) => {
                proof {
                    lemma_nodes_err_extends(ns, i + 1);
                    assert(ns.subrange(0, i + 1) == t);
                }
                return Err(e);
            },
        }
    }
    assert(ns.subrange(0, i as int) =~= ns);
    Ok(out)
}

fn resolve_entries(v: &Vec<MapEntry>) -> (r: Result<Vec<MapEntry>, ResolveError>)
    ensures
        match r {
            Ok(m) => spec_resolve_entries(entries_view(v@)) == Ok::<
                Seq<(NodeV, NodeV)>,
                (Failure, Option<Span>),
            >(entries_view(m@)),
            Err(e) => spec_resolve_entries(entries_view(v@)) == Err::<
                Seq<(NodeV, NodeV)>,
                (Failure, Option<Span>),
            >((e.spec_kind(), e.spec_span())) && e.spec_excerpt() is None,
        },
    decreases *v, 1nat,
{
    let ghost es = entries_view(v@);
    proof {
        lemma_entries_view_len(v@);
        assert(es.subrange(0, 0) =~= Seq::<(NodeV, NodeV)>::empty());
    }
    let mut out: Vec<MapEntry> = Vec::new();
    let mut i: usize = 0;
    while i < v.len()
        invariant
            i <= v.len(),
            es == entries_view(v@),
            es.len() == v@.len(),
            forall|j: int|
                0 <= j < v@.len() ==> #[trigger] es[j] == (
                    node_view(v@[j].key),
                    node_view(v@[j].value),
                ),
            spec_resolve_entries(es.subrange(0, i as int)) == Ok::<
                Seq<(NodeV, NodeV)>,
                (Failure, Option<Span>),
            >(entries_view(out@)),
        decreases v.len() - i,
    {
        assert(decreases_to!(*v => v@[i as int]));
        let ghost t = es.subrange(0, i + 1);
        assert(t.drop_last() =~= es.subrange(0, i as int));
        assert(t.last() == es[i as int]);
        let key = match resolve_node_ref(&v[i].key) {
            Ok(k) => k,
            Err(e) => {
                proof {
                    lemma_entries_err_extends(es, i + 1);
                    assert(es.subrange(0, i + 1) == t);
                }
                return Err(e);
            },
        };
        let value = match resolve_node_ref(&v[i].value) {
            Ok(k) => k,
            Err(e) => {
                proof {
                    lemma_entries_err_extends(es, i + 1);
                    assert(es.subrange(0, i + 1) == t);
                }
                return Err(e);
            },
        };
        let ghost before = out@;
        out.push(MapEntry { key, value });
        assert(out@.drop_last() =~= before);
        i = i + 1;
    }
    assert(es.subrange(0, i as int) =~= es);
    Ok(out)
}

/// Resolves a single node (and every node below it) against the Core Schema. Scalar content is
/// never rewritten; only tags change. Fails only when an explicit standard tag doesn't match its
/// node's kind or, for scalars, the Core Schema pattern for that tag.
pub fn resolve_node(node: Node) -> (r: Result<Node, ResolveError>)
    ensures
        match r {
            Ok(m) => spec_resolve_node(node@) == Ok::<NodeV, (Failure, Option<Span>)>(m@),
            Err(e) => spec_resolve_node(node@) == Err::<NodeV, (Failure, Option<Span>)>(
                (e.spec_kind(), e.spec_span()),
            ) && e.spec_excerpt() is None,
        },
        r matches Ok(m) ==> same_but_tags(node@, m@),
        r is Ok <==> all_tags_fit(node@),
{
    proof {
        lemma_resolve_keeps_all_but_tags(node@);
        lemma_resolves_iff_tags_fit(node@);
    }
    resolve_node_ref(&node)
}

/// Resolves a single document's tags, per [`resolve`]. Resolution never looks beyond the
/// document it's given (a tag handle or an anchor is document-scoped).
pub fn resolve_document(document: Document) -> (r: Result<Document, ResolveError>)
    ensures
        match r {
            Ok(d) => spec_resolve_node(document.0@) == Ok::<NodeV, (Failure, Option<Span>)>(
                d.0@,
            ),
            Err(e) => spec_resolve_node(document.0@) == Err::<NodeV, (Failure, Option<Span>)>(
                (e.spec_kind(), e.spec_span()),
            ) && e.spec_excerpt() is None,
        },
        r matches Ok(d) ==> same_but_tags(document.0@, d.0@),
        r is Ok <==> all_tags_fit(document.0@),
{
    proof {
        lemma_resolve_keeps_all_but_tags(document.0@);
        lemma_resolves_iff_tags_fit(document.0@);
    }
    match resolve_node_ref(&document.0) {
        Ok(n) => Ok(Document::new(n)),
        Err(e) => Err(e),
    }
}

/// The models of the roots of some documents.
pub open spec fn roots_view(d: Seq<Document>) -> Seq<NodeV> {
    Seq::new(d.len(), |i: int| d[i].0@)
}

/// Resolves every node's tag in `stream` against the Core Schema, document by document. Fails
/// with the first document's failure.
pub fn resolve(stream: Stream) -> (r: Result<Stream, ResolveError>)
    ensures
        match r {
            Ok(s) => spec_resolve_nodes(roots_view(stream.0@)) == Ok::<
                Seq<NodeV>,
                (Failure, Option<Span>),
            >(roots_view(s.0@)),
            Err(e) => spec_resolve_nodes(roots_view(stream.0@)) == Err::<
                Seq<NodeV>,
                (Failure, Option<Span>),
            >((e.spec_kind(), e.spec_span())) && e.spec_excerpt() is None,
        },
{
    let docs = &stream.0;
    let ghost ns = roots_view(docs@);
    assert(ns.subrange(0, 0) =~= Seq::<NodeV>::empty());
    let mut out: Vec<Document> = Vec::new();
    let mut i: usize = 0;
    assert(roots_view(out@) =~= Seq::<NodeV>::empty());
    while i < docs.len()
        invariant
            i <= docs.len(),
            ns == roots_view(docs@),
            docs@ == stream.0@,
            out@.len() == i,
            spec_resolve_nodes(ns.subrange(0, i as int)) == Ok::<
                Seq<NodeV>,
                (Failure, Option<Span>),
            >(roots_view(out@)),
        decreases docs.len() - i,
    {
        let ghost t = ns.subrange(0, i + 1);
        assert(t.drop_last() =~= ns.subrange(0, i as int));
        assert(t.last() == docs@[i as int].0@);
        match resolve_node_ref(&docs[i].0) {
            Ok(n) => {
                let ghost before = out@;
                out.push(Document::new(n));
                assert(roots_view(out@) =~= roots_view(before).push(n@));
                i = i + 1;
            },
            Err(e) => {
                proof {
                    assert(spec_resolve_node(t.last()) == Err::<NodeV, (Failure, Option<Span>)>(
                        (e.spec_kind(), e.spec_span()),
                    ));
                    assert(spec_resolve_nodes(t) == Err::<Seq<NodeV>, (Failure, Option<Span>)>(
                        (e.spec_kind(), e.spec_span()),
                    ));
                    assert(ns.subrange(0, i + 1) == t);
                    lemma_nodes_err_extends(ns, i + 1);
                }
                return Err(e);
            },
        }
    }
    assert(ns.subrange(0, i as int) =~= ns);
    Ok(Stream(out))
}

// ---------------------------------------------------------------------------------------------
// What resolution keeps
// ---------------------------------------------------------------------------------------------
/// `m` is `n` with at most its tags changed: every node keeps its span, every collection its
/// length and order, and every scalar its style and text.
pub open spec fn same_but_tags(n: NodeV, m: NodeV) -> bool
    decreases n, 1nat,
{
    &&& n.span == m.span
    &&& same_content_but_tags(n.value, m.value)
}

/// `d` is `c` with at most the tags of the nodes within it changed.
pub open spec fn same_content_but_tags(c: ContentV, d: ContentV) -> bool
    decreases c, 0nat,
{
    match c {
        ContentV::Empty => d is Empty,
        ContentV::Scalar(style, text) => d == ContentV::Scalar(style, text),
        ContentV::Sequence(items) => {
            &&& d is Sequence
            &&& d->Sequence_0.len() == items.len()
            &&& forall|i: int|
                0 <= i < items.len() ==> same_but_tags(#[trigger] items[i], d->Sequence_0[i])
        },
        ContentV::Mapping(entries) => {
            &&& d is Mapping
            &&& d->Mapping_0.len() == entries.len()
            &&& forall|i: int|
                0 <= i < entries.len() ==> same_but_tags(#[trigger] entries[i].0, d->Mapping_0[i].0)
                    && same_but_tags(entries[i].1, d->Mapping_0[i].1)
        },
    }
}

/// Resolution rewrites tags only: a node that resolves keeps every span, every collection's
/// length and order, and every scalar's style and text, all the way down.
pub proof fn lemma_resolve_keeps_all_but_tags(n: NodeV)
    ensures
        spec_resolve_node(n) matches Ok(m) ==> same_but_tags(n, m),
    decreases n, 0nat,
{
    lemma_resolve_content_keeps(n.value);
}

proof fn lemma_resolve_content_keeps(c: ContentV)
    ensures
        spec_resolve_content(c) matches Ok(d) ==> same_content_but_tags(c, d),
    decreases c, 0nat,
{
    match c {
        ContentV::Sequence(items) => lemma_resolve_nodes_keep(items),
        ContentV::Mapping(entries) => lemma_resolve_entries_keep(entries),
        _ => {},
    }
}

proof fn lemma_resolve_nodes_keep(s: Seq<NodeV>)
    ensures
        spec_resolve_nodes(s) matches Ok(v) ==> {
            &&& v.len() == s.len()
            &&& forall|i: int| 0 <= i < s.len() ==> same_but_tags(#[trigger] s[i], v[i])
        },
    decreases s, s.len(),
{
    if s.len() > 0 {
        lemma_resolve_nodes_keep(s.drop_last());
        lemma_resolve_keeps_all_but_tags(s.last());
        if let Ok(v) = spec_resolve_nodes(s) {
            let p = spec_resolve_nodes(s.drop_last())->Ok_0;
            let m = spec_resolve_node(s.last())->Ok_0;
            assert(v == p.push(m));
            assert forall|i: int| 0 <= i < s.len() implies same_but_tags(#[trigger] s[i], v[i]) by {
                if i < s.len() - 1 {
                    assert(s[i] == s.drop_last()[i]);
                }
            }
        }
    }
}

proof fn lemma_resolve_entries_keep(s: Seq<(NodeV, NodeV)>)
    ensures
        spec_resolve_entries(s) matches Ok(v) ==> {
            &&& v.len() == s.len()
            &&& forall|i: int|
                0 <= i < s.len() ==> same_but_tags(#[trigger] s[i].0, v[i].0) && same_but_tags(
                    s[i].1,
                    v[i].1,
                )
        },
    decreases s, s.len(),
{
    if s.len() > 0 {
        lemma_resolve_entries_keep(s.drop_last());
        lemma_resolve_keeps_all_but_tags(s.last().0);
        lemma_resolve_keeps_all_but_tags(s.last().1);
        if let Ok(v) = spec_resolve_entries(s) {
            let p = spec_resolve_entries(s.drop_last())->Ok_0;
            let k = spec_resolve_node(s.last().0)->Ok_0;
            let w = spec_resolve_node(s.last().1)->Ok_0;
            assert(v == p.push((k, w)));
            assert forall|i: int| 0 <= i < s.len() implies same_but_tags(#[trigger] s[i].0, v[i].0)
                && same_but_tags(s[i].1, v[i].1) by {
                if i < s.len() - 1 {
                    assert(s[i] == s.drop_last()[i]);
                }
            }
        }
    }
}

/// Two trees that differ in tags only record the same spans, so one has every span a run of the
/// characters of `s` exactly when the other has.
pub proof fn lemma_same_but_tags_spans(n: NodeV, m: NodeV, s: Seq<char>)
    requires
        same_but_tags(n, m),
    ensures
        spans_in(n, s) <==> spans_in(m, s),
    decreases n, 1nat,
{
    lemma_same_content_spans(n.value, m.value, s);
}

proof fn lemma_same_content_spans(c: ContentV, d: ContentV, s: Seq<char>)
    requires
        same_content_but_tags(c, d),
    ensures
        content_spans_in(c, s) <==> content_spans_in(d, s),
    decreases c, 0nat,
{
    match c {
        ContentV::Sequence(items) => {
            let others = d->Sequence_0;
            assert forall|i: int| 0 <= i < items.len() implies (spans_in(#[trigger] items[i], s)
                <==> spans_in(others[i], s)) by {
                lemma_same_but_tags_spans(items[i], others[i], s);
            }
            if content_spans_in(d, s) {
                assert forall|i: int| 0 <= i < items.len() implies spans_in(#[trigger] items[i], s) by {
                    assert(spans_in(others[i], s));
                }
            }
            if content_spans_in(c, s) {
                assert forall|i: int| 0 <= i < others.len() implies spans_in(#[trigger] others[i], s) by {
                    assert(spans_in(items[i], s));
                }
            }
        },
        ContentV::Mapping(entries) => {
            let others = d->Mapping_0;
            assert forall|i: int| 0 <= i < entries.len() implies (spans_in(#[trigger] entries[i].0, s)
                <==> spans_in(others[i].0, s)) && (spans_in(entries[i].1, s)
                <==> spans_in(others[i].1, s)) by {
                lemma_same_but_tags_spans(entries[i].0, others[i].0, s);
                lemma_same_but_tags_spans(entries[i].1, others[i].1, s);
            }
            if content_spans_in(d, s) {
                assert forall|i: int| 0 <= i < entries.len() implies spans_in(#[trigger] entries[i].0, s)
                    && spans_in(entries[i].1, s) by {
                    assert(spans_in(others[i].0, s));
                }
            }
            if content_spans_in(c, s) {
                assert forall|i: int| 0 <= i < others.len() implies spans_in(#[trigger] others[i].0, s)
                    && spans_in(others[i].1, s) by {
                    assert(spans_in(entries[i].0, s));
                }
            }
        },
        _ => {},
    }
}

// ---------------------------------------------------------------------------------------------
// When resolution succeeds
// ---------------------------------------------------------------------------------------------
/// The tag a node was given is acceptable for its content: a global tag naming a standard tag
/// (`tag:yaml.org,2002:...`, after percent-decoding) fits its content's kind and, for null, bool,
/// int and float, the Core Schema pattern. Every other tag is acceptable.
pub open spec fn tag_fits(tag: TagV, c: ContentV) -> bool {
    match tag {
        TagV::Global(uri) => match spec_explicit_standard_tag(spec_decode_tag_uri(uri)) {
            Some(t) => spec_validate(t, c) is None,
            None => true,
        },
        _ => true,
    }
}

/// Every node of the tree of `n` carries an acceptable tag.
pub open spec fn all_tags_fit(n: NodeV) -> bool
    decreases n, 1nat,
{
    &&& tag_fits(n.tag, n.value)
    &&& content_tags_fit(n.value)
}

/// Every node within `c` carries an acceptable tag.
pub open spec fn content_tags_fit(c: ContentV) -> bool
    decreases c, 0nat,
{
    match c {
        ContentV::Sequence(items) => forall|i: int|
            0 <= i < items.len() ==> all_tags_fit(#[trigger] items[i]),
        ContentV::Mapping(entries) => forall|i: int|
            0 <= i < entries.len() ==> all_tags_fit(#[trigger] entries[i].0) && all_tags_fit(
                entries[i].1,
            ),
        _ => true,
    }
}

/// A tag is checked against the kind and text of its content only, which resolution keeps.
proof fn lemma_validate_same(t: StandardTag, c: ContentV, d: ContentV)
    requires
        same_content_but_tags(c, d),
    ensures
        spec_validate(t, c) == spec_validate(t, d),
{
}

/// Resolution fails exactly when some node carries a standard tag that does not fit it: a
/// tree resolves if and only if every one of its tags is acceptable.
pub proof fn lemma_resolves_iff_tags_fit(n: NodeV)
    ensures
        spec_resolve_node(n) is Ok <==> all_tags_fit(n),
    decreases n, 0nat,
{
    lemma_content_resolves_iff(n.value);
    lemma_resolve_content_keeps(n.value);
    if let Ok(c) = spec_resolve_content(n.value) {
        if let TagV::Global(uri) = n.tag {
            if let Some(t) = spec_explicit_standard_tag(spec_decode_tag_uri(uri)) {
                lemma_validate_same(t, n.value, c);
            }
        }
    }
}

proof fn lemma_content_resolves_iff(c: ContentV)
    ensures
        spec_resolve_content(c) is Ok <==> content_tags_fit(c),
    decreases c, 0nat,
{
    match c {
        ContentV::Sequence(items) => lemma_nodes_resolve_iff(items),
        ContentV::Mapping(entries) => lemma_entries_resolve_iff(entries),
        _ => {},
    }
}

proof fn lemma_nodes_resolve_iff(s: Seq<NodeV>)
    ensures
        spec_resolve_nodes(s) is Ok <==> forall|i: int| 0 <= i < s.len() ==> all_tags_fit(#[trigger] s[i]),
    decreases s, s.len(),
{
    if s.len() > 0 {
        let d = s.drop_last();
        lemma_nodes_resolve_iff(d);
        lemma_resolves_iff_tags_fit(s.last());
        if forall|i: int| 0 <= i < s.len() ==> all_tags_fit(#[trigger] s[i]) {
            assert forall|i: int| 0 <= i < d.len() implies all_tags_fit(#[trigger] d[i]) by {
                assert(d[i] == s[i]);
            }
            assert(all_tags_fit(s[s.len() - 1]));
            assert(spec_resolve_nodes(d) is Ok);
            assert(spec_resolve_node(s.last()) is Ok);
        }
        if spec_resolve_nodes(s) is Ok {
            assert forall|i: int| 0 <= i < s.len() implies all_tags_fit(#[trigger] s[i]) by {
                if i < s.len() - 1 {
                    assert(d[i] == s[i]);
                }
            }
        }
    }
}

proof fn lemma_entries_resolve_iff(s: Seq<(NodeV, NodeV)>)
    ensures
        spec_resolve_entries(s) is Ok <==> forall|i: int|
            0 <= i < s.len() ==> all_tags_fit(#[trigger] s[i].0) && all_tags_fit(s[i].1),
    decreases s, s.len(),
{
    if s.len() > 0 {
        let d = s.drop_last();
        lemma_entries_resolve_iff(d);
        lemma_resolves_iff_tags_fit(s.last().0);
        lemma_resolves_iff_tags_fit(s.last().1);
        if forall|i: int| 0 <= i < s.len() ==> all_tags_fit(#[trigger] s[i].0) && all_tags_fit(s[i].1) {
            assert forall|i: int| 0 <= i < d.len() implies all_tags_fit(#[trigger] d[i].0) && all_tags_fit(d[i].1) by {
                assert(d[i] == s[i]);
            }
            assert(all_tags_fit(s[s.len() - 1].0) && all_tags_fit(s[s.len() - 1].1));
            assert(spec_resolve_entries(d) is Ok);
            assert(spec_resolve_node(s.last().0) is Ok);
            assert(spec_resolve_node(s.last().1) is Ok);
        }
        if spec_resolve_entries(s) is Ok {
            assert(spec_resolve_entries(d) is Ok);
            assert(spec_resolve_node(s.last().0) is Ok);
            assert(spec_resolve_node(s.last().1) is Ok);
            assert forall|i: int| 0 <= i < s.len() implies all_tags_fit(#[trigger] s[i].0) && all_tags_fit(s[i].1) by {
                if i < s.len() - 1 {
                    assert(d[i] == s[i]);
                    assert(all_tags_fit(d[i].0));
                    assert(all_tags_fit(d[i].1));
                } else {
                    assert(s[i] == s.last());
                }
            }
        }
    }
}

} // verus!
