//! Flow scalars: double-quoted, single-quoted and plain.
use vstd::prelude::*;

use crate::parse::block::{feeds, fold};
use crate::parse::chars::{
    hex_value, is_flow_indicator, is_hex_digit, is_indicator, is_nb_json, is_non_space,
    spec_flow_indicator, spec_hex_digit, spec_hex_value, spec_indicator, spec_nb_json,
    spec_non_space,
};
use crate::parse::input::Text;
use crate::parse::spaces::{
    empty_lines, flow_folded, flow_line_prefix, forbidden, line_break, skip_white, spec_empty_lines,
    spec_flow_folded, spec_flow_line_prefix, spec_forbidden, spec_is_key, spec_line_break,
    white_end, Context, IndentLevel,
};
use crate::text::push_char;

verus! {

/// The character a one-character escape (after `\`) stands for.
pub open spec fn spec_escape(e: char) -> Option<char> {
    if e == '0' {
        Some('\u{0}')
    } else if e == 'a' {
        Some('\u{7}')
    } else if e == 'b' {
        Some('\u{8}')
    } else if e == 't' || e == '\t' {
        Some('\t')
    } else if e == 'n' {
        Some('\n')
    } else if e == 'v' {
        Some('\u{b}')
    } else if e == 'f' {
        Some('\u{c}')
    } else if e == 'r' {
        Some('\r')
    } else if e == 'e' {
        Some('\u{1b}')
    } else if e == ' ' {
        Some(' ')
    } else if e == '"' {
        Some('"')
    } else if e == '/' {
        Some('/')
    } else if e == '\\' {
        Some('\\')
    } else if e == 'N' {
        Some('\u{85}')
    } else if e == '_' {
        Some('\u{a0}')
    } else if e == 'L' {
        Some('\u{2028}')
    } else if e == 'P' {
        Some('\u{2029}')
    } else {
        None
    }
}

/// The character a one-character escape (after `\`) stands for: `c-ns-esc-char` without the
/// `x`, `u` and `U` forms.
pub fn escape_to_char(e: char) -> (r: Option<char>)
    ensures
        r == spec_escape(e),
{
    match e {
        '0' => Some('\u{0}'),
        'a' => Some('\u{7}'),
        'b' => Some('\u{8}'),
        't' | '\t' => Some('\t'),
        'n' => Some('\n'),
        'v' => Some('\u{b}'),
        'f' => Some('\u{c}'),
        'r' => Some('\r'),
        'e' => Some('\u{1b}'),
        ' ' => Some(' '),
        '"' => Some('"'),
        '/' => Some('/'),
        '\\' => Some('\\'),
        'N' => Some('\u{85}'),
        '_' => Some('\u{a0}'),
        'L' => Some('\u{2028}'),
        'P' => Some('\u{2029}'),
        _ => None,
    }
}

/// Whether `v` is a Unicode scalar value: a code point that is not a surrogate.
pub open spec fn spec_scalar_value(v: u32) -> bool {
    v < 0xD800 || (0xE000 <= v && v <= 0x10FFFF)
}

/// The character whose code point is `v`: `char::from_u32` from std, which returns one exactly
/// for the Unicode scalar values.
#[verifier::external_body]
fn char_from_u32(v: u32) -> (r: Option<char>)
    ensures
        r is Some <==> spec_scalar_value(v),
        r matches Some(c) ==> c as u32 == v,
{
    char::from_u32(v)
}

/// The value of the hex digits `s[i..i+k]`.
pub open spec fn spec_hex_run(s: Seq<char>, i: int, k: nat) -> nat
    decreases k,
{
    if k == 0 {
        0
    } else {
        16 * spec_hex_run(s, i, (k - 1) as nat) + spec_hex_value(s[i + k - 1])
    }
}

/// The `k` hex digits at `p` (`k` at most 8), and their value.
pub fn hex_run(t: &Text, p: usize, k: usize) -> (r: Option<u32>)
    requires
        p <= t.view().len(),
        k <= 8,
    ensures
        r is Some <==> (p + k <= t.view().len() && forall|i: int|
            p <= i < p + k ==> spec_hex_digit(t.view()[i])),
        r matches Some(v) ==> v == spec_hex_run(t.view(), p as int, k as nat),
{
    let len = t.len();
    if len - p < k {
        return None;
    }
    let mut v: u32 = 0;
    let mut j: usize = 0;
    while j < k
        invariant
            j <= k <= 8,
            p + k <= t.view().len(),
            len == t.view().len(),
            v == spec_hex_run(t.view(), p as int, j as nat),
            v < pow16(j as nat),
            forall|i: int| p <= i < p + j ==> spec_hex_digit(t.view()[i]),
        decreases k - j,
    {
        let c = t.peek(p + j).unwrap();
        if !is_hex_digit(c) {
            return None;
        }
        let d = hex_value(c);
        proof {
            lemma_pow16_step(j as nat);
        }
        assert(v * 16 + d < pow16((j + 1) as nat)) by (nonlinear_arith)
            requires
                v < pow16(j as nat),
                d < 16,
                pow16((j + 1) as nat) == 16 * pow16(j as nat),
        ;
        v = v * 16 + d;
        j = j + 1;
    }
    Some(v)
}

/// `16` to the power `k`.
pub open spec fn pow16(k: nat) -> nat
    decreases k,
{
    if k == 0 {
        1
    } else {
        16 * pow16((k - 1) as nat)
    }
}

proof fn lemma_pow16_step(j: nat)
    requires
        j < 8,
    ensures
        pow16(j + 1) == 16 * pow16(j),
        pow16(j + 1) <= 0x1_0000_0000,
{
    assert(pow16(0) == 1);
    assert(pow16(1) == 0x10);
    assert(pow16(2) == 0x100);
    assert(pow16(3) == 0x1000);
    assert(pow16(4) == 0x1_0000);
    assert(pow16(5) == 0x10_0000);
    assert(pow16(6) == 0x100_0000);
    assert(pow16(7) == 0x1000_0000);
    assert(pow16(8) == 0x1_0000_0000);
    assert(j == 0 || j == 1 || j == 2 || j == 3 || j == 4 || j == 5 || j == 6 || j == 7);
}

/// Appends the characters at `a..b` of the text.
pub fn push_text(out: &mut String, t: &Text, a: usize, b: usize)
    requires
        a <= b <= t.view().len(),
    ensures
        final(out)@ == old(out)@ + t.view().subrange(a as int, b as int),
{
    let mut i = a;
    while i < b
        invariant
            a <= i <= b <= t.view().len(),
            out@ == old(out)@ + t.view().subrange(a as int, i as int),
        decreases b - i,
    {
        let c = t.peek(i).unwrap();
        push_char(out, c);
        assert(t.view().subrange(a as int, i + 1) =~= t.view().subrange(a as int, i as int).push(
            c,
        ));
        i = i + 1;
    }
}

/// Appends `k` line feeds, or a single space when `k` is `0`: the text a folded line break
/// stands for.
pub fn push_fold(out: &mut String, k: usize)
    ensures
        final(out)@ == old(out)@ + (if k == 0 {
            seq![' ']
        } else {
            Seq::new(k as nat, |i: int| '\n')
        }),
{
    if k == 0 {
        push_char(out, ' ');
        assert(seq![' '] =~= Seq::<char>::empty().push(' '));
    } else {
        push_feeds(out, k);
    }
}

/// Appends `k` line feeds.
pub fn push_feeds(out: &mut String, k: usize)
    ensures
        final(out)@ == old(out)@ + Seq::new(k as nat, |i: int| '\n'),
{
    let mut j: usize = 0;
    while j < k
        invariant
            j <= k,
            out@ == old(out)@ + Seq::new(j as nat, |i: int| '\n'),
        decreases k - j,
    {
        push_char(out, '\n');
        assert(Seq::new((j + 1) as nat, |i: int| '\n') =~= Seq::new(j as nat, |i: int| '\n').push(
            '\n',
        ));
        j = j + 1;
    }
}

// ---------------------------------------------------------------------------------------------
// Double-quoted scalars
// ---------------------------------------------------------------------------------------------
/// The number of hex digits that follow an `x`, `u` or `U` escape; zero for any other.
pub open spec fn hex_escape_width(e: char) -> nat {
    if e == 'x' {
        2
    } else if e == 'u' {
        4
    } else if e == 'U' {
        8
    } else {
        0
    }
}

/// The escape sequence at `p` (just after its `\`): the code point it stands for and the
/// position after it. A one-character escape, or `x`, `u` or `U` and that many hex digits
/// naming a Unicode scalar value.
pub open spec fn spec_escape_sequence(s: Seq<char>, p: int) -> Option<(u32, int)> {
    if !(0 <= p < s.len()) {
        None
    } else {
        match spec_escape(s[p]) {
            Some(c) => Some((c as u32, p + 1)),
            None => {
                let k = hex_escape_width(s[p]);
                if k > 0 && p + 1 + k <= s.len() && (forall|i: int|
                    p + 1 <= i < p + 1 + k ==> spec_hex_digit(#[trigger] s[i])) && spec_scalar_value(
                    spec_hex_run(s, p + 1, k) as u32,
                ) {
                    Some((spec_hex_run(s, p + 1, k) as u32, p + 1 + k))
                } else {
                    None
                }
            },
        }
    }
}

/// Every one-character escape of a double-quoted scalar stands for the character that YAML's
/// `c-ns-esc-char` table lists for it, and takes just that one character after the `\`: `\0`
/// U+0000, `\a` U+0007, `\b` U+0008, `\t` (or a tab) U+0009, `\n` U+000A, `\v` U+000B, `\f`
/// U+000C, `\r` U+000D, `\e` U+001B, `\ ` U+0020, `\"` U+0022, `\/` U+002F, `\\` U+005C, `\N`
/// U+0085, `\_` U+00A0, `\L` U+2028 and `\P` U+2029.
pub proof fn lemma_one_character_escapes(s: Seq<char>, p: int)
    requires
        0 <= p < s.len(),
    ensures
        s[p] == '0' ==> spec_escape_sequence(s, p) == Some((0x00u32, p + 1)),
        s[p] == 'a' ==> spec_escape_sequence(s, p) == Some((0x07u32, p + 1)),
        s[p] == 'b' ==> spec_escape_sequence(s, p) == Some((0x08u32, p + 1)),
        s[p] == 't' ==> spec_escape_sequence(s, p) == Some((0x09u32, p + 1)),
        s[p] == '\t' ==> spec_escape_sequence(s, p) == Some((0x09u32, p + 1)),
        s[p] == 'n' ==> spec_escape_sequence(s, p) == Some((0x0Au32, p + 1)),
        s[p] == 'v' ==> spec_escape_sequence(s, p) == Some((0x0Bu32, p + 1)),
        s[p] == 'f' ==> spec_escape_sequence(s, p) == Some((0x0Cu32, p + 1)),
        s[p] == 'r' ==> spec_escape_sequence(s, p) == Some((0x0Du32, p + 1)),
        s[p] == 'e' ==> spec_escape_sequence(s, p) == Some((0x1Bu32, p + 1)),
        s[p] == ' ' ==> spec_escape_sequence(s, p) == Some((0x20u32, p + 1)),
        s[p] == '"' ==> spec_escape_sequence(s, p) == Some((0x22u32, p + 1)),
        s[p] == '/' ==> spec_escape_sequence(s, p) == Some((0x2Fu32, p + 1)),
        s[p] == '\\' ==> spec_escape_sequence(s, p) == Some((0x5Cu32, p + 1)),
        s[p] == 'N' ==> spec_escape_sequence(s, p) == Some((0x85u32, p + 1)),
        s[p] == '_' ==> spec_escape_sequence(s, p) == Some((0xA0u32, p + 1)),
        s[p] == 'L' ==> spec_escape_sequence(s, p) == Some((0x2028u32, p + 1)),
        s[p] == 'P' ==> spec_escape_sequence(s, p) == Some((0x2029u32, p + 1)),
{
}

/// The escape sequence at `p` (just after its `\`): the character it stands for and the
/// position after it. `None` for an unknown escape or a code point that is no character.
pub fn escape_sequence(t: &Text, p: usize) -> (r: Option<(char, usize)>)
    requires
        p <= t.view().len(),
    ensures
        match r {
            Some((c, q)) => spec_escape_sequence(t.view(), p as int) == Some((c as u32, q as int)),
            None => spec_escape_sequence(t.view(), p as int) is None,
        },
        r matches Some((_, q)) ==> p < q <= t.view().len(),
{
    let e = match t.peek(p) {
        Some(e) => e,
        None => return None,
    };
    match escape_to_char(e) {
        Some(c) => return Some((c, p + 1)),
        None => {},
    }
    let k: usize = if e == 'x' {
        2
    } else if e == 'u' {
        4
    } else if e == 'U' {
        8
    } else {
        return None;
    };
    match hex_run(t, p + 1, k) {
        Some(v) => match char_from_u32(v) {
            Some(c) => Some((c, p + 1 + k)),
            None => None,
        },
        None => None,
    }
}

/// A character is the character of its own code point.
proof fn lemma_char_round_trip(c: char)
    ensures
        c == (c as u32) as char,
{
    let v = c as u32;
    assert(spec_scalar_value(v));
    assert(((v as char) as u32) == v);
}

/// The rest of a double-quoted scalar from `q` on, in a context that is a key context when
/// `key`: the text read so far is `out`, and the white space from `white_from` to `q` is read
/// but kept only if no line break follows it. The text and the position after the closing
/// quote.
pub open spec fn spec_double_from(
    s: Seq<char>,
    q: int,
    white_from: int,
    n: nat,
    key: bool,
    out: Seq<char>,
) -> Option<(Seq<char>, int)>
    decreases s.len() - q,
{
    if !(0 <= q < s.len()) {
        None
    } else if s[q] == '"' {
        Some((out + s.subrange(white_from, q), q + 1))
    } else if s[q] == ' ' || s[q] == '\t' {
        spec_double_from(s, q + 1, white_from, n, key, out)
    } else if s[q] == '\\' && q + 1 < s.len() && (s[q + 1] == '\n' || s[q + 1] == '\r') {
        // An escaped line break: the white space before it stays, the break and the next
        // line's indentation go.
        if key {
            None
        } else {
            match spec_line_break(s, q + 1) {
                Some(b) => {
                    let (k, e) = spec_empty_lines(s, b, n, Context::FlowIn);
                    match spec_flow_line_prefix(s, e, n) {
                        Some(x) => if q < x <= s.len() {
                            spec_double_from(
                                s,
                                x,
                                x,
                                n,
                                key,
                                out + s.subrange(white_from, q) + feeds(k),
                            )
                        } else {
                            None
                        },
                        None => None,
                    }
                },
                None => None,
            }
        }
    } else if s[q] == '\\' {
        match spec_escape_sequence(s, q + 1) {
            Some((v, x)) => if q < x <= s.len() {
                spec_double_from(s, x, x, n, key, out + s.subrange(white_from, q).push(v as char))
            } else {
                None
            },
            None => None,
        }
    } else if s[q] == '\n' || s[q] == '\r' {
        // A line break folds, and the white space before it goes.
        if key {
            None
        } else {
            match spec_flow_folded(s, q, n) {
                Some((k, x)) => if spec_forbidden(s, x) {
                    None
                } else if q < x <= s.len() {
                    spec_double_from(s, x, x, n, key, out + fold(k))
                } else {
                    None
                },
                None => None,
            }
        }
    } else if spec_nb_json(s[q]) {
        spec_double_from(s, q + 1, q + 1, n, key, out + s.subrange(white_from, q + 1))
    } else {
        None
    }
}

/// `c-double-quoted(n,c)` at `p`: the text, with escapes decoded and line breaks folded, and
/// the position after the closing quote. Line breaks are allowed only outside the key contexts.
pub open spec fn spec_double_quoted(s: Seq<char>, p: int, n: nat, c: Context) -> Option<
    (Seq<char>, int),
> {
    if 0 <= p < s.len() && s[p] == '"' {
        spec_double_from(s, p + 1, p + 1, n, spec_is_key(c), Seq::empty())
    } else {
        None
    }
}

/// The text and end of a scalar, as the grammar's values.
pub open spec fn text_at(r: Option<(String, usize)>) -> Option<(Seq<char>, int)> {
    match r {
        Some((text, q)) => Some((text@, q as int)),
        None => None,
    }
}

/// `c-double-quoted(n,c)`: a double-quoted scalar at `p`, its text with escapes decoded and
/// line breaks folded, and the position after its closing quote. Line breaks are allowed only
/// outside the key contexts.
pub fn double_quoted(t: &Text, p: usize, level: IndentLevel, c: Context) -> (r: Option<
    (String, usize),
>)
    requires
        p <= t.view().len(),
    ensures
        text_at(r) == spec_double_quoted(t.view(), p as int, level.spec_get(), c),
        r matches Some((_, q)) ==> p < q <= t.view().len(),
{
    if !t.is(p, '"') {
        return None;
    }
    let ghost s = t.view();
    let ghost n = level.spec_get();
    let ghost key = spec_is_key(c);
    let mut out = String::new();
    let mut q = p + 1;
    // White space read but not yet kept: it is dropped if a line break follows it.
    let mut white_from = q;
    loop
        invariant
            p < white_from <= q <= t.view().len(),
            s == t.view(),
            n == level.spec_get(),
            key == spec_is_key(c),
            spec_double_quoted(s, p as int, n, c) == spec_double_from(
                s,
                q as int,
                white_from as int,
                n,
                key,
                out@,
            ),
        decreases t.view().len() - q,
    {
        let ch = match t.peek(q) {
            Some(ch) => ch,
            None => return None,
        };
        if ch == '"' {
            push_text(&mut out, t, white_from, q);
            return Some((out, q + 1));
        } else if ch == ' ' || ch == '\t' {
            q = q + 1;
        } else if ch == '\\' && (t.is(q + 1, '\n') || t.is(q + 1, '\r')) {
            // An escaped line break: the white space before it is kept, the break itself and
            // the next line's indentation are not.
            if spec_is_key_ctx(c) {
                return None;
            }
            push_text(&mut out, t, white_from, q);
            let b = match line_break(t, q + 1) {
                Some(b) => b,
                None => return None,
            };
            let (k, e) = empty_lines(t, b, level, Context::FlowIn);
            let s = match flow_line_prefix(t, e, level) {
                Some(s) => s,
                None => return None,
            };
            push_feeds(&mut out, k);
            q = s;
            white_from = q;
        } else if ch == '\\' {
            push_text(&mut out, t, white_from, q);
            match escape_sequence(t, q + 1) {
                Some((e, s)) => {
                    proof {
                        lemma_char_round_trip(e);
                    }
                    push_char(&mut out, e);
                    q = s;
                },
                None => return None,
            }
            white_from = q;
        } else if ch == '\n' || ch == '\r' {
            if spec_is_key_ctx(c) {
                return None;
            }
            match flow_folded(t, q, level) {
                Some((k, s)) => {
                    if forbidden(t, s) {
                        return None;
                    }
                    push_fold(&mut out, k);
                    q = s;
                    white_from = q;
                },
                None => return None,
            }
        } else if is_nb_json(ch) {
            push_text(&mut out, t, white_from, q + 1);
            q = q + 1;
            white_from = q;
        } else {
            return None;
        }
    }
}

/// Whether `c` is a key context (a one-line scalar).
pub fn spec_is_key_ctx(c: Context) -> (r: bool)
    ensures
        r == spec_is_key(c),
{
    match c {
        Context::BlockKey | Context::FlowKey => true,
        _ => false,
    }
}

// ---------------------------------------------------------------------------------------------
// Single-quoted scalars
// ---------------------------------------------------------------------------------------------
/// The rest of a single-quoted scalar from `q` on, as [`spec_double_from`] reads a
/// double-quoted one, with `''` read as `'` and no other escapes.
pub open spec fn spec_single_from(
    s: Seq<char>,
    q: int,
    white_from: int,
    n: nat,
    key: bool,
    out: Seq<char>,
) -> Option<(Seq<char>, int)>
    decreases s.len() - q,
{
    if !(0 <= q < s.len()) {
        None
    } else if s[q] == '\'' && q + 1 < s.len() && s[q + 1] == '\'' {
        spec_single_from(s, q + 2, q + 2, n, key, out + s.subrange(white_from, q).push('\''))
    } else if s[q] == '\'' {
        Some((out + s.subrange(white_from, q), q + 1))
    } else if s[q] == ' ' || s[q] == '\t' {
        spec_single_from(s, q + 1, white_from, n, key, out)
    } else if s[q] == '\n' || s[q] == '\r' {
        if key {
            None
        } else {
            match spec_flow_folded(s, q, n) {
                Some((k, x)) => if spec_forbidden(s, x) {
                    None
                } else if q < x <= s.len() {
                    spec_single_from(s, x, x, n, key, out + fold(k))
                } else {
                    None
                },
                None => None,
            }
        }
    } else if spec_nb_json(s[q]) {
        spec_single_from(s, q + 1, q + 1, n, key, out + s.subrange(white_from, q + 1))
    } else {
        None
    }
}

/// `c-single-quoted(n,c)` at `p`: the text, with `''` read as `'` and line breaks folded, and
/// the position after the closing quote.
pub open spec fn spec_single_quoted(s: Seq<char>, p: int, n: nat, c: Context) -> Option<
    (Seq<char>, int),
> {
    if 0 <= p < s.len() && s[p] == '\'' {
        spec_single_from(s, p + 1, p + 1, n, spec_is_key(c), Seq::empty())
    } else {
        None
    }
}

/// `c-single-quoted(n,c)`: a single-quoted scalar at `p`, its text with `''` read as `'` and
/// line breaks folded, and the position after its closing quote.
pub fn single_quoted(t: &Text, p: usize, level: IndentLevel, c: Context) -> (r: Option<
    (String, usize),
>)
    requires
        p <= t.view().len(),
    ensures
        text_at(r) == spec_single_quoted(t.view(), p as int, level.spec_get(), c),
        r matches Some((_, q)) ==> p < q <= t.view().len(),
{
    if !t.is(p, '\'') {
        return None;
    }
    let ghost s = t.view();
    let ghost n = level.spec_get();
    let ghost key = spec_is_key(c);
    let mut out = String::new();
    let mut q = p + 1;
    let mut white_from = q;
    loop
        invariant
            p < white_from <= q <= t.view().len(),
            s == t.view(),
            n == level.spec_get(),
            key == spec_is_key(c),
            spec_single_quoted(s, p as int, n, c) == spec_single_from(
                s,
                q as int,
                white_from as int,
                n,
                key,
                out@,
            ),
        decreases t.view().len() - q,
    {
        let ch = match t.peek(q) {
            Some(ch) => ch,
            None => return None,
        };
        if ch == '\'' && t.is(q + 1, '\'') {
            push_text(&mut out, t, white_from, q);
            push_char(&mut out, '\'');
            q = q + 2;
            white_from = q;
        } else if ch == '\'' {
            push_text(&mut out, t, white_from, q);
            return Some((out, q + 1));
        } else if ch == ' ' || ch == '\t' {
            q = q + 1;
        } else if ch == '\n' || ch == '\r' {
            if spec_is_key_ctx(c) {
                return None;
            }
            match flow_folded(t, q, level) {
                Some((k, s)) => {
                    if forbidden(t, s) {
                        return None;
                    }
                    push_fold(&mut out, k);
                    q = s;
                    white_from = q;
                },
                None => return None,
            }
        } else if is_nb_json(ch) {
            push_text(&mut out, t, white_from, q + 1);
            q = q + 1;
            white_from = q;
        } else {
            return None;
        }
    }
}

// ---------------------------------------------------------------------------------------------
// Plain scalars
// ---------------------------------------------------------------------------------------------
/// `ns-plain-safe(c)`: a non-space character, which inside flow collections is no flow
/// indicator.
pub open spec fn spec_plain_safe(ch: char, c: Context) -> bool {
    if c == Context::FlowIn || c == Context::FlowKey {
        spec_non_space(ch) && !spec_flow_indicator(ch)
    } else {
        spec_non_space(ch)
    }
}

/// The character at `i` is plain-safe.
pub open spec fn spec_plain_safe_at(s: Seq<char>, i: int, c: Context) -> bool {
    0 <= i < s.len() && spec_plain_safe(s[i], c)
}

/// `ns-plain-first(c)` at `p`: a non-space character that is no indicator, or a `?`, `:` or `-`
/// followed by a plain-safe character.
pub open spec fn spec_plain_first(s: Seq<char>, p: int, c: Context) -> bool {
    if !(0 <= p < s.len()) {
        false
    } else if spec_non_space(s[p]) && !spec_indicator(s[p]) {
        true
    } else if s[p] == '?' || s[p] == ':' || s[p] == '-' {
        spec_plain_safe_at(s, p + 1, c)
    } else {
        false
    }
}

/// `ns-plain-char(c)` at `i`: a `:` followed by a plain-safe character, a `#` after a non-space
/// character (`after_char`), or a plain-safe character other than these two.
pub open spec fn spec_plain_char(s: Seq<char>, i: int, c: Context, after_char: bool) -> bool {
    if !(0 <= i < s.len()) {
        false
    } else if s[i] == ':' {
        spec_plain_safe_at(s, i + 1, c)
    } else if s[i] == '#' {
        after_char
    } else {
        spec_plain_safe(s[i], c)
    }
}

/// `nb-ns-plain-in-line(c)` at `q`: white space and plain characters, up to the last plain
/// character; its text and where it ends.
pub open spec fn spec_plain_in_line(s: Seq<char>, q: int, c: Context) -> (Seq<char>, int)
    decreases s.len() - q,
{
    let w = white_end(s, q);
    if q <= w && spec_plain_char(s, w, c, w == q) {
        let rest = spec_plain_in_line(s, w + 1, c);
        (s.subrange(q, w + 1) + rest.0, rest.1)
    } else {
        (Seq::empty(), q)
    }
}

/// The continuation lines of a plain scalar from `q` on, its text so far being `out`: each a
/// folded line break, then a line that starts with a plain character and is no document
/// marker.
pub open spec fn spec_plain_more(s: Seq<char>, q: int, n: nat, c: Context, out: Seq<char>) -> (
    Seq<char>,
    int,
)
    decreases s.len() - q,
{
    match spec_flow_folded(s, q, n) {
        Some((k, x)) => if spec_forbidden(s, x) || !spec_plain_char(s, x, c, false) {
            (out, q)
        } else {
            let line = spec_plain_in_line(s, x + 1, c);
            if q < line.1 <= s.len() {
                spec_plain_more(
                    s,
                    line.1,
                    n,
                    c,
                    out + fold(k) + s.subrange(x, x + 1) + line.0,
                )
            } else {
                (out, q)
            }
        },
        None => (out, q),
    }
}

/// `ns-plain(n,c)` at `p`: the text, its lines folded, and the position after its last
/// non-space character. One line only in the key contexts.
pub open spec fn spec_plain(s: Seq<char>, p: int, n: nat, c: Context) -> Option<(Seq<char>, int)> {
    if !spec_plain_first(s, p, c) || spec_forbidden(s, p) {
        None
    } else {
        let first = spec_plain_in_line(s, p + 1, c);
        let out = s.subrange(p, p + 1) + first.0;
        if spec_is_key(c) {
            Some((out, first.1))
        } else {
            Some(spec_plain_more(s, first.1, n, c, out))
        }
    }
}

/// What a line break between two lines of a scalar reads as when `k` empty lines follow it: one
/// space when there are none, else one line feed for each of them.
pub open spec fn folded_break(k: nat) -> Seq<char> {
    if k == 0 {
        seq![' ']
    } else {
        Seq::new(k, |i: int| '\n')
    }
}

/// Reading more lines of a plain scalar only adds to the text read so far.
proof fn lemma_plain_more_extends(s: Seq<char>, q: int, n: nat, c: Context, out: Seq<char>)
    ensures
        out.is_prefix_of(spec_plain_more(s, q, n, c, out).0),
    decreases s.len() - q,
{
    match spec_flow_folded(s, q, n) {
        Some((k, x)) => if spec_forbidden(s, x) || !spec_plain_char(s, x, c, false) {
        } else {
            let line = spec_plain_in_line(s, x + 1, c);
            if q < line.1 <= s.len() {
                let next = out + fold(k) + s.subrange(x, x + 1) + line.0;
                lemma_plain_more_extends(s, line.1, n, c, next);
                let r = spec_plain_more(s, q, n, c, out).0;
                assert(r.subrange(0, out.len() as int) =~= r.subrange(0, next.len() as int).subrange(
                    0,
                    out.len() as int,
                ));
                assert(next.subrange(0, out.len() as int) =~= out);
            }
        },
        None => {},
    }
}

/// Between two lines of a multi-line plain scalar, a line break followed by `k` empty lines reads
/// as exactly `k` line feeds, or as a single space when `k` is zero: when the lines after `q`
/// fold (the folding counting `k` empty lines and the next line starting at `x`) and continue
/// the scalar, its text goes on with that separator and then the next line's first character.
pub proof fn lemma_plain_break_folds(
    s: Seq<char>,
    q: int,
    n: nat,
    c: Context,
    out: Seq<char>,
    k: nat,
    x: int,
)
    requires
        spec_flow_folded(s, q, n) == Some((k, x)),
        !spec_forbidden(s, x),
        spec_plain_char(s, x, c, false),
        q < spec_plain_in_line(s, x + 1, c).1 <= s.len(),
    ensures
        (out + folded_break(k) + seq![s[x]]).is_prefix_of(spec_plain_more(s, q, n, c, out).0),
{
    let line = spec_plain_in_line(s, x + 1, c);
    let next = out + fold(k) + s.subrange(x, x + 1) + line.0;
    lemma_plain_more_extends(s, line.1, n, c, next);
    let pre = out + folded_break(k) + seq![s[x]];
    assert(fold(k) =~= folded_break(k));
    assert(next.subrange(0, pre.len() as int) =~= pre);
    let r = spec_plain_more(s, q, n, c, out).0;
    assert(r.subrange(0, pre.len() as int) =~= r.subrange(0, next.len() as int).subrange(
        0,
        pre.len() as int,
    ));
}

/// A multi-line plain scalar whose line ends at `q` and goes on after `k` lines holding nothing
/// but their line feeds, on a line indented `n` spaces (at `x`): the scalar's text holds exactly
/// `k` line feeds there (a single space when `k` is zero), then the next line's first character.
pub proof fn lemma_plain_empty_lines(
    s: Seq<char>,
    q: int,
    k: nat,
    n: nat,
    c: Context,
    out: Seq<char>,
)
    requires
        0 <= q,
        q + 1 + k + n < s.len(),
        s[q] == '\n',
        forall|i: int| q + 1 <= i < q + 1 + k ==> s[i] == '\n',
        forall|i: int| q + 1 + k <= i < q + 1 + k + n ==> s[i] == ' ',
        !spec_forbidden(s, q + 1 + k + n),
        spec_plain_char(s, q + 1 + k + n, c, false),
    ensures
        (out + folded_break(k) + seq![s[q + 1 + k + n]]).is_prefix_of(
            spec_plain_more(s, q, n, c, out).0,
        ),
{
    let p = q + 1 + k;
    let x = p + n;
    assert(white_end(s, q) == q);
    assert(white_end(s, x) == x);
    assert(s[x] != '\n' && s[x] != '\r' && s[x] != ' ');
    assert(crate::parse::spaces::spec_indent(s, p, n) == Some(x));
    assert(spec_flow_line_prefix(s, p, n) == Some(x));
    if n > 0 {
        crate::parse::spaces::lemma_space_end_exact(s, p, n);
        assert(s[x - 1] == ' ');
    }
    assert(crate::parse::spaces::spec_line_empty(s, p, n, Context::FlowIn) is None);
    crate::parse::spaces::lemma_bare_lines_count(s, q + 1, k, n, Context::FlowIn);
    assert(spec_flow_folded(s, q, n) == Some((k, x)));
    lemma_plain_in_line_bounds(s, x + 1, c);
    lemma_plain_break_folds(s, q, n, c, out, k, x);
}

proof fn lemma_plain_in_line_bounds(s: Seq<char>, q: int, c: Context)
    requires
        0 <= q <= s.len(),
    ensures
        q <= spec_plain_in_line(s, q, c).1 <= s.len(),
    decreases s.len() - q,
{
    let w = white_end(s, q);
    if q <= w && spec_plain_char(s, w, c, w == q) {
        lemma_plain_in_line_bounds(s, w + 1, c);
    }
}

/// `ns-plain-safe(c)`: any non-space character, excluding the flow indicators inside flow
/// collections.
pub fn plain_safe(ch: char, c: Context) -> (r: bool)
    ensures
        r == spec_plain_safe(ch, c),
{
    match c {
        Context::FlowIn | Context::FlowKey => is_non_space(ch) && !is_flow_indicator(ch),
        _ => is_non_space(ch),
    }
}

/// Whether the character at `i` is plain-safe.
fn plain_safe_at(t: &Text, i: usize, c: Context) -> (r: bool)
    ensures
        r == spec_plain_safe_at(t.view(), i as int, c),
{
    match t.peek(i) {
        Some(ch) => plain_safe(ch, c),
        None => false,
    }
}

/// `ns-plain-first(c)` at `p`.
pub fn plain_first(t: &Text, p: usize, c: Context) -> (r: bool)
    requires
        p <= t.view().len(),
    ensures
        r == spec_plain_first(t.view(), p as int, c),
        r ==> p < t.view().len(),
        t.view().len() < usize::MAX,
{
    let ch = match t.peek(p) {
        Some(ch) => ch,
        None => return false,
    };
    if is_non_space(ch) && !is_indicator(ch) {
        true
    } else if ch == '?' || ch == ':' || ch == '-' {
        plain_safe_at(t, p + 1, c)
    } else {
        false
    }
}

/// `ns-plain-char(c)` at `i`; `after_char` tells whether a non-space character precedes it.
pub fn plain_char(t: &Text, i: usize, c: Context, after_char: bool) -> (r: bool)
    requires
        i <= t.view().len(),
    ensures
        r == spec_plain_char(t.view(), i as int, c, after_char),
        r ==> i < t.view().len(),
        t.view().len() < usize::MAX,
{
    let ch = match t.peek(i) {
        Some(ch) => ch,
        None => return false,
    };
    if ch == ':' {
        plain_safe_at(t, i + 1, c)
    } else if ch == '#' {
        after_char
    } else {
        plain_safe(ch, c)
    }
}

/// `nb-ns-plain-in-line(c)`: the rest of a plain scalar's line, appended to `out`; returns the
/// position after its last non-space character.
pub fn plain_in_line(out: &mut String, t: &Text, p: usize, c: Context) -> (r: usize)
    requires
        p <= t.view().len(),
    ensures
        final(out)@ == old(out)@ + spec_plain_in_line(t.view(), p as int, c).0,
        r == spec_plain_in_line(t.view(), p as int, c).1,
        p <= r <= t.view().len(),
{
    let ghost s = t.view();
    let mut q = p;
    loop
        invariant
            p <= q <= t.view().len(),
            s == t.view(),
            old(out)@ + spec_plain_in_line(s, p as int, c).0 == out@ + spec_plain_in_line(
                s,
                q as int,
                c,
            ).0,
            spec_plain_in_line(s, p as int, c).1 == spec_plain_in_line(s, q as int, c).1,
        decreases t.view().len() - q,
    {
        let w = skip_white(t, q);
        if plain_char(t, w, c, w == q) {
            let ghost before = out@;
            push_text(out, t, q, w + 1);
            assert(before + spec_plain_in_line(s, q as int, c).0 == out@ + spec_plain_in_line(
                s,
                w + 1,
                c,
            ).0);
            q = w + 1;
        } else {
            assert(spec_plain_in_line(s, q as int, c).0 =~= Seq::<char>::empty());
            return q;
        }
    }
}

/// `ns-plain(n,c)`: a plain scalar at `p`, its lines folded, and the position after its last
/// non-space character. One line only in the key contexts.
pub fn plain(t: &Text, p: usize, level: IndentLevel, c: Context) -> (r: Option<(String, usize)>)
    requires
        p <= t.view().len(),
    ensures
        text_at(r) == spec_plain(t.view(), p as int, level.spec_get(), c),
        r matches Some((_, q)) ==> p < q <= t.view().len(),
{
    if !plain_first(t, p, c) || forbidden(t, p) {
        return None;
    }
    let ghost s = t.view();
    let ghost n = level.spec_get();
    let mut out = String::new();
    push_text(&mut out, t, p, p + 1);
    let mut q = plain_in_line(&mut out, t, p + 1, c);
    if spec_is_key_ctx(c) {
        return Some((out, q));
    }
    loop
        invariant
            p < q <= t.view().len(),
            s == t.view(),
            n == level.spec_get(),
            !spec_is_key(c),
            spec_plain(s, p as int, n, c) == Some(spec_plain_more(s, q as int, n, c, out@)),
        decreases t.view().len() - q,
    {
        match flow_folded(t, q, level) {
            Some((k, s)) => {
                if forbidden(t, s) || !plain_char(t, s, c, false) {
                    return Some((out, q));
                }
                push_fold(&mut out, k);
                push_text(&mut out, t, s, s + 1);
                proof {
                    lemma_plain_in_line_bounds(t.view(), s + 1, c);
                }
                q = plain_in_line(&mut out, t, s + 1, c);
            },
            None => return Some((out, q)),
        }
    }
}

} // verus!
