//! Block scalars (literal and folded), block collections and block nodes.
//!
//! As in the flow productions, each call either moves past at least one character or goes to a
//! production of lower rank, which is what the `decreases` clauses state.
use vstd::prelude::*;

use crate::parse::chars::{is_non_break, is_non_space, spec_non_break, spec_non_space};
use crate::parse::flow::{
    bare_node, empty_node, entry_or_empty_value, entry_with_value, flow_node, implicit_json_key,
    implicit_yaml_key, no_match, spec_flow_node, spec_implicit_json_key, spec_implicit_yaml_key,
};
use crate::parse::input::{
    content_at, entries_at, entry_at, node_at, nodes_at, Anchors, Handles, ParseState, Parsed,
    Text,
};
use crate::parse::properties::{
    build_node, properties, properties_up_to, props_at, spec_build_node, spec_properties_up_to,
    Properties, PropertiesV,
};
use crate::parse::scalar::{push_feeds, push_fold, push_text};
use crate::parse::spaces::{
    break_comment, comment_lines, non_break_comment_text, count_spaces, forbidden, indent,
    indent_at_least, indent_less_than, is_white_at, lemma_space_end_bounds, line_break,
    line_comments, line_empty, non_break_end, separate, skip_non_break, space_break_comment,
    space_end, spec_break_comment, spec_comment_lines, spec_comment_text, spec_forbidden,
    spec_indent, spec_indent_less_than, spec_line_break, spec_line_comments, spec_line_empty,
    spec_separate, spec_space_break_comment, Context, IndentLevel,
};
use crate::text::push_char;
use crate::value::{
    content_spans_in, entries_view, entries_within, lemma_empty_within, lemma_mapping_spans,
    lemma_entries_view_len, lemma_nodes_view_len, lemma_push_entry_within, lemma_push_node_within,
    lemma_sequence_spans, nodes_view,
    nodes_within, spans_in, Content, ContentV, MapEntry, Mapping, Node, NodeV, Scalar,
    ScalarStyle,
};

verus! {

broadcast use vstd::std_specs::vec::group_vec_axioms;

/// Block scalar chomping: what becomes of the final line break and trailing empty lines.
#[derive(Debug, Clone, Copy, PartialEq, Eq, Structural)]
pub enum ChompingMode {
    /// `-`: no final line break, no trailing empty lines.
    Strip,
    /// The default: a final line break, no trailing empty lines.
    Clip,
    /// `+`: the final line break and every trailing empty line.
    Keep,
}

// ---------------------------------------------------------------------------------------------
// Block scalars
// ---------------------------------------------------------------------------------------------
/// `c-indentation-indicator` at `p`: a digit from 1 to 9, and its value.
pub open spec fn spec_indentation_indicator(s: Seq<char>, p: int) -> Option<nat> {
    if 0 <= p < s.len() && '1' <= s[p] <= '9' {
        Some((s[p] as nat - '0' as nat) as nat)
    } else {
        None
    }
}

/// `c-chomping-indicator` at `p`: `-` strips, `+` keeps.
pub open spec fn spec_chomping_indicator(s: Seq<char>, p: int) -> Option<ChompingMode> {
    if 0 <= p < s.len() && s[p] == '-' {
        Some(ChompingMode::Strip)
    } else if 0 <= p < s.len() && s[p] == '+' {
        Some(ChompingMode::Keep)
    } else {
        None
    }
}

/// `c-b-block-header` at `p`: the explicit indentation, if any, the chomping mode (clip when no
/// indicator is given), and the position after the header's line.
pub open spec fn spec_block_header(s: Seq<char>, p: int) -> Option<(Option<nat>, ChompingMode, int)> {
    let (m, ch, q) = match spec_indentation_indicator(s, p) {
        Some(m) => match spec_chomping_indicator(s, p + 1) {
            Some(ch) => (Some(m), ch, p + 2),
            None => (Some(m), ChompingMode::Clip, p + 1),
        },
        None => match spec_chomping_indicator(s, p) {
            Some(ch) => match spec_indentation_indicator(s, p + 1) {
                Some(m) => (Some(m), ch, p + 2),
                None => (None, ch, p + 1),
            },
            None => (None, ChompingMode::Clip, p),
        },
    };
    match spec_space_break_comment(s, q) {
        Some(e) => Some((m, ch, e)),
        None => None,
    }
}

/// An optional count as a natural number.
pub open spec fn opt_nat(m: Option<usize>) -> Option<nat> {
    match m {
        Some(v) => Some(v as nat),
        None => None,
    }
}

/// The level `m` deeper than `level`, unless that overflows.
fn deeper(level: IndentLevel, m: usize) -> (r: Option<IndentLevel>)
    ensures
        r is Some <==> level.spec_level() + m <= usize::MAX,
        r matches Some(l) ==> l.spec_level() == level.spec_level() + m,
{
    if m <= usize::MAX - level.level() {
        Some(level.add(m))
    } else {
        None
    }
}

/// `c-b-block-header`: an indentation indicator and a chomping indicator in either order, then
/// the rest of the line. Returns the explicit indentation (if any), the chomping mode, and the
/// position after the header's line.
pub fn block_header(t: &Text, p: usize) -> (r: Option<(Option<usize>, ChompingMode, usize)>)
    requires
        p <= t.view().len(),
    ensures
        match r {
            Some((m, ch, q)) => spec_block_header(t.view(), p as int) == Some(
                (opt_nat(m), ch, q as int),
            ),
            None => spec_block_header(t.view(), p as int) is None,
        },
        r matches Some((m, _, q)) ==> p <= q <= t.view().len() && (m matches Some(v) ==> 1 <= v
            <= 9),
{
    let mut q = p;
    let mut indentation: Option<usize> = None;
    let mut chomping = ChompingMode::Clip;
    match indentation_indicator(t, q) {
        Some(m) => {
            indentation = Some(m);
            q = q + 1;
            match chomping_indicator(t, q) {
                Some(c) => {
                    chomping = c;
                    q = q + 1;
                },
                None => {},
            }
        },
        None => match chomping_indicator(t, q) {
            Some(c) => {
                chomping = c;
                q = q + 1;
                match indentation_indicator(t, q) {
                    Some(m) => {
                        indentation = Some(m);
                        q = q + 1;
                    },
                    None => {},
                }
            },
            None => {},
        },
    }
    match space_break_comment(t, q) {
        Some(e) => Some((indentation, chomping, e)),
        None => None,
    }
}

/// `c-indentation-indicator`: a digit from 1 to 9 at `p`.
fn indentation_indicator(t: &Text, p: usize) -> (r: Option<usize>)
    ensures
        opt_nat(r) == spec_indentation_indicator(t.view(), p as int),
        r matches Some(v) ==> 1 <= v <= 9 && p < t.view().len() && t.view().len() < usize::MAX,
{
    match t.peek(p) {
        Some(c) => if '1' <= c && c <= '9' {
            Some(digit(c))
        } else {
            None
        },
        None => None,
    }
}

/// `c-chomping-indicator`: `-` (strip) or `+` (keep) at `p`.
fn chomping_indicator(t: &Text, p: usize) -> (r: Option<ChompingMode>)
    ensures
        r == spec_chomping_indicator(t.view(), p as int),
        r is Some ==> p < t.view().len() && t.view().len() < usize::MAX,
{
    if t.is(p, '-') {
        Some(ChompingMode::Strip)
    } else if t.is(p, '+') {
        Some(ChompingMode::Keep)
    } else {
        None
    }
}

fn digit(c: char) -> (r: usize)
    requires
        '1' <= c <= '9',
    ensures
        r == c as nat - '0' as nat,
        1 <= r <= 9,
{
    (c as u32 - '0' as u32) as usize
}

/// What indentation detection settles on when no non-empty line decides it: the widest
/// leading empty line, or the level `lvl` (the parent's width plus one) if that is wider.
pub open spec fn detected_default(widest: nat, lvl: nat) -> nat {
    if widest >= lvl {
        widest
    } else {
        lvl
    }
}

/// Indentation detection from the line starting at `q`, the leading empty lines before it
/// having been at most `widest` spaces wide; `lvl` is the parent's width plus one. The width of
/// the first non-empty line when it is deeper than the parent (`None` altogether when a leading
/// empty line is wider than that), and the bound for the empty lines: that same width, or, with
/// no such line, the widest leading empty line.
pub open spec fn spec_detected(s: Seq<char>, q: int, lvl: nat, widest: nat) -> Option<
    (Option<nat>, nat),
>
    decreases s.len() - q,
{
    let k = (space_end(s, q) - q) as nat;
    let m = if k > widest {
        k
    } else {
        widest
    };
    if space_end(s, q) == s.len() {
        Some((None, m))
    } else {
        match spec_line_break(s, space_end(s, q)) {
            Some(r) => if q < r <= s.len() {
                spec_detected(s, r, lvl, m)
            } else {
                Some((None, m))
            },
            None => if k >= lvl {
                if widest > k {
                    None
                } else {
                    Some((Some(k), k))
                }
            } else {
                Some((None, widest))
            },
        }
    }
}

/// The width a block scalar's content is read at, from what detection found: the content's own
/// width, or else the bound, or the parent's level plus one if that is wider.
pub open spec fn detected_content_width(d: Option<(Option<nat>, nat)>, lvl: nat) -> Option<nat> {
    match d {
        Some((Some(k), _)) => Some(k),
        Some((None, b)) => Some(detected_default(b, lvl)),
        None => None,
    }
}

/// What indentation detection found: the width of the content's first line, if the scalar has
/// content of its own, and the width that bounds its empty lines.
#[derive(Debug, Clone, Copy, PartialEq, Eq)]
pub struct DetectedIndentation {
    pub content: Option<usize>,
    pub bound: usize,
}

/// The model of a detection result.
pub open spec fn detected_view(r: Option<DetectedIndentation>) -> Option<(Option<nat>, nat)> {
    match r {
        Some(d) => Some((opt_nat(d.content), d.bound as nat)),
        None => None,
    }
}

/// The content indentation of a block scalar with no indentation indicator, detected from its
/// first non-empty line: that line's spaces, when they are deeper than the parent's level (an
/// error when a leading empty line has more spaces than that), which also bound its empty lines.
/// Without such a line the scalar has no content of its own, and the widest leading empty line
/// bounds its empty lines.
pub fn detect_indentation(t: &Text, p: usize, level: IndentLevel) -> (r: Option<
    DetectedIndentation,
>)
    requires
        p <= t.view().len(),
    ensures
        detected_view(r) == spec_detected(t.view(), p as int, level.spec_level() as nat, 0),
{
    let mut q = p;
    let mut max_empty: usize = 0;
    let ghost lvl = level.spec_level() as nat;
    loop
        invariant
            p <= q <= t.view().len(),
            lvl == level.spec_level(),
            spec_detected(t.view(), p as int, lvl, 0) == spec_detected(
                t.view(),
                q as int,
                lvl,
                max_empty as nat,
            ),
        decreases t.view().len() - q,
    {
        proof {
            lemma_space_end_bounds(t.view(), q as int);
        }
        let k = count_spaces(t, q, t.len() - q);
        let e = q + k;
        let before = max_empty;
        if k > max_empty {
            max_empty = k;
        }
        if e == t.len() {
            return Some(DetectedIndentation { content: None, bound: max_empty });
        }
        match line_break(t, e) {
            Some(r) => {
                q = r;
            },
            None => {
                if k >= level.level() {
                    if before > k {
                        return None;
                    }
                    return Some(DetectedIndentation { content: Some(k), bound: k });
                }
                return Some(DetectedIndentation { content: None, bound: before });
            },
        }
    }
}

/// A line of block scalar content at `q`, indented `w`: where its text starts and ends. A
/// document marker at the start of a line ends the content when `w` is zero.
pub open spec fn spec_text_line(s: Seq<char>, q: int, w: nat) -> Option<(int, int)> {
    if w == 0 && spec_forbidden(s, q) {
        None
    } else {
        match spec_indent(s, q, w) {
            Some(a) => if 0 <= a < s.len() && spec_non_break(s[a]) {
                Some((a, non_break_end(s, a)))
            } else {
                None
            },
            None => None,
        }
    }
}

/// A line of block scalar content: its text starts at `a` and ends at `b`; `spaced` when it
/// starts with white space.
fn text_line(t: &Text, q: usize, w: IndentLevel) -> (r: Option<(usize, usize)>)
    requires
        q <= t.view().len(),
    ensures
        match r {
            Some((a, b)) => spec_text_line(t.view(), q as int, w.spec_get()) == Some(
                (a as int, b as int),
            ),
            None => spec_text_line(t.view(), q as int, w.spec_get()) is None,
        },
        r matches Some((a, b)) ==> q <= a < b <= t.view().len(),
{
    if w.get() == 0 && forbidden(t, q) {
        return None;
    }
    match indent(t, q, w) {
        Some(a) => match t.peek(a) {
            Some(c) => if is_non_break(c) {
                Some((a, skip_non_break(t, a)))
            } else {
                None
            },
            None => None,
        },
        None => None,
    }
}

/// `l-trail-comments(n)` at `p`, if there are any: where they end, else `p`.
pub open spec fn spec_trail_comments(s: Seq<char>, p: int, w: nat) -> int {
    match spec_comment_text(s, spec_indent_less_than(s, p, w)) {
        Some(b) => match spec_break_comment(s, b) {
            Some(c) => spec_comment_lines(s, c),
            None => p,
        },
        None => p,
    }
}

/// `l-trail-comments(n)`: a less indented comment line and any comment lines after it.
fn trail_comments(t: &Text, p: usize, w: IndentLevel) -> (r: usize)
    requires
        p <= t.view().len(),
    ensures
        r == spec_trail_comments(t.view(), p as int, w.spec_get()),
        p <= r <= t.view().len(),
{
    match indent_less_than(t, p, w) {
        Some(a) => match non_break_comment_text(t, a) {
            Some(b) => match break_comment(t, b) {
                Some(c) => comment_lines(t, c),
                None => p,
            },
            None => p,
        },
        None => p,
    }
}

/// `k` line feeds.
pub open spec fn feeds(k: nat) -> Seq<char> {
    Seq::new(k, |i: int| '\n')
}

/// What a folded line break with `k` empty lines after it reads as: a space when there are
/// none, else a line feed for each.
pub open spec fn fold(k: nat) -> Seq<char> {
    if k == 0 {
        seq![' ']
    } else {
        feeds(k)
    }
}

/// Where reading the lines of block scalar content stops: the text so far, the position, the
/// empty lines not yet placed, whether a text line was read, and whether the last text line
/// ended with a line break or the end of the text.
pub struct ContentLines {
    pub out: Seq<char>,
    pub pos: int,
    pub pending: nat,
    pub have_text: bool,
    pub ended: bool,
}

/// The text a text line adds: the empty lines before it (as line feeds, or folded into a space
/// between two lines that do not start with white space), then the line's own text.
pub open spec fn line_joint(
    pending: nat,
    have_text: bool,
    folded: bool,
    last_spaced: bool,
    spaced: bool,
) -> Seq<char> {
    if !have_text {
        feeds(pending)
    } else if folded && !last_spaced && !spaced {
        fold(pending)
    } else {
        feeds(pending + 1)
    }
}

/// The lines of block scalar content indented `w` from `q` on, the text read so far being `out`
/// with `pending` empty lines after it.
pub open spec fn spec_content_lines(
    s: Seq<char>,
    q: int,
    w: nat,
    folded: bool,
    out: Seq<char>,
    pending: nat,
    have_text: bool,
    last_spaced: bool,
) -> ContentLines
    decreases s.len() - q,
{
    let stop = ContentLines { out, pos: q, pending, have_text, ended: true };
    match spec_line_empty(s, q, w, Context::BlockIn) {
        Some(r) => if q < r <= s.len() {
            spec_content_lines(s, r, w, folded, out, pending + 1, have_text, last_spaced)
        } else {
            stop
        },
        None => match spec_text_line(s, q, w) {
            Some((a, b)) => {
                let spaced = is_white_at(s, a);
                let next = out + line_joint(pending, have_text, folded, last_spaced, spaced)
                    + s.subrange(a, b);
                match spec_line_break(s, b) {
                    Some(r) => if q < r <= s.len() {
                        spec_content_lines(s, r, w, folded, next, 0, true, spaced)
                    } else {
                        stop
                    },
                    None => ContentLines {
                        out: next,
                        pos: b,
                        pending: 0,
                        have_text: true,
                        ended: b == s.len(),
                    },
                }
            },
            None => stop,
        },
    }
}

/// Reading more lines of block scalar content only adds to the text read so far.
proof fn lemma_content_lines_extend(
    s: Seq<char>,
    q: int,
    w: nat,
    folded: bool,
    out: Seq<char>,
    pending: nat,
    have_text: bool,
    last_spaced: bool,
)
    ensures
        out.is_prefix_of(spec_content_lines(s, q, w, folded, out, pending, have_text, last_spaced).out),
    decreases s.len() - q,
{
    let r = spec_content_lines(s, q, w, folded, out, pending, have_text, last_spaced).out;
    match spec_line_empty(s, q, w, Context::BlockIn) {
        Some(e) => if q < e <= s.len() {
            lemma_content_lines_extend(s, e, w, folded, out, pending + 1, have_text, last_spaced);
        },
        None => match spec_text_line(s, q, w) {
            Some((a, b)) => {
                let spaced = is_white_at(s, a);
                let next = out + line_joint(pending, have_text, folded, last_spaced, spaced)
                    + s.subrange(a, b);
                assert(next.subrange(0, out.len() as int) =~= out);
                match spec_line_break(s, b) {
                    Some(e) => if q < e <= s.len() {
                        lemma_content_lines_extend(s, e, w, folded, next, 0, true, spaced);
                        assert(r.subrange(0, out.len() as int) =~= r.subrange(
                            0,
                            next.len() as int,
                        ).subrange(0, out.len() as int));
                    },
                    None => {},
                }
            },
            None => {},
        },
    }
}

/// In a folded block scalar, the `pending` empty lines between two text lines that do not start
/// with white space read as exactly `pending` line feeds, or as a single space when there are
/// none: once text has been read and the next text line (at `a..b`) starts with neither a space
/// nor a tab, the content goes on with that separator and then that line's text.
pub proof fn lemma_folded_lines_join(
    s: Seq<char>,
    q: int,
    w: nat,
    out: Seq<char>,
    pending: nat,
    a: int,
    b: int,
)
    requires
        spec_line_empty(s, q, w, Context::BlockIn) is None,
        spec_text_line(s, q, w) == Some((a, b)),
        !is_white_at(s, a),
    ensures
        (out + crate::parse::scalar::folded_break(pending) + s.subrange(a, b)).is_prefix_of(
            spec_content_lines(s, q, w, true, out, pending, true, false).out,
        ),
{
    let next = out + line_joint(pending, true, true, false, false) + s.subrange(a, b);
    assert(line_joint(pending, true, true, false, false) =~= crate::parse::scalar::folded_break(
        pending,
    ));
    let r = spec_content_lines(s, q, w, true, out, pending, true, false).out;
    match spec_line_break(s, b) {
        Some(e) => if q < e <= s.len() {
            lemma_content_lines_extend(s, e, w, true, next, 0, true, false);
        } else {
            lemma_non_break_end_from(s, a);
        },
        None => {},
    }
}

/// Lines holding nothing but their line feeds are empty lines of block scalar content: reading
/// `k` of them only adds `k` to the empty lines not yet placed.
proof fn lemma_content_bare_lines(
    s: Seq<char>,
    q: int,
    k: nat,
    w: nat,
    folded: bool,
    out: Seq<char>,
    pending: nat,
    have_text: bool,
    last_spaced: bool,
)
    requires
        0 <= q,
        q + k <= s.len(),
        forall|i: int| q <= i < q + k ==> s[i] == '\n',
    ensures
        spec_content_lines(s, q, w, folded, out, pending, have_text, last_spaced)
            == spec_content_lines(s, q + k, w, folded, out, pending + k, have_text, last_spaced),
    decreases k,
{
    if k > 0 {
        crate::parse::spaces::lemma_bare_line_is_empty(s, q, w, Context::BlockIn);
        lemma_content_bare_lines(
            s,
            q + 1,
            (k - 1) as nat,
            w,
            folded,
            out,
            pending + 1,
            have_text,
            last_spaced,
        );
    }
}

/// In a folded block scalar, a text line that does not start with white space, then `k` lines
/// holding nothing but their line feeds, then another such text line (at `a..b`): the content
/// holds the first line's text, then exactly `k` line feeds (a single space when `k` is zero),
/// then the second line's text.
pub proof fn lemma_folded_empty_lines(
    s: Seq<char>,
    q: int,
    k: nat,
    w: nat,
    out: Seq<char>,
    a: int,
    b: int,
)
    requires
        0 <= q,
        q + k <= s.len(),
        forall|i: int| q <= i < q + k ==> s[i] == '\n',
        spec_line_empty(s, q + k, w, Context::BlockIn) is None,
        spec_text_line(s, q + k, w) == Some((a, b)),
        !is_white_at(s, a),
    ensures
        (out + crate::parse::scalar::folded_break(k) + s.subrange(a, b)).is_prefix_of(
            spec_content_lines(s, q, w, true, out, 0, true, false).out,
        ),
{
    lemma_content_bare_lines(s, q, k, w, true, out, 0, true, false);
    lemma_folded_lines_join(s, q + k, w, out, k, a, b);
}

proof fn lemma_non_break_end_from(s: Seq<char>, a: int)
    ensures
        a <= non_break_end(s, a),
    decreases s.len() - a,
{
    if 0 <= a < s.len() && spec_non_break(s[a]) {
        lemma_non_break_end_from(s, a + 1);
    }
}

/// The content of a literal or folded block scalar indented `w` at `p`: its text, with line
/// breaks kept or folded and then chomped, and the position after its trailing empty lines and
/// comments. `None` when a text line ends in something other than a line break.
pub open spec fn spec_block_scalar_content(
    s: Seq<char>,
    p: int,
    w: nat,
    folded: bool,
    chomping: ChompingMode,
) -> Option<(Seq<char>, int)> {
    let lines = spec_content_lines(s, p, w, folded, Seq::empty(), 0, false, false);
    if lines.have_text && !lines.ended {
        None
    } else {
        let out = if lines.have_text && chomping != ChompingMode::Strip {
            lines.out.push('\n')
        } else {
            lines.out
        };
        let k = (space_end(s, lines.pos) - lines.pos) as nat;
        let last_blank = 1 <= k <= w && lines.pos + k == s.len();
        let (text, q) = if chomping == ChompingMode::Keep {
            if last_blank {
                (out + feeds(lines.pending + 1), lines.pos + k)
            } else {
                (out + feeds(lines.pending), lines.pos)
            }
        } else {
            (out, lines.pos)
        };
        Some((text, spec_trail_comments(s, q, w)))
    }
}

/// The content of a literal (`folded == false`) or folded block scalar indented `w`, from the
/// start of its first line: the text with line breaks kept or folded and chomped, and the
/// position after its trailing empty lines and comments.
pub fn block_scalar_content(
    t: &Text,
    p: usize,
    w: IndentLevel,
    folded: bool,
    chomping: ChompingMode,
) -> (r: Option<(String, usize)>)
    requires
        p <= t.view().len(),
    ensures
        match r {
            Some((text, q)) => spec_block_scalar_content(
                t.view(),
                p as int,
                w.spec_get(),
                folded,
                chomping,
            ) == Some((text@, q as int)),
            None => spec_block_scalar_content(
                t.view(),
                p as int,
                w.spec_get(),
                folded,
                chomping,
            ) is None,
        },
        r matches Some((_, q)) ==> p <= q <= t.view().len(),
{
    let ghost s = t.view();
    let ghost wn = w.spec_get();
    let ghost lines = spec_content_lines(s, p as int, wn, folded, Seq::empty(), 0, false, false);
    let mut out = String::new();
    let mut q = p;
    let mut pending: usize = 0;
    let mut have_text = false;
    let mut last_spaced = false;
    let mut ended = true;
    loop
        invariant_except_break
            ended,
            lines == spec_content_lines(s, q as int, wn, folded, out@, pending as nat, have_text, last_spaced),
        invariant
            p <= q <= t.view().len(),
            pending <= q - p,
            s == t.view(),
            wn == w.spec_get(),
        ensures
            lines == (ContentLines {
                out: out@,
                pos: q as int,
                pending: pending as nat,
                have_text,
                ended,
            }),
            p <= q <= t.view().len(),
            s == t.view(),
            wn == w.spec_get(),
        decreases t.view().len() - q,
    {
        match line_empty(t, q, w, Context::BlockIn) {
            Some(r) => {
                pending = pending + 1;
                q = r;
                continue ;
            },
            None => {},
        }
        match text_line(t, q, w) {
            Some((a, b)) => {
                let spaced = t.is(a, ' ') || t.is(a, '\t');
                let ghost joint = line_joint(pending as nat, have_text, folded, last_spaced, spaced);
                let ghost before = out@;
                if !have_text {
                    push_feeds(&mut out, pending);
                } else if folded && !last_spaced && !spaced {
                    push_fold(&mut out, pending);
                } else {
                    push_feeds(&mut out, pending + 1);
                }
                assert(out@ == before + joint);
                push_text(&mut out, t, a, b);
                have_text = true;
                last_spaced = spaced;
                pending = 0;
                match line_break(t, b) {
                    Some(r) => {
                        q = r;
                    },
                    None => {
                        q = b;
                        ended = b == t.len();
                        break ;
                    },
                }
            },
            None => break ,
        }
    }
    if have_text {
        if !ended {
            return None;
        }
        match chomping {
            ChompingMode::Strip => {},
            _ => push_char(&mut out, '\n'),
        }
    }
    if chomping == ChompingMode::Keep {
        // A last line of at most the indentation's spaces, ended by the end of the text rather
        // than a line break, is one more trailing empty line.
        proof {
            lemma_space_end_bounds(s, q as int);
        }
        let k = count_spaces(t, q, t.len() - q);
        if k >= 1 && k <= w.get() && q + k == t.len() {
            pending = pending + 1;
            q = q + k;
        }
        push_feeds(&mut out, pending);
    }
    let e = trail_comments(t, q, w);
    Some((out, e))
}

/// The text of a literal (`folded == false`) or folded block scalar at `p`, below a parent at
/// `level` (its width plus one, zero for the initial level), and the position after it: the
/// indicator, the header, then the content at the explicit or the detected indentation.
#[verifier::opaque]
pub open spec fn spec_block_scalar_body(s: Seq<char>, p: int, level: nat, folded: bool) -> Option<
    (Seq<char>, int),
> {
    let indicator = if folded {
        '>'
    } else {
        '|'
    };
    if !(0 <= p < s.len() && s[p] == indicator) {
        None
    } else {
        match spec_block_header(s, p + 1) {
            None => None,
            Some((explicit, chomping, q)) => {
                let width: Option<nat> = match explicit {
                    Some(m) => if level + m <= usize::MAX {
                        Some((level + m - 1) as nat)
                    } else {
                        None
                    },
                    None => match detected_content_width(spec_detected(s, q, level, 0), level) {
                        Some(v) => if v < usize::MAX {
                            Some(v)
                        } else {
                            None
                        },
                        None => None,
                    },
                };
                match width {
                    Some(w) => spec_block_scalar_content(s, q, w, folded, chomping),
                    None => None,
                }
            },
        }
    }
}

/// `c-l+literal(n)` (`folded == false`) or `c-l+folded(n)`: the indicator, the header, and the
/// content.
pub fn block_scalar_body(t: &Text, p: usize, level: IndentLevel, folded: bool) -> (r: Option<
    (Content, usize),
>)
    requires
        p <= t.view().len(),
    ensures
        match r {
            Some((c, q)) => {
                &&& c == (if folded {
                    Content::Scalar(Scalar::Folded(c->Scalar_0->Folded_0))
                } else {
                    Content::Scalar(Scalar::Literal(c->Scalar_0->Literal_0))
                })
                &&& spec_block_scalar_body(t.view(), p as int, level.spec_level() as nat, folded)
                    == Some((c@->Scalar_1, q as int))
            },
            None => spec_block_scalar_body(t.view(), p as int, level.spec_level() as nat, folded)
                is None,
        },
        r matches Some((_, q)) ==> p < q <= t.view().len(),
        r matches Some((c, _)) ==> c is Scalar && content_spans_in(c@, t.view()),
{
    proof {
        reveal(spec_block_scalar_body);
    }
    let indicator = if folded {
        '>'
    } else {
        '|'
    };
    if !t.is(p, indicator) {
        return None;
    }
    let (explicit, chomping, q) = match block_header(t, p + 1) {
        Some(x) => x,
        None => return None,
    };
    let w = match explicit {
        Some(m) => match deeper(level, m) {
            Some(l) => l,
            None => return None,
        },
        None => match detect_indentation(t, q, level) {
            Some(d) => {
                let width = match d.content {
                    Some(k) => k,
                    None => if d.bound >= level.level() {
                        d.bound
                    } else {
                        level.level()
                    },
                };
                if width < usize::MAX {
                    IndentLevel::new(width)
                } else {
                    return None;
                }
            },
            None => return None,
        },
    };
    match block_scalar_content(t, q, w, folded, chomping) {
        Some((s, e)) => {
            let content = if folded {
                Content::Scalar(Scalar::Folded(s))
            } else {
                Content::Scalar(Scalar::Literal(s))
            };
            Some((content, e))
        },
        None => None,
    }
}

// ---------------------------------------------------------------------------------------------
// The block productions, as the grammar reads them
// ---------------------------------------------------------------------------------------------
/// The width of indentation of a level stored as `lvl` (the width plus one, zero for the
/// initial level).
pub open spec fn level_width(lvl: nat) -> nat {
    if lvl == 0 {
        0
    } else {
        (lvl - 1) as nat
    }
}

/// The level block sequence entries of a collection at `lvl` in context `c` are deeper than.
pub open spec fn spec_seq_spaces(lvl: nat, c: Context) -> nat {
    if c == Context::BlockOut {
        level_width(lvl)
    } else {
        lvl
    }
}

/// `-` (or `?`) at `p`, not followed by a non-space character.
pub open spec fn spec_indicator_alone(s: Seq<char>, p: int, ch: char) -> bool {
    &&& 0 <= p < s.len()
    &&& s[p] == ch
    &&& !(p + 1 < s.len() && spec_non_space(s[p + 1]))
}

/// A node found with the anchors, or nothing found with them.
pub open spec fn built_at(built: (Option<NodeV>, Anchors), e: int) -> Parsed<NodeV> {
    Parsed {
        found: match built.0 {
            Some(node) => Some((node, e)),
            None => None,
        },
        anchors: built.1,
    }
}

/// `s-l+block-scalar(n,c)` at `p` below a parent at `lvl`: separation, optional properties
/// (with separation after them), and a literal or else a folded scalar.
#[verifier::opaque]
pub open spec fn spec_block_scalar(
    s: Seq<char>,
    p: int,
    lvl: nat,
    c: Context,
    a: Anchors,
    h: Handles,
) -> Parsed<NodeV> {
    if lvl + 1 > usize::MAX {
        no_match(a)
    } else {
        match spec_separate(s, p, lvl, c) {
            None => no_match(a),
            Some(x) => {
                let (props, b) = match spec_properties_up_to(s, x, lvl, c, true) {
                    Some((pr, q)) => match spec_separate(s, q, lvl, c) {
                        Some(b) => (Some(pr), b),
                        None => (None, x),
                    },
                    None => (None, x),
                };
                let body = match spec_block_scalar_body(s, b, lvl, false) {
                    Some((text, e)) => Some((ContentV::Scalar(ScalarStyle::Literal, text), e)),
                    None => match spec_block_scalar_body(s, b, lvl, true) {
                        Some((text, e)) => Some((ContentV::Scalar(ScalarStyle::Folded, text), e)),
                        None => None,
                    },
                };
                match body {
                    None => no_match(a),
                    Some((ct, e)) => built_at(spec_build_node(s, x, e, props, ct, a, h), e),
                }
            },
        }
    }
}

/// `c-l-block-seq-entry(n)` at `p`: `-` alone, then a block-indented node.
#[verifier::opaque]
pub open spec fn spec_block_seq_entry(s: Seq<char>, p: int, lvl: nat, a: Anchors, h: Handles) -> Parsed<
    NodeV,
>
    decreases s.len() - p, 1nat,
{
    if !spec_indicator_alone(s, p, '-') {
        no_match(a)
    } else {
        spec_block_indented(s, p + 1, lvl, Context::BlockIn, a, h)
    }
}

/// Sequence entries from `q` on, each after the indentation of `lvl`, following `items`: the
/// entries and where they end (all of them found, possibly none).
#[verifier::opaque]
pub open spec fn spec_seq_items_from(
    s: Seq<char>,
    q: int,
    lvl: nat,
    a: Anchors,
    h: Handles,
    items: Seq<NodeV>,
) -> Parsed<Seq<NodeV>>
    decreases s.len() - q, 2nat,
{
    let stop = Parsed { found: Some((items, q)), anchors: a };
    match spec_indent(s, q, level_width(lvl)) {
        None => stop,
        Some(x) => if q <= x <= s.len() {
            let entry = spec_block_seq_entry(s, x, lvl, a, h);
            match entry.found {
                Some((node, e)) => if q < e <= s.len() {
                    spec_seq_items_from(s, e, lvl, entry.anchors, h, items.push(node))
                } else {
                    no_match(entry.anchors)
                },
                None => Parsed { found: Some((items, q)), anchors: entry.anchors },
            }
        } else {
            stop
        },
    }
}

/// Items found, unless there are none.
pub open spec fn nonempty<X>(items: Parsed<Seq<X>>) -> Parsed<Seq<X>> {
    match items.found {
        Some((v, e)) => if v.len() == 0 {
            no_match(items.anchors)
        } else {
            items
        },
        None => items,
    }
}

/// The width of the indentation at `p` that a block collection below `lvl` detects: all the
/// spaces there, if they are deeper than `lvl`'s width.
pub open spec fn detected_width(s: Seq<char>, p: int, lvl: nat) -> Option<nat> {
    let k = (space_end(s, p) - p) as nat;
    if lvl + 1 > usize::MAX || k < lvl || k >= usize::MAX - 1 {
        None
    } else {
        Some(k)
    }
}

/// `l+block-sequence(n)` at `p` below `lvl`: entries at one detected indentation deeper.
#[verifier::opaque]
pub open spec fn spec_block_sequence(s: Seq<char>, p: int, lvl: nat, a: Anchors, h: Handles) -> Parsed<
    Seq<NodeV>,
>
    decreases s.len() - p, 3nat,
{
    match detected_width(s, p, lvl) {
        None => no_match(a),
        Some(k) => nonempty(spec_seq_items_from(s, p, k + 1, a, h, Seq::empty())),
    }
}

/// `ns-l-compact-sequence(n)` at `p`: an entry, then entries each after the indentation.
#[verifier::opaque]
pub open spec fn spec_compact_sequence(s: Seq<char>, p: int, lvl: nat, a: Anchors, h: Handles) -> Parsed<
    Seq<NodeV>,
>
    decreases s.len() - p, 3nat,
{
    let first = spec_block_seq_entry(s, p, lvl, a, h);
    match first.found {
        None => no_match(first.anchors),
        Some((node, e)) => if p < e <= s.len() {
            spec_seq_items_from(s, e, lvl, first.anchors, h, seq![node])
        } else {
            no_match(first.anchors)
        },
    }
}

/// `c-l-block-map-implicit-value(n)` at `p`: `:`, then a block node, or else an empty node and
/// comments.
#[verifier::opaque]
pub open spec fn spec_implicit_value(s: Seq<char>, p: int, lvl: nat, a: Anchors, h: Handles) -> Parsed<
    NodeV,
>
    decreases s.len() - p, 1nat,
{
    if !(0 <= p < s.len() && s[p] == ':') {
        no_match(a)
    } else {
        let bn = spec_block_node(s, p + 1, lvl, Context::BlockOut, a, h);
        match bn.found {
            Some(_) => bn,
            None => Parsed {
                found: match spec_line_comments(s, p + 1) {
                    Some(e) => Some((bare_node(s, p + 1, p + 1, ContentV::Empty), e)),
                    None => None,
                },
                anchors: bn.anchors,
            },
        }
    }
}

/// `c-l-block-map-explicit-entry(n)` at `p`: `?` alone and a block-indented key, then `:` at
/// the indentation and a block-indented value, or else an empty value.
#[verifier::opaque]
pub open spec fn spec_explicit_map_entry(
    s: Seq<char>,
    p: int,
    lvl: nat,
    a: Anchors,
    h: Handles,
) -> Parsed<(NodeV, NodeV)>
    decreases s.len() - p, 1nat,
{
    if !spec_indicator_alone(s, p, '?') {
        no_match(a)
    } else {
        let key = spec_block_indented(s, p + 1, lvl, Context::BlockOut, a, h);
        match key.found {
            None => no_match(key.anchors),
            Some((k, q)) => {
                let value = match spec_indent(s, q, level_width(lvl)) {
                    Some(x) => if 0 <= x < s.len() && s[x] == ':' && p < x + 1 <= s.len() {
                        Some(spec_block_indented(s, x + 1, lvl, Context::BlockOut, key.anchors, h))
                    } else {
                        None
                    },
                    None => None,
                };
                match value {
                    Some(v) => entry_or_empty_value(s, k, q, v),
                    None => entry_or_empty_value(s, k, q, no_match(key.anchors)),
                }
            },
        }
    }
}

/// `ns-l-block-map-implicit-entry(n)` at `p`: a JSON-like key, else a YAML key, else an empty
/// key, then an implicit value.
#[verifier::opaque]
pub open spec fn spec_implicit_map_entry(
    s: Seq<char>,
    p: int,
    lvl: nat,
    a: Anchors,
    h: Handles,
) -> Parsed<(NodeV, NodeV)>
    decreases s.len() - p, 2nat,
{
    let jk = spec_implicit_json_key(s, p, Context::BlockKey, a, h);
    let key = match jk.found {
        Some(_) => jk,
        None => spec_implicit_yaml_key(s, p, Context::BlockKey, jk.anchors, h),
    };
    let (k, q) = match key.found {
        Some((k, q)) => (k, q),
        None => (bare_node(s, p, p, ContentV::Empty), p),
    };
    if p <= q <= s.len() {
        entry_with_value(k, spec_implicit_value(s, q, lvl, key.anchors, h))
    } else {
        no_match(key.anchors)
    }
}

/// `ns-l-block-map-entry(n)` at `p`: an explicit entry, else an implicit one.
#[verifier::opaque]
pub open spec fn spec_block_map_entry(s: Seq<char>, p: int, lvl: nat, a: Anchors, h: Handles) -> Parsed<
    (NodeV, NodeV),
>
    decreases s.len() - p, 3nat,
{
    let x = spec_explicit_map_entry(s, p, lvl, a, h);
    match x.found {
        Some(_) => x,
        None => spec_implicit_map_entry(s, p, lvl, x.anchors, h),
    }
}

/// Mapping entries from `q` on, each after the indentation of `lvl`, following `entries`: the
/// entries and where they end (all of them found, possibly none).
#[verifier::opaque]
pub open spec fn spec_map_items_from(
    s: Seq<char>,
    q: int,
    lvl: nat,
    a: Anchors,
    h: Handles,
    entries: Seq<(NodeV, NodeV)>,
) -> Parsed<Seq<(NodeV, NodeV)>>
    decreases s.len() - q, 4nat,
{
    let stop = Parsed { found: Some((entries, q)), anchors: a };
    match spec_indent(s, q, level_width(lvl)) {
        None => stop,
        Some(x) => if q <= x <= s.len() {
            let entry = spec_block_map_entry(s, x, lvl, a, h);
            match entry.found {
                Some((kv, e)) => if q < e <= s.len() {
                    spec_map_items_from(s, e, lvl, entry.anchors, h, entries.push(kv))
                } else {
                    no_match(entry.anchors)
                },
                None => Parsed { found: Some((entries, q)), anchors: entry.anchors },
            }
        } else {
            stop
        },
    }
}

/// `l+block-mapping(n)` at `p` below `lvl`: entries at one detected indentation deeper.
#[verifier::opaque]
pub open spec fn spec_block_mapping(s: Seq<char>, p: int, lvl: nat, a: Anchors, h: Handles) -> Parsed<
    Seq<(NodeV, NodeV)>,
>
    decreases s.len() - p, 5nat,
{
    match detected_width(s, p, lvl) {
        None => no_match(a),
        Some(k) => nonempty(spec_map_items_from(s, p, k + 1, a, h, Seq::empty())),
    }
}

/// `ns-l-compact-mapping(n)` at `p`: an entry, then entries each after the indentation.
#[verifier::opaque]
pub open spec fn spec_compact_mapping(s: Seq<char>, p: int, lvl: nat, a: Anchors, h: Handles) -> Parsed<
    Seq<(NodeV, NodeV)>,
>
    decreases s.len() - p, 5nat,
{
    let first = spec_block_map_entry(s, p, lvl, a, h);
    match first.found {
        None => no_match(first.anchors),
        Some((kv, e)) => if p < e <= s.len() {
            spec_map_items_from(s, e, lvl, first.anchors, h, seq![kv])
        } else {
            no_match(first.anchors)
        },
    }
}

/// Properties at `x` (both, or only the first), then comments to the end of the line: the
/// properties and where the comments end.
pub open spec fn spec_props_then_comments(s: Seq<char>, x: int, n: nat, c: Context, both: bool) -> Option<
    (PropertiesV, int),
> {
    match spec_properties_up_to(s, x, n, c, both) {
        Some((pr, q)) => match spec_line_comments(s, q) {
            Some(e) => Some((pr, e)),
            None => None,
        },
        None => None,
    }
}

/// Properties at `x` alone on the rest of their line: both of them if that fits, or else the
/// first alone.
pub open spec fn spec_props_line(s: Seq<char>, x: int, n: nat, c: Context) -> Option<
    (PropertiesV, int),
> {
    match spec_props_then_comments(s, x, n, c, true) {
        Some(r) => Some(r),
        None => spec_props_then_comments(s, x, n, c, false),
    }
}

/// The content of a block collection at `b` below `lvl` in context `c`: a block sequence, or
/// else a block mapping.
#[verifier::opaque]
pub open spec fn spec_collection_content(
    s: Seq<char>,
    b: int,
    lvl: nat,
    c: Context,
    a: Anchors,
    h: Handles,
) -> Parsed<ContentV>
    decreases s.len() - b, 6nat,
{
    let sq = spec_block_sequence(s, b, spec_seq_spaces(lvl, c), a, h);
    match sq.found {
        Some((items, e)) => Parsed { found: Some((ContentV::Sequence(items), e)), anchors: sq.anchors },
        None => {
            let mp = spec_block_mapping(s, b, lvl, sq.anchors, h);
            match mp.found {
                Some((kvs, e)) => Parsed {
                    found: Some((ContentV::Mapping(kvs), e)),
                    anchors: mp.anchors,
                },
                None => no_match(mp.anchors),
            }
        },
    }
}

/// `s-l+block-collection(n,c)` at `p` below `lvl`: separated properties alone on their line,
/// or else comments, then a block sequence or else a block mapping.
#[verifier::opaque]
pub open spec fn spec_block_collection(
    s: Seq<char>,
    p: int,
    lvl: nat,
    c: Context,
    a: Anchors,
    h: Handles,
) -> Parsed<NodeV>
    decreases s.len() - p, 7nat,
{
    if lvl + 1 > usize::MAX {
        no_match(a)
    } else {
        let props = match spec_separate(s, p, lvl, c) {
            Some(x) => match spec_props_line(s, x, lvl, c) {
                Some((pr, e)) => Some((pr, x, e)),
                None => None,
            },
            None => None,
        };
        let b = match props {
            Some((_, _, e)) => Some(e),
            None => spec_line_comments(s, p),
        };
        match b {
            None => no_match(a),
            Some(b) => if p <= b <= s.len() {
                let content = spec_collection_content(s, b, lvl, c, a, h);
                match content.found {
                    None => no_match(content.anchors),
                    Some((ct, e)) => match props {
                        Some((pr, x, _)) => built_at(
                            spec_build_node(s, x, e, Some(pr), ct, content.anchors, h),
                            e,
                        ),
                        None => built_at(spec_build_node(s, b, e, None, ct, content.anchors, h), e),
                    },
                }
            } else {
                no_match(a)
            },
        }
    }
}

/// `s-l+flow-in-block(n)` at `p` below `lvl`: a separated flow node one level deeper, in the
/// flow-out context, then comments.
#[verifier::opaque]
pub open spec fn spec_flow_in_block(s: Seq<char>, p: int, lvl: nat, a: Anchors, h: Handles) -> Parsed<
    NodeV,
> {
    if lvl + 1 > usize::MAX {
        no_match(a)
    } else {
        match spec_separate(s, p, lvl, Context::FlowOut) {
            None => no_match(a),
            Some(x) => {
                let fnode = spec_flow_node(s, x, lvl, Context::FlowOut, a, h);
                match fnode.found {
                    None => no_match(fnode.anchors),
                    Some((node, q)) => Parsed {
                        found: match spec_line_comments(s, q) {
                            Some(e) => Some((node, e)),
                            None => None,
                        },
                        anchors: fnode.anchors,
                    },
                }
            },
        }
    }
}

/// `s-l+block-in-block(n,c)` at `p` below `lvl`: a block scalar, else a block collection.
#[verifier::opaque]
pub open spec fn spec_block_in_block(
    s: Seq<char>,
    p: int,
    lvl: nat,
    c: Context,
    a: Anchors,
    h: Handles,
) -> Parsed<NodeV>
    decreases s.len() - p, 8nat,
{
    let sc = spec_block_scalar(s, p, lvl, c, a, h);
    if sc.found is Some {
        sc
    } else {
        spec_block_collection(s, p, lvl, c, sc.anchors, h)
    }
}

/// `s-l+block-node(n,c)` at `p` below `lvl`: a block in block, else a flow node.
#[verifier::opaque]
pub open spec fn spec_block_node(
    s: Seq<char>,
    p: int,
    lvl: nat,
    c: Context,
    a: Anchors,
    h: Handles,
) -> Parsed<NodeV>
    decreases s.len() - p, 9nat,
{
    let b = spec_block_in_block(s, p, lvl, c, a, h);
    if b.found is Some {
        b
    } else {
        spec_flow_in_block(s, p, lvl, b.anchors, h)
    }
}

/// `s-l+block-indented(n,c)` at `p` below `lvl`: after some spaces, a compact sequence or
/// mapping one level deeper than those spaces; else a block node; else an empty node and
/// comments.
#[verifier::opaque]
pub open spec fn spec_block_indented(
    s: Seq<char>,
    p: int,
    lvl: nat,
    c: Context,
    a: Anchors,
    h: Handles,
) -> Parsed<NodeV>
    decreases s.len() - p, 10nat,
{
    let x = space_end(s, p);
    let m = (x - p) as nat;
    let compact: Parsed<NodeV> = if lvl + m + 1 <= usize::MAX && p <= x <= s.len() {
        let cs = spec_compact_sequence(s, x, lvl + m + 1, a, h);
        match cs.found {
            Some((items, e)) => Parsed {
                found: Some((bare_node(s, x, e, ContentV::Sequence(items)), e)),
                anchors: cs.anchors,
            },
            None => {
                let cm = spec_compact_mapping(s, x, lvl + m + 1, cs.anchors, h);
                match cm.found {
                    Some((kvs, e)) => Parsed {
                        found: Some((bare_node(s, x, e, ContentV::Mapping(kvs)), e)),
                        anchors: cm.anchors,
                    },
                    None => no_match(cm.anchors),
                }
            },
        }
    } else {
        no_match(a)
    };
    if compact.found is Some {
        compact
    } else {
        let bn = spec_block_node(s, p, lvl, c, compact.anchors, h);
        match bn.found {
            Some(_) => bn,
            None => Parsed {
                found: match spec_line_comments(s, p) {
                    Some(e) => Some((bare_node(s, p, p, ContentV::Empty), e)),
                    None => None,
                },
                anchors: bn.anchors,
            },
        }
    }
}

/// `s-l+block-scalar(n,c)`: separation, optional properties, and a literal or folded scalar.
pub fn block_scalar(
    t: &Text,
    st: &mut ParseState,
    p: usize,
    level: IndentLevel,
    c: Context,
) -> (r: Option<(Node, usize)>)
    requires
        p <= t.view().len(),
        old(st).anchors_within(t.view()),
    ensures
        final(st).anchors_within(t.view()),
        final(st).tag_handles == old(st).tag_handles,
        spec_block_scalar(t.view(), p as int, level.spec_level() as nat, c, old(st).anchors@, old(st).tag_handles@) == (Parsed {
            found: node_at(r),
            anchors: final(st).anchors@,
        }),
        r matches Some((n, _)) ==> spans_in(n@, t.view()),
        r matches Some((_, q)) ==> p < q <= t.view().len(),
{
    proof {
        reveal(spec_block_scalar);
    }
    let inner = match deeper(level, 1) {
        Some(l) => l,
        None => return None,
    };
    let s = match separate(t, p, inner, c) {
        Some(s) => s,
        None => return None,
    };
    let (props, b) = match properties(t, s, inner, c) {
        Some((props, q)) => match separate(t, q, inner, c) {
            Some(b) => (Some(props), b),
            None => (None, s),
        },
        None => (None, s),
    };
    let (content, e) = match block_scalar_body(t, b, level, false) {
        Some(x) => x,
        None => match block_scalar_body(t, b, level, true) {
            Some(x) => x,
            None => return None,
        },
    };
    match build_node(t, st, s, e, props, content) {
        Some(n) => Some((n, e)),
        None => None,
    }
}

// ---------------------------------------------------------------------------------------------
// Block collections
// ---------------------------------------------------------------------------------------------
/// `-` (or `?`) not followed by a non-space character.
fn indicator_alone(t: &Text, p: usize, c: char) -> (r: bool)
    requires
        p <= t.view().len(),
    ensures
        r == spec_indicator_alone(t.view(), p as int, c),
        r ==> p < t.view().len(),
        t.view().len() < usize::MAX,
{
    if !t.is(p, c) {
        return false;
    }
    match t.peek(p + 1) {
        Some(n) => !is_non_space(n),
        None => true,
    }
}

/// `c-l-block-seq-entry(n)`: `-`, then a block-indented node.
pub fn block_seq_entry(t: &Text, st: &mut ParseState, p: usize, level: IndentLevel) -> (r: Option<
    (Node, usize),
>)
    requires
        p <= t.view().len(),
        old(st).anchors_within(t.view()),
    ensures
        final(st).anchors_within(t.view()),
        final(st).tag_handles == old(st).tag_handles,
        spec_block_seq_entry(t.view(), p as int, level.spec_level() as nat, old(st).anchors@, old(st).tag_handles@) == (Parsed {
            found: node_at(r),
            anchors: final(st).anchors@,
        }),
        r matches Some((n, _)) ==> spans_in(n@, t.view()),
        r matches Some((_, q)) ==> p < q <= t.view().len(),
    decreases t.view().len() - p, 1nat,
{
    proof {
        reveal_with_fuel(spec_block_seq_entry, 1);
        reveal_with_fuel(spec_block_indented, 1);
    }
    if !indicator_alone(t, p, '-') {
        return None;
    }
    block_indented(t, st, p + 1, level, Context::BlockIn)
}

/// Block sequence entries from `q` on, each after the indentation of `level`, appended to
/// `items`: all the items, and where the last entry ends (`q` when there is none).
fn seq_items(t: &Text, st: &mut ParseState, from: usize, level: IndentLevel, items: Vec<Node>) -> (r: (
    Vec<Node>,
    usize,
))
    requires
        from <= t.view().len(),
        old(st).anchors_within(t.view()),
        nodes_within(items@, t.view()),
    ensures
        final(st).anchors_within(t.view()),
        final(st).tag_handles == old(st).tag_handles,
        spec_seq_items_from(
            t.view(),
            from as int,
            level.spec_level() as nat,
            old(st).anchors@,
            old(st).tag_handles@,
            nodes_view(items@),
        ) == (Parsed { found: Some((nodes_view(r.0@), r.1 as int)), anchors: final(st).anchors@ }),
        nodes_within(r.0@, t.view()),
        from <= r.1 <= t.view().len(),
        r.1 == from <==> r.0@.len() == items@.len(),
    decreases t.view().len() - from, 2nat,
{
    let ghost goal = spec_seq_items_from(
        t.view(),
        from as int,
        level.spec_level() as nat,
        st.anchors@,
        st.tag_handles@,
        nodes_view(items@),
    );
    let ghost start = from;
    let ghost init = nodes_view(items@);
    let ghost before_all = items@.len();
    let mut items = items;
    let mut q = from;
    loop
        invariant_except_break
            goal == spec_seq_items_from(
                t.view(),
                q as int,
                level.spec_level() as nat,
                st.anchors@,
                old(st).tag_handles@,
                nodes_view(items@),
            ),
        invariant
            from <= q <= t.view().len(),
            start == from,
            q == start <==> items@.len() == before_all,
            items@.len() >= before_all,
            st.anchors_within(t.view()),
            st.tag_handles == old(st).tag_handles,
            nodes_within(items@, t.view()),
            goal == spec_seq_items_from(
                t.view(),
                start as int,
                level.spec_level() as nat,
                old(st).anchors@,
                old(st).tag_handles@,
                init,
            ),
        ensures
            start <= q <= t.view().len(),
            q == start <==> items@.len() == before_all,
            st.anchors_within(t.view()),
            st.tag_handles == old(st).tag_handles,
            nodes_within(items@, t.view()),
            goal == (Parsed { found: Some((nodes_view(items@), q as int)), anchors: st.anchors@ }),
        decreases t.view().len() - q,
    {
        proof {
            reveal_with_fuel(spec_seq_items_from, 1);
            reveal_with_fuel(spec_block_seq_entry, 1);
        }
        let a = match indent(t, q, level) {
            Some(a) => a,
            None => break ,
        };
        match block_seq_entry(t, st, a, level) {
            Some((node, e)) => {
                let ghost before = items@;
                items.push(node);
                proof {
                    lemma_push_node_within(before, node, t.view());
                    assert(items@.drop_last() =~= before);
                    assert(nodes_view(items@) == nodes_view(before).push(node@));
                }
                q = e;
            },
            None => break ,
        }
    }
    (items, q)
}

/// Block mapping entries from `q` on, each after the indentation of `level`, appended to
/// `entries`: all the entries, and where the last one ends (`q` when there is none).
fn map_items(
    t: &Text,
    st: &mut ParseState,
    from: usize,
    level: IndentLevel,
    entries: Vec<MapEntry>,
) -> (r: (Vec<MapEntry>, usize))
    requires
        from <= t.view().len(),
        old(st).anchors_within(t.view()),
        entries_within(entries@, t.view()),
    ensures
        final(st).anchors_within(t.view()),
        final(st).tag_handles == old(st).tag_handles,
        spec_map_items_from(
            t.view(),
            from as int,
            level.spec_level() as nat,
            old(st).anchors@,
            old(st).tag_handles@,
            entries_view(entries@),
        ) == (Parsed {
            found: Some((entries_view(r.0@), r.1 as int)),
            anchors: final(st).anchors@,
        }),
        entries_within(r.0@, t.view()),
        from <= r.1 <= t.view().len(),
        r.1 == from <==> r.0@.len() == entries@.len(),
    decreases t.view().len() - from, 4nat,
{
    let ghost goal = spec_map_items_from(
        t.view(),
        from as int,
        level.spec_level() as nat,
        st.anchors@,
        st.tag_handles@,
        entries_view(entries@),
    );
    let ghost start = from;
    let ghost init = entries_view(entries@);
    let ghost before_all = entries@.len();
    let mut entries = entries;
    let mut q = from;
    loop
        invariant_except_break
            goal == spec_map_items_from(
                t.view(),
                q as int,
                level.spec_level() as nat,
                st.anchors@,
                old(st).tag_handles@,
                entries_view(entries@),
            ),
        invariant
            from <= q <= t.view().len(),
            start == from,
            q == start <==> entries@.len() == before_all,
            entries@.len() >= before_all,
            st.anchors_within(t.view()),
            st.tag_handles == old(st).tag_handles,
            entries_within(entries@, t.view()),
            goal == spec_map_items_from(
                t.view(),
                start as int,
                level.spec_level() as nat,
                old(st).anchors@,
                old(st).tag_handles@,
                init,
            ),
        ensures
            start <= q <= t.view().len(),
            q == start <==> entries@.len() == before_all,
            st.anchors_within(t.view()),
            st.tag_handles == old(st).tag_handles,
            entries_within(entries@, t.view()),
            goal == (Parsed {
                found: Some((entries_view(entries@), q as int)),
                anchors: st.anchors@,
            }),
        decreases t.view().len() - q,
    {
        proof {
            reveal_with_fuel(spec_map_items_from, 1);
            reveal_with_fuel(spec_block_map_entry, 1);
        }
        let a = match indent(t, q, level) {
            Some(a) => a,
            None => break ,
        };
        match block_map_entry(t, st, a, level) {
            Some((entry, e)) => {
                let ghost before = entries@;
                entries.push(entry);
                proof {
                    lemma_push_entry_within(before, entry, t.view());
                    assert(entries@.drop_last() =~= before);
                    assert(entries_view(entries@) == entries_view(before).push(
                        (entry.key@, entry.value@),
                    ));
                }
                q = e;
            },
            None => break ,
        }
    }
    (entries, q)
}

/// `l+block-sequence(n)`: entries at one detected indentation deeper than `n`.
pub fn block_sequence(t: &Text, st: &mut ParseState, p: usize, level: IndentLevel) -> (r: Option<
    (Vec<Node>, usize),
>)
    requires
        p <= t.view().len(),
        old(st).anchors_within(t.view()),
    ensures
        final(st).anchors_within(t.view()),
        final(st).tag_handles == old(st).tag_handles,
        spec_block_sequence(
            t.view(),
            p as int,
            level.spec_level() as nat,
            old(st).anchors@,
            old(st).tag_handles@,
        ) == (Parsed { found: nodes_at(r), anchors: final(st).anchors@ }),
        r matches Some((v, _)) ==> nodes_within(v@, t.view()),
        r matches Some((_, q)) ==> p < q <= t.view().len(),
    decreases t.view().len() - p, 3nat,
{
    proof {
        reveal_with_fuel(spec_block_sequence, 1);
        lemma_space_end_bounds(t.view(), p as int);
        reveal_with_fuel(spec_seq_items_from, 1);
    }
    let inner = match deeper(level, 1) {
        Some(l) => l,
        None => return None,
    };
    let width = match indent_at_least(t, p, inner) {
        Some((k, _)) => k,
        None => return None,
    };
    if width >= usize::MAX - 1 {
        return None;
    }
    proof {
        lemma_empty_within(t.view());
        assert(nodes_view(Seq::<Node>::empty()) =~= Seq::<NodeV>::empty());
    }
    let (items, q) = seq_items(t, st, p, IndentLevel::new(width), Vec::new());
    proof {
        lemma_nodes_view_len(items@);
    }
    if items.len() == 0 {
        None
    } else {
        Some((items, q))
    }
}

/// `ns-l-compact-sequence(n)`: an entry, then entries each preceded by the indentation.
pub fn compact_sequence(t: &Text, st: &mut ParseState, p: usize, level: IndentLevel) -> (r: Option<
    (Vec<Node>, usize),
>)
    requires
        p <= t.view().len(),
        old(st).anchors_within(t.view()),
    ensures
        final(st).anchors_within(t.view()),
        final(st).tag_handles == old(st).tag_handles,
        spec_compact_sequence(
            t.view(),
            p as int,
            level.spec_level() as nat,
            old(st).anchors@,
            old(st).tag_handles@,
        ) == (Parsed { found: nodes_at(r), anchors: final(st).anchors@ }),
        r matches Some((v, _)) ==> nodes_within(v@, t.view()),
        r matches Some((_, q)) ==> p < q <= t.view().len(),
    decreases t.view().len() - p, 3nat,
{
    proof {
        reveal_with_fuel(spec_compact_sequence, 1);
        reveal_with_fuel(spec_seq_items_from, 1);
        reveal_with_fuel(spec_block_seq_entry, 1);
    }
    let (first, e) = match block_seq_entry(t, st, p, level) {
        Some(x) => x,
        None => return None,
    };
    let mut items: Vec<Node> = Vec::new();
    proof {
        lemma_empty_within(t.view());
    }
    let ghost before = items@;
    items.push(first);
    proof {
        lemma_push_node_within(before, first, t.view());
        assert(items@.drop_last() =~= before);
        assert(nodes_view(before) =~= Seq::<NodeV>::empty());
        assert(nodes_view(items@) =~= seq![first@]);
    }
    let (items, q) = seq_items(t, st, e, level, items);
    Some((items, q))
}

/// `c-l-block-map-explicit-entry(n)`: `?` and a block-indented key, then an explicit value
/// (`:` at the indentation) or an empty one.
fn block_map_explicit_entry(t: &Text, st: &mut ParseState, p: usize, level: IndentLevel) -> (r: Option<
    (MapEntry, usize),
>)
    requires
        p <= t.view().len(),
        old(st).anchors_within(t.view()),
    ensures
        final(st).anchors_within(t.view()),
        final(st).tag_handles == old(st).tag_handles,
        spec_explicit_map_entry(t.view(), p as int, level.spec_level() as nat, old(st).anchors@, old(st).tag_handles@) == (Parsed {
            found: entry_at(r),
            anchors: final(st).anchors@,
        }),
        r matches Some((e, _)) ==> spans_in(e.key@, t.view()) && spans_in(e.value@, t.view()),
        r matches Some((_, q)) ==> p < q <= t.view().len(),
    decreases t.view().len() - p, 1nat,
{
    proof {
        reveal_with_fuel(spec_explicit_map_entry, 1);
        reveal_with_fuel(spec_block_indented, 1);
    }
    if !indicator_alone(t, p, '?') {
        return None;
    }
    let (key, q) = match block_indented(t, st, p + 1, level, Context::BlockOut) {
        Some(x) => x,
        None => return None,
    };
    match indent(t, q, level) {
        Some(a) => if t.is(a, ':') {
            match block_indented(t, st, a + 1, level, Context::BlockOut) {
                Some((value, e)) => return Some((MapEntry { key, value }, e)),
                None => {},
            }
        },
        None => {},
    }
    Some((MapEntry { key, value: empty_node(t, q) }, q))
}

/// `c-l-block-map-implicit-value(n)`: `:`, then a block node, or an empty node and comments.
fn block_map_implicit_value(t: &Text, st: &mut ParseState, p: usize, level: IndentLevel) -> (r: Option<
    (Node, usize),
>)
    requires
        p <= t.view().len(),
        old(st).anchors_within(t.view()),
    ensures
        final(st).anchors_within(t.view()),
        final(st).tag_handles == old(st).tag_handles,
        spec_implicit_value(t.view(), p as int, level.spec_level() as nat, old(st).anchors@, old(st).tag_handles@) == (Parsed {
            found: node_at(r),
            anchors: final(st).anchors@,
        }),
        r matches Some((n, _)) ==> spans_in(n@, t.view()),
        r matches Some((_, q)) ==> p < q <= t.view().len(),
    decreases t.view().len() - p, 1nat,
{
    proof {
        reveal_with_fuel(spec_implicit_value, 1);
        reveal_with_fuel(spec_block_node, 1);
    }
    if !t.is(p, ':') {
        return None;
    }
    match block_node(t, st, p + 1, level, Context::BlockOut) {
        Some(x) => return Some(x),
        None => {},
    }
    match line_comments(t, p + 1) {
        Some(e) => Some((empty_node(t, p + 1), e)),
        None => None,
    }
}

/// `ns-l-block-map-implicit-entry(n)`: an implicit key (or an empty one), then an implicit
/// value.
fn block_map_implicit_entry(t: &Text, st: &mut ParseState, p: usize, level: IndentLevel) -> (r: Option<
    (MapEntry, usize),
>)
    requires
        p <= t.view().len(),
        old(st).anchors_within(t.view()),
    ensures
        final(st).anchors_within(t.view()),
        final(st).tag_handles == old(st).tag_handles,
        spec_implicit_map_entry(t.view(), p as int, level.spec_level() as nat, old(st).anchors@, old(st).tag_handles@) == (Parsed {
            found: entry_at(r),
            anchors: final(st).anchors@,
        }),
        r matches Some((e, _)) ==> spans_in(e.key@, t.view()) && spans_in(e.value@, t.view()),
        r matches Some((_, q)) ==> p < q <= t.view().len(),
    decreases t.view().len() - p, 2nat,
{
    proof {
        reveal_with_fuel(spec_implicit_map_entry, 1);
        reveal_with_fuel(spec_implicit_value, 1);
    }
    let key = match implicit_json_key(t, st, p, Context::BlockKey) {
        Some(x) => Some(x),
        None => implicit_yaml_key(t, st, p, Context::BlockKey),
    };
    let (key, q) = match key {
        Some((k, q)) => (k, q),
        None => (empty_node(t, p), p),
    };
    match block_map_implicit_value(t, st, q, level) {
        Some((value, e)) => Some((MapEntry { key, value }, e)),
        None => None,
    }
}

/// `ns-l-block-map-entry(n)`: an explicit or an implicit entry.
pub fn block_map_entry(t: &Text, st: &mut ParseState, p: usize, level: IndentLevel) -> (r: Option<
    (MapEntry, usize),
>)
    requires
        p <= t.view().len(),
        old(st).anchors_within(t.view()),
    ensures
        final(st).anchors_within(t.view()),
        final(st).tag_handles == old(st).tag_handles,
        spec_block_map_entry(t.view(), p as int, level.spec_level() as nat, old(st).anchors@, old(st).tag_handles@) == (Parsed {
            found: entry_at(r),
            anchors: final(st).anchors@,
        }),
        r matches Some((e, _)) ==> spans_in(e.key@, t.view()) && spans_in(e.value@, t.view()),
        r matches Some((_, q)) ==> p < q <= t.view().len(),
    decreases t.view().len() - p, 3nat,
{
    proof {
        reveal_with_fuel(spec_block_map_entry, 1);
        reveal_with_fuel(spec_explicit_map_entry, 1);
        reveal_with_fuel(spec_implicit_map_entry, 1);
    }
    match block_map_explicit_entry(t, st, p, level) {
        Some(x) => Some(x),
        None => block_map_implicit_entry(t, st, p, level),
    }
}

/// `l+block-mapping(n)`: entries at one detected indentation deeper than `n`.
pub fn block_mapping(t: &Text, st: &mut ParseState, p: usize, level: IndentLevel) -> (r: Option<
    (Vec<MapEntry>, usize),
>)
    requires
        p <= t.view().len(),
        old(st).anchors_within(t.view()),
    ensures
        final(st).anchors_within(t.view()),
        final(st).tag_handles == old(st).tag_handles,
        spec_block_mapping(
            t.view(),
            p as int,
            level.spec_level() as nat,
            old(st).anchors@,
            old(st).tag_handles@,
        ) == (Parsed { found: entries_at(r), anchors: final(st).anchors@ }),
        r matches Some((v, _)) ==> entries_within(v@, t.view()),
        r matches Some((_, q)) ==> p < q <= t.view().len(),
    decreases t.view().len() - p, 5nat,
{
    proof {
        reveal_with_fuel(spec_block_mapping, 1);
        lemma_space_end_bounds(t.view(), p as int);
        reveal_with_fuel(spec_map_items_from, 1);
    }
    let inner = match deeper(level, 1) {
        Some(l) => l,
        None => return None,
    };
    let width = match indent_at_least(t, p, inner) {
        Some((k, _)) => k,
        None => return None,
    };
    if width >= usize::MAX - 1 {
        return None;
    }
    proof {
        lemma_empty_within(t.view());
        assert(entries_view(Seq::<MapEntry>::empty()) =~= Seq::<(NodeV, NodeV)>::empty());
    }
    let (entries, q) = map_items(t, st, p, IndentLevel::new(width), Vec::new());
    proof {
        lemma_entries_view_len(entries@);
    }
    if entries.len() == 0 {
        None
    } else {
        Some((entries, q))
    }
}

/// `ns-l-compact-mapping(n)`: an entry, then entries each preceded by the indentation.
pub fn compact_mapping(t: &Text, st: &mut ParseState, p: usize, level: IndentLevel) -> (r: Option<
    (Vec<MapEntry>, usize),
>)
    requires
        p <= t.view().len(),
        old(st).anchors_within(t.view()),
    ensures
        final(st).anchors_within(t.view()),
        final(st).tag_handles == old(st).tag_handles,
        spec_compact_mapping(
            t.view(),
            p as int,
            level.spec_level() as nat,
            old(st).anchors@,
            old(st).tag_handles@,
        ) == (Parsed { found: entries_at(r), anchors: final(st).anchors@ }),
        r matches Some((v, _)) ==> entries_within(v@, t.view()),
        r matches Some((_, q)) ==> p < q <= t.view().len(),
    decreases t.view().len() - p, 5nat,
{
    proof {
        reveal_with_fuel(spec_compact_mapping, 1);
        reveal_with_fuel(spec_map_items_from, 1);
        reveal_with_fuel(spec_block_map_entry, 1);
    }
    let (first, e) = match block_map_entry(t, st, p, level) {
        Some(x) => x,
        None => return None,
    };
    let mut entries: Vec<MapEntry> = Vec::new();
    proof {
        lemma_empty_within(t.view());
    }
    let ghost before = entries@;
    entries.push(first);
    proof {
        lemma_push_entry_within(before, first, t.view());
        assert(entries@.drop_last() =~= before);
        assert(entries_view(before) =~= Seq::<(NodeV, NodeV)>::empty());
        assert(entries_view(entries@) =~= seq![(first.key@, first.value@)]);
    }
    let (entries, q) = map_items(t, st, e, level, entries);
    Some((entries, q))
}

/// `s-l+block-indented(n,c)`: a compact sequence or mapping after some spaces, a block node,
/// or an empty node and comments.
#[verifier::rlimit(50)]
#[verifier::spinoff_prover]
pub fn block_indented(
    t: &Text,
    st: &mut ParseState,
    p: usize,
    level: IndentLevel,
    c: Context,
) -> (r: Option<(Node, usize)>)
    requires
        p <= t.view().len(),
        old(st).anchors_within(t.view()),
    ensures
        final(st).anchors_within(t.view()),
        final(st).tag_handles == old(st).tag_handles,
        spec_block_indented(t.view(), p as int, level.spec_level() as nat, c, old(st).anchors@, old(st).tag_handles@) == (Parsed {
            found: node_at(r),
            anchors: final(st).anchors@,
        }),
        r matches Some((n, _)) ==> spans_in(n@, t.view()),
        r matches Some((_, q)) ==> p <= q <= t.view().len(),
    decreases t.view().len() - p, 10nat,
{
    proof {
        reveal_with_fuel(spec_block_indented, 1);
        lemma_space_end_bounds(t.view(), p as int);
        reveal_with_fuel(spec_compact_sequence, 1);
        reveal_with_fuel(spec_compact_mapping, 1);
        reveal_with_fuel(spec_block_node, 1);
    }
    let m = count_spaces(t, p, t.len() - p);
    let a = p + m;
    match deeper(level, m + 1) {
        Some(inner) => {
            match compact_sequence(t, st, a, inner) {
                Some((items, e)) => {
                    proof {
                        lemma_sequence_spans(items, t.view());
                    }
                    return Some((
                        crate::parse::flow::plain_node(t, a, e, Content::Sequence(items)),
                        e,
                    ));
                },
                None => {},
            }
            match compact_mapping(t, st, a, inner) {
                Some((entries, e)) => {
                    proof {
                        lemma_mapping_spans(entries, t.view());
                    }
                    return Some((
                        crate::parse::flow::plain_node(
                            t,
                            a,
                            e,
                            Content::Mapping(Mapping(entries)),
                        ),
                        e,
                    ));
                },
                None => {},
            }
        },
        None => {},
    }
    match block_node(t, st, p, level, c) {
        Some(x) => return Some(x),
        None => {},
    }
    match line_comments(t, p) {
        Some(e) => Some((empty_node(t, p), e)),
        None => None,
    }
}

/// The level block sequence entries of a collection at `level` in context `c` are indented
/// deeper than: one less in the block-out context, where a sequence may sit at its key's
/// indentation.
fn seq_spaces(level: IndentLevel, c: Context) -> (r: IndentLevel)
    ensures
        r.spec_level() == spec_seq_spaces(level.spec_level() as nat, c),
{
    match c {
        Context::BlockOut => level.prev(),
        _ => level,
    }
}

/// Properties at `x` (both, or only the first), then comments to the end of their line.
fn props_then_comments(t: &Text, x: usize, level: IndentLevel, c: Context, both: bool) -> (r: Option<
    (Properties, usize),
>)
    requires
        x <= t.view().len(),
    ensures
        props_at(r) == spec_props_then_comments(t.view(), x as int, level.spec_get(), c, both),
        r matches Some((_, e)) ==> x <= e <= t.view().len(),
{
    match properties_up_to(t, x, level, c, both) {
        Some((pr, q)) => match line_comments(t, q) {
            Some(e) => Some((pr, e)),
            None => None,
        },
        None => None,
    }
}

/// Properties at `x` alone on the rest of their line: both of them if that fits, or else the
/// first alone.
fn props_line(t: &Text, x: usize, level: IndentLevel, c: Context) -> (r: Option<
    (Properties, usize),
>)
    requires
        x <= t.view().len(),
    ensures
        props_at(r) == spec_props_line(t.view(), x as int, level.spec_get(), c),
        r matches Some((_, e)) ==> x <= e <= t.view().len(),
{
    match props_then_comments(t, x, level, c, true) {
        Some(r) => Some(r),
        None => props_then_comments(t, x, level, c, false),
    }
}

/// The content of a block collection at `b`: a block sequence, or else a block mapping.
fn collection_content(
    t: &Text,
    st: &mut ParseState,
    b: usize,
    level: IndentLevel,
    c: Context,
) -> (r: Option<(Content, usize)>)
    requires
        b <= t.view().len(),
        old(st).anchors_within(t.view()),
    ensures
        final(st).anchors_within(t.view()),
        final(st).tag_handles == old(st).tag_handles,
        spec_collection_content(
            t.view(),
            b as int,
            level.spec_level() as nat,
            c,
            old(st).anchors@,
            old(st).tag_handles@,
        ) == (Parsed { found: content_at(r), anchors: final(st).anchors@ }),
        r matches Some((ct, _)) ==> content_spans_in(ct@, t.view()),
        r matches Some((_, e)) ==> b < e <= t.view().len(),
    decreases t.view().len() - b, 6nat,
{
    proof {
        reveal_with_fuel(spec_collection_content, 1);
        reveal_with_fuel(spec_block_sequence, 1);
        reveal_with_fuel(spec_block_mapping, 1);
    }
    match block_sequence(t, st, b, seq_spaces(level, c)) {
        Some((items, e)) => {
            proof {
                lemma_sequence_spans(items, t.view());
            }
            Some((Content::Sequence(items), e))
        },
        None => match block_mapping(t, st, b, level) {
            Some((entries, e)) => {
                proof {
                    lemma_mapping_spans(entries, t.view());
                }
                Some((Content::Mapping(Mapping(entries)), e))
            },
            None => None,
        },
    }
}

/// `s-l+block-collection(n,c)`: optional properties, comments, then a block sequence or
/// mapping on the following lines.
#[verifier::rlimit(50)]
pub fn block_collection(
    t: &Text,
    st: &mut ParseState,
    p: usize,
    level: IndentLevel,
    c: Context,
) -> (r: Option<(Node, usize)>)
    requires
        p <= t.view().len(),
        old(st).anchors_within(t.view()),
    ensures
        final(st).anchors_within(t.view()),
        final(st).tag_handles == old(st).tag_handles,
        spec_block_collection(
            t.view(),
            p as int,
            level.spec_level() as nat,
            c,
            old(st).anchors@,
            old(st).tag_handles@,
        ) == (Parsed { found: node_at(r), anchors: final(st).anchors@ }),
        r matches Some((n, _)) ==> spans_in(n@, t.view()),
        r matches Some((_, q)) ==> p < q <= t.view().len(),
    decreases t.view().len() - p, 7nat,
{
    proof {
        reveal_with_fuel(spec_block_collection, 1);
        reveal_with_fuel(spec_collection_content, 1);
    }
    let inner = match deeper(level, 1) {
        Some(l) => l,
        None => return None,
    };
    // Properties only count when the rest of their line holds at most a comment.
    let props = match separate(t, p, inner, c) {
        Some(x) => match props_line(t, x, inner, c) {
            Some((pr, e)) => Some((pr, x, e)),
            None => None,
        },
        None => None,
    };
    let b = match &props {
        Some((_, _, e)) => *e,
        None => match line_comments(t, p) {
            Some(e) => e,
            None => return None,
        },
    };
    let (content, e) = match collection_content(t, st, b, level, c) {
        Some(x) => x,
        None => return None,
    };
    let built = match props {
        Some((pr, x, _)) => build_node(t, st, x, e, Some(pr), content),
        None => build_node(t, st, b, e, None, content),
    };
    match built {
        Some(n) => Some((n, e)),
        None => None,
    }
}

/// `s-l+flow-in-block(n)`: a separated flow node (in the flow-out context, one level deeper),
/// then comments.
pub fn flow_in_block(t: &Text, st: &mut ParseState, p: usize, level: IndentLevel) -> (r: Option<
    (Node, usize),
>)
    requires
        p <= t.view().len(),
        old(st).anchors_within(t.view()),
    ensures
        final(st).anchors_within(t.view()),
        final(st).tag_handles == old(st).tag_handles,
        spec_flow_in_block(t.view(), p as int, level.spec_level() as nat, old(st).anchors@, old(st).tag_handles@) == (Parsed {
            found: node_at(r),
            anchors: final(st).anchors@,
        }),
        r matches Some((n, _)) ==> spans_in(n@, t.view()),
        r matches Some((_, q)) ==> p < q <= t.view().len(),
{
    proof {
        reveal(spec_flow_in_block);
    }
    let inner = match deeper(level, 1) {
        Some(l) => l,
        None => return None,
    };
    let s = match separate(t, p, inner, Context::FlowOut) {
        Some(s) => s,
        None => return None,
    };
    let (node, q) = match flow_node(t, st, s, inner, Context::FlowOut) {
        Some(x) => x,
        None => return None,
    };
    match line_comments(t, q) {
        Some(e) => Some((node, e)),
        None => None,
    }
}

/// `s-l+block-in-block(n,c)`: a block scalar, or a block collection.
pub fn block_in_block(
    t: &Text,
    st: &mut ParseState,
    p: usize,
    level: IndentLevel,
    c: Context,
) -> (r: Option<(Node, usize)>)
    requires
        p <= t.view().len(),
        old(st).anchors_within(t.view()),
    ensures
        final(st).anchors_within(t.view()),
        final(st).tag_handles == old(st).tag_handles,
        spec_block_in_block(t.view(), p as int, level.spec_level() as nat, c, old(st).anchors@, old(st).tag_handles@) == (Parsed {
            found: node_at(r),
            anchors: final(st).anchors@,
        }),
        r matches Some((n, _)) ==> spans_in(n@, t.view()),
        r matches Some((_, q)) ==> p < q <= t.view().len(),
    decreases t.view().len() - p, 8nat,
{
    proof {
        reveal_with_fuel(spec_block_in_block, 1);
        reveal_with_fuel(spec_block_collection, 1);
    }
    match block_scalar(t, st, p, level, c) {
        Some(x) => return Some(x),
        None => {},
    }
    block_collection(t, st, p, level, c)
}

/// `s-l+block-node(n,c)`: a block in block, or a flow node.
pub fn block_node(
    t: &Text,
    st: &mut ParseState,
    p: usize,
    level: IndentLevel,
    c: Context,
) -> (r: Option<(Node, usize)>)
    requires
        p <= t.view().len(),
        old(st).anchors_within(t.view()),
    ensures
        final(st).anchors_within(t.view()),
        final(st).tag_handles == old(st).tag_handles,
        spec_block_node(t.view(), p as int, level.spec_level() as nat, c, old(st).anchors@, old(st).tag_handles@) == (Parsed {
            found: node_at(r),
            anchors: final(st).anchors@,
        }),
        r matches Some((n, _)) ==> spans_in(n@, t.view()),
        r matches Some((_, q)) ==> p < q <= t.view().len(),
    decreases t.view().len() - p, 9nat,
{
    proof {
        reveal_with_fuel(spec_block_node, 1);
        reveal_with_fuel(spec_block_in_block, 1);
    }
    match block_in_block(t, st, p, level, c) {
        Some(x) => return Some(x),
        None => {},
    }
    flow_in_block(t, st, p, level)
}

} // verus!
