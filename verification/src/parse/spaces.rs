//! Indentation, separation, comments and line folding: the whitespace productions of the
//! grammar. Each function reads the text from a position and returns the position it stops at,
//! or `None` where its production does not match there.
use vstd::prelude::*;

use crate::parse::chars::{is_non_break, spec_non_break};
use crate::parse::input::Text;

verus! {

/// Level of indent. The initial level stands for the `-1` of the grammar.
#[derive(Debug, Clone, Copy, PartialEq, Eq, PartialOrd, Ord, Structural)]
pub struct IndentLevel(usize);

impl IndentLevel {
    /// The stored level: the width of indentation plus one.
    pub closed spec fn spec_level(self) -> usize {
        self.0
    }

    /// The width of indentation, `0` for the initial level.
    pub open spec fn spec_get(self) -> nat {
        if self.spec_level() == 0 {
            0
        } else {
            (self.spec_level() - 1) as nat
        }
    }

    /// Returns the initial indent level used in the documents, the grammar's `-1`.
    pub fn initial() -> (r: IndentLevel)
        ensures
            r.spec_level() == 0,
    {
        IndentLevel(0)
    }

    /// Creates a new level out of the given width.
    pub fn new(v: usize) -> (r: IndentLevel)
        requires
            v < usize::MAX,
        ensures
            r.spec_level() == v + 1,
            r.spec_get() == v,
    {
        IndentLevel(v + 1)
    }

    /// The stored level: the width of indentation plus one, `0` for the initial level.
    pub fn level(&self) -> (r: usize)
        ensures
            r == self.spec_level(),
    {
        self.0
    }

    /// Returns the actual width of indentation.
    pub fn get(&self) -> (r: usize)
        ensures
            r == self.spec_get(),
    {
        if self.0 == 0 {
            0
        } else {
            self.0 - 1
        }
    }

    /// Returns one level less (the initial level stays as it is).
    pub fn prev(&self) -> (r: IndentLevel)
        ensures
            r.spec_level() == (if self.spec_level() == 0 {
                0
            } else {
                self.spec_level() - 1
            }),
    {
        IndentLevel(
            if self.0 == 0 {
                0
            } else {
                self.0 - 1
            },
        )
    }

    /// Returns a level `m` deeper.
    pub fn add(&self, m: usize) -> (r: IndentLevel)
        requires
            self.spec_level() + m <= usize::MAX,
        ensures
            r.spec_level() == self.spec_level() + m,
    {
        IndentLevel(self.0 + m)
    }

    /// Whether this level is deeper than `other`.
    pub fn deeper_than(&self, other: IndentLevel) -> (r: bool)
        ensures
            r == (self.spec_level() > other.spec_level()),
    {
        self.0 > other.0
    }
}

/// The six parse contexts of the grammar.
#[derive(Debug, Clone, Copy, PartialEq, Eq, Structural)]
pub enum Context {
    BlockIn,
    BlockOut,
    BlockKey,
    FlowIn,
    FlowOut,
    FlowKey,
}

/// Whether `c` is one of the key contexts, where separation stays on one line.
pub open spec fn spec_is_key(c: Context) -> bool {
    c == Context::BlockKey || c == Context::FlowKey
}

/// Whether `c` is one of the flow contexts.
pub open spec fn spec_is_flow(c: Context) -> bool {
    c == Context::FlowIn || c == Context::FlowOut || c == Context::FlowKey
}

/// The context flow collection entries are read in: flow-key within a key, flow-in otherwise.
pub fn in_flow(c: Context) -> (r: Context)
    ensures
        r == (if spec_is_key(c) {
            Context::FlowKey
        } else {
            Context::FlowIn
        }),
{
    match c {
        Context::BlockKey | Context::FlowKey => Context::FlowKey,
        _ => Context::FlowIn,
    }
}

/// The text from `p` on is `n` spaces, then something other than a space.
pub open spec fn spaces_run(s: Seq<char>, p: int, n: int) -> bool {
    &&& p + n <= s.len()
    &&& forall|i: int| p <= i < p + n ==> s[i] == ' '
    &&& (p + n == s.len() || s[p + n] != ' ')
}

/// A position as an integer, for comparing results with the grammar's own positions.
pub open spec fn at(r: Option<usize>) -> Option<int> {
    match r {
        Some(q) => Some(q as int),
        None => None,
    }
}

/// The position after the spaces at `p`.
pub open spec fn space_end(s: Seq<char>, p: int) -> int
    decreases s.len() - p,
{
    if 0 <= p < s.len() && s[p] == ' ' {
        space_end(s, p + 1)
    } else {
        p
    }
}

/// The number of spaces at `p`, but at most `max`.
pub open spec fn spec_count_spaces(s: Seq<char>, p: int, max: nat) -> nat {
    if space_end(s, p) - p <= max {
        (space_end(s, p) - p) as nat
    } else {
        max
    }
}

/// `s-indent(n)` at `p`: exactly `n` spaces.
pub open spec fn spec_indent(s: Seq<char>, p: int, n: nat) -> Option<int> {
    if p + n <= s.len() && forall|i: int| p <= i < p + n ==> s[i] == ' ' {
        Some(p + n)
    } else {
        None
    }
}

/// `s-indent(<n)` at `p`: the spaces there, at most `n - 1` of them.
pub open spec fn spec_indent_less_than(s: Seq<char>, p: int, n: nat) -> int {
    if n == 0 {
        p
    } else {
        p + spec_count_spaces(s, p, (n - 1) as nat)
    }
}

/// The position after the spaces and tabs at `p`.
pub open spec fn white_end(s: Seq<char>, p: int) -> int
    decreases s.len() - p,
{
    if is_white_at(s, p) {
        white_end(s, p + 1)
    } else {
        p
    }
}

/// The position after the non-break characters at `p`.
pub open spec fn non_break_end(s: Seq<char>, p: int) -> int
    decreases s.len() - p,
{
    if 0 <= p < s.len() && spec_non_break(s[p]) {
        non_break_end(s, p + 1)
    } else {
        p
    }
}

/// `p` is at the start of a line: the start of the text, or just after a line feed.
pub open spec fn spec_start_of_line(s: Seq<char>, p: int) -> bool {
    p == 0 || s[p - 1] == '\n'
}

/// `s-separate-in-line` at `p`: one or more white space characters, or nothing at the start of
/// a line.
pub open spec fn spec_separate_in_line(s: Seq<char>, p: int) -> Option<int> {
    if white_end(s, p) > p || spec_start_of_line(s, p) {
        Some(white_end(s, p))
    } else {
        None
    }
}

/// `b-break` at `p`: a CR LF pair, a lone CR, or a lone LF.
pub open spec fn spec_line_break(s: Seq<char>, p: int) -> Option<int> {
    if 0 <= p < s.len() && s[p] == '\r' {
        if p + 1 < s.len() && s[p + 1] == '\n' {
            Some(p + 2)
        } else {
            Some(p + 1)
        }
    } else if 0 <= p < s.len() && s[p] == '\n' {
        Some(p + 1)
    } else {
        None
    }
}

/// `c-nb-comment-text` at `p`: `#` and the rest of the line.
pub open spec fn spec_comment_text(s: Seq<char>, p: int) -> Option<int> {
    if 0 <= p < s.len() && s[p] == '#' {
        Some(non_break_end(s, p + 1))
    } else {
        None
    }
}

/// `b-comment` at `p`: a line break, or the end of the text.
pub open spec fn spec_break_comment(s: Seq<char>, p: int) -> Option<int> {
    if p == s.len() {
        Some(p)
    } else {
        spec_line_break(s, p)
    }
}

/// Optional white space and an optional comment at `p`: where they end.
pub open spec fn white_and_comment_end(s: Seq<char>, a: int) -> int {
    match spec_comment_text(s, a) {
        Some(b) => b,
        None => a,
    }
}

/// `s-b-comment` at `p`: optional white space and comment, then the end of the line.
pub open spec fn spec_space_break_comment(s: Seq<char>, p: int) -> Option<int> {
    match spec_separate_in_line(s, p) {
        Some(a) => spec_break_comment(s, white_and_comment_end(s, a)),
        None => spec_break_comment(s, p),
    }
}

/// `l-comment` at `p`: a line holding at most white space and a comment.
pub open spec fn spec_line_comment(s: Seq<char>, p: int) -> Option<int> {
    match spec_separate_in_line(s, p) {
        Some(a) => spec_break_comment(s, white_and_comment_end(s, a)),
        None => None,
    }
}

/// Any number of `l-comment` lines at `p`, each taking at least one character: where they end.
pub open spec fn spec_comment_lines(s: Seq<char>, p: int) -> int
    decreases s.len() - p,
{
    match spec_line_comment(s, p) {
        Some(r) => if p < r <= s.len() {
            spec_comment_lines(s, r)
        } else {
            p
        },
        None => p,
    }
}

/// `s-l-comments` at `p`: the end of the current line (or being at the start of one), then any
/// comment lines.
#[verifier::opaque]
pub open spec fn spec_line_comments(s: Seq<char>, p: int) -> Option<int> {
    match spec_space_break_comment(s, p) {
        Some(q) => Some(spec_comment_lines(s, q)),
        None => if spec_start_of_line(s, p) {
            Some(spec_comment_lines(s, p))
        } else {
            None
        },
    }
}

/// `s-flow-line-prefix(n)` at `p`: the indentation, then optional white space.
pub open spec fn spec_flow_line_prefix(s: Seq<char>, p: int, n: nat) -> Option<int> {
    match spec_indent(s, p, n) {
        Some(q) => match spec_separate_in_line(s, q) {
            Some(x) => Some(x),
            None => Some(q),
        },
        None => None,
    }
}

/// `s-line-prefix(n,c)` at `p`: the flow line prefix in a flow context, the indentation
/// otherwise.
pub open spec fn spec_line_prefix(s: Seq<char>, p: int, n: nat, c: Context) -> Option<int> {
    if spec_is_flow(c) {
        spec_flow_line_prefix(s, p, n)
    } else {
        spec_indent(s, p, n)
    }
}

/// `s-separate-lines(n)` at `p`: comments and a flow line prefix, or else white space within
/// the line.
pub open spec fn spec_separate_lines(s: Seq<char>, p: int, n: nat) -> Option<int> {
    match spec_line_comments(s, p) {
        Some(q) => match spec_flow_line_prefix(s, q, n) {
            Some(x) => Some(x),
            None => spec_separate_in_line(s, p),
        },
        None => spec_separate_in_line(s, p),
    }
}

/// `s-separate(n,c)` at `p`: within the line in a key context, across lines otherwise.
#[verifier::opaque]
pub open spec fn spec_separate(s: Seq<char>, p: int, n: nat, c: Context) -> Option<int> {
    if spec_is_key(c) {
        spec_separate_in_line(s, p)
    } else {
        spec_separate_lines(s, p, n)
    }
}

/// `l-empty(n,c)` at `p`: a line prefix, or less indentation, then a line break.
pub open spec fn spec_line_empty(s: Seq<char>, p: int, n: nat, c: Context) -> Option<int> {
    let after_prefix = match spec_line_prefix(s, p, n, c) {
        Some(q) => spec_line_break(s, q),
        None => None,
    };
    match after_prefix {
        Some(x) => Some(x),
        None => spec_line_break(s, spec_indent_less_than(s, p, n)),
    }
}

/// Any number of `l-empty(n,c)` lines at `p`: how many, and where they end.
pub open spec fn spec_empty_lines(s: Seq<char>, p: int, n: nat, c: Context) -> (nat, int)
    decreases s.len() - p,
{
    match spec_line_empty(s, p, n, c) {
        Some(r) => if p < r <= s.len() {
            (spec_empty_lines(s, r, n, c).0 + 1, spec_empty_lines(s, r, n, c).1)
        } else {
            (0, p)
        },
        None => (0, p),
    }
}

/// `b-l-trimmed(n,c)` at `p`: a line break, then at least one empty line; the number of them
/// and where they end.
pub open spec fn spec_break_line_trimmed(s: Seq<char>, p: int, n: nat, c: Context) -> Option<
    (nat, int),
> {
    match spec_line_break(s, p) {
        Some(q) => if spec_empty_lines(s, q, n, c).0 >= 1 {
            Some(spec_empty_lines(s, q, n, c))
        } else {
            None
        },
        None => None,
    }
}

/// `b-l-folded(n,c)` at `p`: a line break, then empty lines; the number of them and where they
/// end.
pub open spec fn spec_break_line_folded(s: Seq<char>, p: int, n: nat, c: Context) -> Option<
    (nat, int),
> {
    match spec_line_break(s, p) {
        Some(q) => Some(spec_empty_lines(s, q, n, c)),
        None => None,
    }
}

/// `s-flow-folded(n)` at `p`: optional white space, a folded line break, and the next line's
/// flow prefix; the number of empty lines and where it ends.
pub open spec fn spec_flow_folded(s: Seq<char>, p: int, n: nat) -> Option<(nat, int)> {
    let a = match spec_separate_in_line(s, p) {
        Some(a) => a,
        None => p,
    };
    match spec_break_line_folded(s, a, n, Context::FlowIn) {
        Some((k, b)) => match spec_flow_line_prefix(s, b, n) {
            Some(q) => Some((k, q)),
            None => None,
        },
        None => None,
    }
}

/// A count and a position as integers.
pub open spec fn at2(r: Option<(usize, usize)>) -> Option<(nat, int)> {
    match r {
        Some((k, q)) => Some((k as nat, q as int)),
        None => None,
    }
}

/// The spaces at `p` end within the text, every character before their end is a space, and
/// the one at their end is not.
pub proof fn lemma_space_end_bounds(s: Seq<char>, p: int)
    requires
        0 <= p <= s.len(),
    ensures
        p <= space_end(s, p) <= s.len(),
        forall|i: int| p <= i < space_end(s, p) ==> s[i] == ' ',
        space_end(s, p) == s.len() || s[space_end(s, p)] != ' ',
    decreases s.len() - p,
{
    if p < s.len() && s[p] == ' ' {
        lemma_space_end_bounds(s, p + 1);
    }
}

/// `n` spaces at `p` followed by something other than a space end the run of spaces there.
pub proof fn lemma_space_end_exact(s: Seq<char>, p: int, n: nat)
    requires
        0 <= p,
        p + n <= s.len(),
        forall|i: int| p <= i < p + n ==> s[i] == ' ',
        p + n == s.len() || s[p + n] != ' ',
    ensures
        space_end(s, p) == p + n,
    decreases n,
{
    if n > 0 {
        lemma_space_end_exact(s, p + 1, (n - 1) as nat);
    }
}

/// A line holding nothing but its line feed is an empty line at every level and in every
/// context.
pub proof fn lemma_bare_line_is_empty(s: Seq<char>, p: int, n: nat, c: Context)
    requires
        0 <= p < s.len(),
        s[p] == '\n',
    ensures
        spec_line_empty(s, p, n, c) == Some(p + 1),
{
    assert(space_end(s, p) == p);
    assert(white_end(s, p) == p);
    if n > 0 {
        assert(spec_indent(s, p, n) is None) by {
            assert(s[p] != ' ');
        }
    }
}

/// `k` lines holding nothing but their line feeds, then a line that is not empty, are `k`
/// empty lines.
pub proof fn lemma_bare_lines_count(s: Seq<char>, p: int, k: nat, n: nat, c: Context)
    requires
        0 <= p,
        p + k <= s.len(),
        forall|i: int| p <= i < p + k ==> s[i] == '\n',
        spec_line_empty(s, p + k, n, c) is None,
    ensures
        spec_empty_lines(s, p, n, c) == (k, p + k),
    decreases k,
{
    if k > 0 {
        lemma_bare_line_is_empty(s, p, n, c);
        lemma_bare_lines_count(s, p + 1, (k - 1) as nat, n, c);
    }
}

/// Counts the spaces at `p`, at most `max` of them.
pub fn count_spaces(t: &Text, p: usize, max: usize) -> (r: usize)
    requires
        p <= t.view().len(),
    ensures
        r == spec_count_spaces(t.view(), p as int, max as nat),
        r <= max,
        p + r <= t.view().len(),
        forall|i: int| p <= i < p + r ==> t.view()[i] == ' ',
        r < max ==> (p + r == t.view().len() || t.view()[p + r] != ' '),
{
    let mut i: usize = p;
    while i < t.len() && i - p < max && t.is(i, ' ')
        invariant
            p <= i <= t.view().len(),
            i - p <= max,
            forall|j: int| p <= j < i ==> t.view()[j] == ' ',
            space_end(t.view(), i as int) == space_end(t.view(), p as int),
        decreases t.view().len() - i,
    {
        i = i + 1;
    }
    proof {
        lemma_space_end_bounds(t.view(), i as int);
    }
    i - p
}

/// `s-indent(n)`: exactly `n` spaces, `n` being the level's width.
pub fn indent(t: &Text, p: usize, level: IndentLevel) -> (r: Option<usize>)
    requires
        p <= t.view().len(),
    ensures
        at(r) == spec_indent(t.view(), p as int, level.spec_get()),
        r matches Some(q) ==> q == p + level.spec_get() && q <= t.view().len() && forall|i: int|
            p <= i < q ==> t.view()[i] == ' ',
        r is None ==> !(p + level.spec_get() <= t.view().len() && forall|i: int|
            p <= i < p + level.spec_get() ==> t.view()[i] == ' '),
{
    let _len = t.len();
    let n = level.get();
    let k = count_spaces(t, p, n);
    if k == n {
        Some(p + k)
    } else {
        None
    }
}

/// `s-indent(n+m)` for some `m >= 0`: all the spaces at `p`, if there are at least `n`.
/// Returns their count and the position after them.
pub fn indent_at_least(t: &Text, p: usize, level: IndentLevel) -> (r: Option<(usize, usize)>)
    requires
        p <= t.view().len(),
    ensures
        r is Some <==> space_end(t.view(), p as int) - p >= level.spec_get(),
        r matches Some((k, _)) ==> k == space_end(t.view(), p as int) - p,
        r matches Some((k, q)) ==> q == p + k && k >= level.spec_get() && spaces_run(
            t.view(),
            p as int,
            k as int,
        ),
{
    let k = count_spaces(t, p, t.len() - p);
    proof {
        lemma_space_end_bounds(t.view(), p as int);
    }
    if k >= level.get() {
        Some((k, p + k))
    } else {
        None
    }
}

/// `s-indent(<n)`: all the spaces at `p`, as long as there are fewer than `n`.
pub fn indent_less_than(t: &Text, p: usize, level: IndentLevel) -> (r: Option<usize>)
    requires
        p <= t.view().len(),
    ensures
        at(r) == Some(spec_indent_less_than(t.view(), p as int, level.spec_get())),
        r matches Some(q) ==> p <= q <= t.view().len() && q - p < level.spec_get() + 1,
{
    let _len = t.len();
    let n = level.get();
    if n == 0 {
        return Some(p);
    }
    let k = count_spaces(t, p, n - 1);
    Some(p + k)
}

/// `s-indent(<=n)`: the spaces at `p`, at most `n` of them.
pub fn indent_less_or_equal(t: &Text, p: usize, level: IndentLevel) -> (r: usize)
    requires
        p <= t.view().len(),
    ensures
        r == p + spec_count_spaces(t.view(), p as int, level.spec_get()),
        p <= r <= t.view().len(),
        r - p <= level.spec_get(),
{
    let _len = t.len();
    p + count_spaces(t, p, level.get())
}

/// A space or a tab.
pub fn is_white(t: &Text, p: usize) -> (r: bool)
    ensures
        r == is_white_at(t.view(), p as int),
        r == (p < t.view().len() && (t.view()[p as int] == ' ' || t.view()[p as int] == '\t')),
{
    t.is(p, ' ') || t.is(p, '\t')
}

/// The position after all the white space (spaces and tabs) at `p`.
pub fn skip_white(t: &Text, p: usize) -> (r: usize)
    requires
        p <= t.view().len(),
    ensures
        r == white_end(t.view(), p as int),
        p <= r <= t.view().len(),
        forall|i: int| p <= i < r ==> t.view()[i] == ' ' || t.view()[i] == '\t',
        !is_white_at(t.view(), r as int),
{
    let _len = t.len();
    let mut i: usize = p;
    while is_white(t, i)
        invariant
            p <= i <= t.view().len(),
            _len == t.view().len(),
            forall|j: int| p <= j < i ==> t.view()[j] == ' ' || t.view()[j] == '\t',
            white_end(t.view(), i as int) == white_end(t.view(), p as int),
        decreases t.view().len() - i,
    {
        i = i + 1;
    }
    i
}

/// There is a space or a tab at `i`.
pub open spec fn is_white_at(s: Seq<char>, i: int) -> bool {
    0 <= i < s.len() && (s[i] == ' ' || s[i] == '\t')
}

/// Whether `p` is at the start of a line: the start of the text, or just after a line feed.
pub fn start_of_line(t: &Text, p: usize) -> (r: bool)
    requires
        p <= t.view().len(),
    ensures
        r == spec_start_of_line(t.view(), p as int),
{
    p == 0 || t.is(p - 1, '\n')
}

/// `s-separate-in-line`: one or more white space characters, or nothing at the start of a line.
pub fn separate_in_line(t: &Text, p: usize) -> (r: Option<usize>)
    requires
        p <= t.view().len(),
    ensures
        at(r) == spec_separate_in_line(t.view(), p as int),
        r matches Some(q) ==> p <= q <= t.view().len(),
{
    let q = skip_white(t, p);
    if q > p || start_of_line(t, p) {
        Some(q)
    } else {
        None
    }
}

/// `b-break`: a CR LF pair, a lone CR, or a lone LF.
pub fn line_break(t: &Text, p: usize) -> (r: Option<usize>)
    requires
        p <= t.view().len(),
    ensures
        at(r) == spec_line_break(t.view(), p as int),
        r matches Some(q) ==> p < q <= t.view().len(),
        r is Some <==> (t.is_break_at(p as int)),
{
    let _len = t.len();
    if t.is(p, '\r') {
        if t.is(p + 1, '\n') {
            Some(p + 2)
        } else {
            Some(p + 1)
        }
    } else if t.is(p, '\n') {
        Some(p + 1)
    } else {
        None
    }
}

impl Text {
    /// A line break starts at `i`.
    pub open spec fn is_break_at(self, i: int) -> bool {
        0 <= i < self.view().len() && (self.view()[i] == '\r' || self.view()[i] == '\n')
    }
}

/// The position after the non-break characters at `p`.
pub fn skip_non_break(t: &Text, p: usize) -> (r: usize)
    requires
        p <= t.view().len(),
    ensures
        r == non_break_end(t.view(), p as int),
        p <= r <= t.view().len(),
        forall|i: int| p <= i < r ==> spec_non_break(t.view()[i]),
        r == t.view().len() || !spec_non_break(t.view()[r as int]),
{
    let mut i: usize = p;
    while i < t.len() && is_non_break(t.peek(i).unwrap())
        invariant
            p <= i <= t.view().len(),
            forall|j: int| p <= j < i ==> spec_non_break(t.view()[j]),
            non_break_end(t.view(), i as int) == non_break_end(t.view(), p as int),
        decreases t.view().len() - i,
    {
        i = i + 1;
    }
    i
}

/// `c-nb-comment-text`: `#` and the rest of the line.
pub fn non_break_comment_text(t: &Text, p: usize) -> (r: Option<usize>)
    requires
        p <= t.view().len(),
    ensures
        at(r) == spec_comment_text(t.view(), p as int),
        r matches Some(q) ==> p < q <= t.view().len(),
{
    let _len = t.len();
    if t.is(p, '#') {
        Some(skip_non_break(t, p + 1))
    } else {
        None
    }
}

/// `b-comment`: a line break, or the end of the text.
pub fn break_comment(t: &Text, p: usize) -> (r: Option<usize>)
    requires
        p <= t.view().len(),
    ensures
        at(r) == spec_break_comment(t.view(), p as int),
        r matches Some(q) ==> p <= q <= t.view().len(),
        r matches Some(q) ==> (q == p <==> p == t.view().len()),
{
    if p == t.len() {
        Some(p)
    } else {
        line_break(t, p)
    }
}

/// `s-b-comment`: optional white space and comment, then the end of the line.
pub fn space_break_comment(t: &Text, p: usize) -> (r: Option<usize>)
    requires
        p <= t.view().len(),
    ensures
        at(r) == spec_space_break_comment(t.view(), p as int),
        r matches Some(q) ==> p <= q <= t.view().len(),
{
    let mut q = p;
    match separate_in_line(t, p) {
        Some(a) => {
            q = a;
            match non_break_comment_text(t, a) {
                Some(b) => {
                    q = b;
                },
                None => {},
            }
        },
        None => {},
    }
    break_comment(t, q)
}

/// `l-comment`: a line holding at most white space and a comment.
pub fn line_comment(t: &Text, p: usize) -> (r: Option<usize>)
    requires
        p <= t.view().len(),
    ensures
        at(r) == spec_line_comment(t.view(), p as int),
        r matches Some(q) ==> p <= q <= t.view().len(),
{
    let a = match separate_in_line(t, p) {
        Some(a) => a,
        None => return None,
    };
    let b = match non_break_comment_text(t, a) {
        Some(b) => b,
        None => a,
    };
    break_comment(t, b)
}

/// Any number of `l-comment` lines, each consuming at least one character.
pub fn comment_lines(t: &Text, p: usize) -> (r: usize)
    requires
        p <= t.view().len(),
    ensures
        r == spec_comment_lines(t.view(), p as int),
        p <= r <= t.view().len(),
{
    let mut q = p;
    loop
        invariant
            p <= q <= t.view().len(),
            spec_comment_lines(t.view(), q as int) == spec_comment_lines(t.view(), p as int),
        decreases t.view().len() - q,
    {
        match line_comment(t, q) {
            Some(r) if r > q => {
                q = r;
            },
            _ => return q,
        }
    }
}

/// `s-l-comments`: the end of the current line (or being at the start of one), then any
/// comment lines.
pub fn line_comments(t: &Text, p: usize) -> (r: Option<usize>)
    requires
        p <= t.view().len(),
    ensures
        at(r) == spec_line_comments(t.view(), p as int),
        r matches Some(q) ==> p <= q <= t.view().len(),
{
    proof {
        reveal(spec_line_comments);
    }
    let q = match space_break_comment(t, p) {
        Some(q) => q,
        None => if start_of_line(t, p) {
            p
        } else {
            return None;
        },
    };
    Some(comment_lines(t, q))
}

/// `s-block-line-prefix(n)`: the indentation.
pub fn block_line_prefix(t: &Text, p: usize, level: IndentLevel) -> (r: Option<usize>)
    requires
        p <= t.view().len(),
    ensures
        at(r) == spec_indent(t.view(), p as int, level.spec_get()),
        r matches Some(q) ==> p <= q <= t.view().len(),
{
    indent(t, p, level)
}

/// `s-flow-line-prefix(n)`: the indentation, then optional white space.
pub fn flow_line_prefix(t: &Text, p: usize, level: IndentLevel) -> (r: Option<usize>)
    requires
        p <= t.view().len(),
    ensures
        at(r) == spec_flow_line_prefix(t.view(), p as int, level.spec_get()),
        r matches Some(q) ==> p <= q <= t.view().len(),
{
    match indent(t, p, level) {
        Some(q) => match separate_in_line(t, q) {
            Some(s) => Some(s),
            None => Some(q),
        },
        None => None,
    }
}

/// `s-line-prefix(n,c)`: the block or flow line prefix, by context.
pub fn line_prefix(t: &Text, p: usize, level: IndentLevel, c: Context) -> (r: Option<usize>)
    requires
        p <= t.view().len(),
    ensures
        at(r) == spec_line_prefix(t.view(), p as int, level.spec_get(), c),
        r matches Some(q) ==> p <= q <= t.view().len(),
{
    match c {
        Context::FlowIn | Context::FlowOut | Context::FlowKey => flow_line_prefix(t, p, level),
        _ => block_line_prefix(t, p, level),
    }
}

/// `s-separate-lines(n)`: comments and a flow line prefix, or white space within the line.
pub fn separate_lines(t: &Text, p: usize, level: IndentLevel) -> (r: Option<usize>)
    requires
        p <= t.view().len(),
    ensures
        at(r) == spec_separate_lines(t.view(), p as int, level.spec_get()),
        r matches Some(q) ==> p <= q <= t.view().len(),
{
    match line_comments(t, p) {
        Some(q) => match flow_line_prefix(t, q, level) {
            Some(s) => return Some(s),
            None => {},
        },
        None => {},
    }
    separate_in_line(t, p)
}

/// `s-separate(n,c)`: within the line in a key context, across lines otherwise.
pub fn separate(t: &Text, p: usize, level: IndentLevel, c: Context) -> (r: Option<usize>)
    requires
        p <= t.view().len(),
    ensures
        at(r) == spec_separate(t.view(), p as int, level.spec_get(), c),
        r matches Some(q) ==> p <= q <= t.view().len(),
{
    proof {
        reveal(spec_separate);
    }
    match c {
        Context::BlockKey | Context::FlowKey => separate_in_line(t, p),
        _ => separate_lines(t, p, level),
    }
}

/// `s-separate(n,c)?`: the separation if there is one, else nothing.
pub fn opt_separate(t: &Text, p: usize, level: IndentLevel, c: Context) -> (r: usize)
    requires
        p <= t.view().len(),
    ensures
        r == (match spec_separate(t.view(), p as int, level.spec_get(), c) {
            Some(q) => q,
            None => p as int,
        }),
        p <= r <= t.view().len(),
{
    match separate(t, p, level, c) {
        Some(q) => q,
        None => p,
    }
}

/// `l-empty(n,c)`: a line holding at most its prefix (or less indentation), read as a line
/// feed.
pub fn line_empty(t: &Text, p: usize, level: IndentLevel, c: Context) -> (r: Option<usize>)
    requires
        p <= t.view().len(),
    ensures
        at(r) == spec_line_empty(t.view(), p as int, level.spec_get(), c),
        r matches Some(q) ==> p < q <= t.view().len(),
{
    match line_prefix(t, p, level, c) {
        Some(q) => match line_break(t, q) {
            Some(s) => return Some(s),
            None => {},
        },
        None => {},
    }
    match indent_less_than(t, p, level) {
        Some(q) => line_break(t, q),
        None => None,
    }
}

/// Any number of `l-empty(n,c)` lines; returns how many, and the position after them.
pub fn empty_lines(t: &Text, p: usize, level: IndentLevel, c: Context) -> (r: (usize, usize))
    requires
        p <= t.view().len(),
    ensures
        (r.0 as nat, r.1 as int) == spec_empty_lines(t.view(), p as int, level.spec_get(), c),
        p <= r.1 <= t.view().len(),
        r.0 <= r.1 - p,
{
    let mut q = p;
    let mut k: usize = 0;
    loop
        invariant
            p <= q <= t.view().len(),
            k <= q - p,
            spec_empty_lines(t.view(), p as int, level.spec_get(), c) == ((k + spec_empty_lines(
                t.view(),
                q as int,
                level.spec_get(),
                c,
            ).0) as nat, spec_empty_lines(t.view(), q as int, level.spec_get(), c).1),
        decreases t.view().len() - q,
    {
        match line_empty(t, q, level, c) {
            Some(r) => {
                q = r;
                k = k + 1;
            },
            None => return (k, q),
        }
    }
}

/// `b-l-trimmed(n,c)`: a line break followed by at least one empty line, each read as a line
/// feed. Returns how many, and the position after them.
pub fn break_line_trimmed(t: &Text, p: usize, level: IndentLevel, c: Context) -> (r: Option<
    (usize, usize),
>)
    requires
        p <= t.view().len(),
    ensures
        at2(r) == spec_break_line_trimmed(t.view(), p as int, level.spec_get(), c),
        r matches Some((k, q)) ==> p < q <= t.view().len() && 1 <= k <= q - p,
{
    let q = match line_break(t, p) {
        Some(q) => q,
        None => return None,
    };
    let (k, s) = empty_lines(t, q, level, c);
    if k >= 1 {
        Some((k, s))
    } else {
        None
    }
}

/// `b-l-folded(n,c)`: a line break followed by empty lines (each read as a line feed), or a
/// lone line break (read as a space). Returns the line feeds kept, `0` standing for the space.
pub fn break_line_folded(t: &Text, p: usize, level: IndentLevel, c: Context) -> (r: Option<
    (usize, usize),
>)
    requires
        p <= t.view().len(),
    ensures
        at2(r) == spec_break_line_folded(t.view(), p as int, level.spec_get(), c),
        r matches Some((k, q)) ==> p < q <= t.view().len() && k <= q - p,
{
    match break_line_trimmed(t, p, level, c) {
        Some(x) => return Some(x),
        None => {},
    }
    match line_break(t, p) {
        Some(q) => {
            assert(spec_empty_lines(t.view(), q as int, level.spec_get(), c) == (0nat, q as int));
            Some((0, q))
        },
        None => None,
    }
}

/// `s-flow-folded(n)`: optional white space, a folded line break, and the next line's flow
/// prefix.
pub fn flow_folded(t: &Text, p: usize, level: IndentLevel) -> (r: Option<(usize, usize)>)
    requires
        p <= t.view().len(),
    ensures
        at2(r) == spec_flow_folded(t.view(), p as int, level.spec_get()),
        r matches Some((k, q)) ==> p < q <= t.view().len() && k <= q - p,
{
    let a = match separate_in_line(t, p) {
        Some(a) => a,
        None => p,
    };
    match break_line_folded(t, a, level, Context::FlowIn) {
        Some((k, b)) => match flow_line_prefix(t, b, level) {
            Some(q) => Some((k, q)),
            None => None,
        },
        None => None,
    }
}

/// `c-forbidden` at `i` of `s`: a `---` or `...` marker at the start of a line, followed by a
/// line break, white space, or the end of the text.
pub open spec fn spec_forbidden(s: Seq<char>, i: int) -> bool {
    &&& (i == 0 || s[i - 1] == '\n')
    &&& i + 3 <= s.len()
    &&& ((s[i] == '-' && s[i + 1] == '-' && s[i + 2] == '-') || (s[i] == '.' && s[i + 1] == '.'
        && s[i + 2] == '.'))
    &&& (i + 3 == s.len() || s[i + 3] == '\n' || s[i + 3] == '\r' || s[i + 3] == ' ' || s[i + 3]
        == '\t')
}

/// `c-forbidden`: a `---` or `...` marker at the start of a line, followed by a line break,
/// white space, or the end of the text.
pub fn forbidden(t: &Text, p: usize) -> (r: bool)
    requires
        p <= t.view().len(),
    ensures
        r == spec_forbidden(t.view(), p as int),
{
    if !start_of_line(t, p) || t.len() - p < 3 {
        return false;
    }
    let dashes = t.is(p, '-') && t.is(p + 1, '-') && t.is(p + 2, '-');
    let dots = t.is(p, '.') && t.is(p + 1, '.') && t.is(p + 2, '.');
    if !(dashes || dots) {
        return false;
    }
    let q = p + 3;
    q == t.len() || t.is(q, '\n') || t.is(q, '\r') || is_white(t, q)
}

} // verus!
