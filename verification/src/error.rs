//! Error types shared by the parser, tag resolution and deserialization, and the source
//! excerpts they point at.
//!
//! Every error that knows *where* it came from carries an [`Excerpt`]: the offending source
//! lines, the position within them, and what is needed to render them.
use vstd::prelude::*;

use crate::text::{
    byte_len, byte_offset, char_width, chars_of, is_char_boundary, string_of, utf8_width,
};
use crate::value::Span;

verus! {

// ---------------------------------------------------------------------------------------------
// Positions
// ---------------------------------------------------------------------------------------------
/// The number of characters of `s` whose UTF-8 encoding fits in the first `offset` bytes: the
/// character index of the byte offset clamped into the text and onto a `char` boundary.
pub open spec fn clamp_index(s: Seq<char>, offset: int) -> int
    decreases s.len(),
{
    if s.len() == 0 {
        0
    } else if byte_len(s) <= offset {
        s.len() as int
    } else {
        clamp_index(s.drop_last(), offset)
    }
}

/// The number of occurrences of `c` in `s`.
pub open spec fn count_char(s: Seq<char>, c: char) -> nat
    decreases s.len(),
{
    if s.len() == 0 {
        0
    } else {
        count_char(s.drop_last(), c) + if s.last() == c {
            1nat
        } else {
            0nat
        }
    }
}

/// The index right after the last line feed of `s`, or 0 when it has none.
pub open spec fn line_start_of(s: Seq<char>) -> int
    decreases s.len(),
{
    if s.len() == 0 {
        0
    } else if s.last() == '\n' {
        s.len() as int
    } else {
        line_start_of(s.drop_last())
    }
}

/// The index of the first line feed of `s` at or after `i`, or the length of `s` if none.
pub open spec fn line_end_from(s: Seq<char>, i: int) -> int
    decreases s.len() - i,
{
    if i >= s.len() {
        s.len() as int
    } else if s[i] == '\n' {
        i
    } else {
        line_end_from(s, i + 1)
    }
}

/// `s` without its trailing carriage returns.
pub open spec fn trim_cr(s: Seq<char>) -> Seq<char>
    decreases s.len(),
{
    if s.len() > 0 && s.last() == '\r' {
        trim_cr(s.drop_last())
    } else {
        s
    }
}

/// The 1-based line, the 1-based column (in `char`s) and the text (without its line break) of
/// the line that the byte offset `offset` of `s` falls on, once clamped.
pub open spec fn spec_locate(s: Seq<char>, offset: int) -> (nat, nat, Seq<char>) {
    let k = clamp_index(s, offset);
    let ls = line_start_of(s.subrange(0, k));
    (
        count_char(s.subrange(0, k), '\n') + 1,
        (k - ls + 1) as nat,
        trim_cr(s.subrange(ls, line_end_from(s, ls))),
    )
}

proof fn lemma_clamp_index(s: Seq<char>, offset: int, k: int)
    requires
        0 <= k <= s.len(),
        byte_offset(s, k) <= offset,
        k == s.len() || byte_offset(s, k + 1) > offset,
    ensures
        clamp_index(s, offset) == k,
    decreases s.len(),
{
    assert(s.subrange(0, s.len() as int) =~= s);
    if s.len() == 0 {
    } else if byte_len(s) <= offset {
        if k < s.len() {
            crate::text::lemma_byte_offset_mono(s, k + 1, s.len() as int);
        }
    } else {
        let t = s.drop_last();
        assert(k < s.len());
        assert forall|j: int| 0 <= j <= t.len() implies byte_offset(t, j) == byte_offset(s, j) by {
            assert(t.subrange(0, j) =~= s.subrange(0, j));
        }
        lemma_clamp_index(t, offset, k);
    }
}

proof fn lemma_line_start_bounds(s: Seq<char>)
    ensures
        0 <= line_start_of(s) <= s.len(),
        forall|j: int| line_start_of(s) <= j < s.len() ==> s[j] != '\n',
        line_start_of(s) > 0 ==> s[line_start_of(s) - 1] == '\n',
    decreases s.len(),
{
    if s.len() > 0 && s.last() != '\n' {
        let t = s.drop_last();
        lemma_line_start_bounds(t);
        assert forall|j: int| line_start_of(s) <= j < s.len() implies s[j] != '\n' by {
            if j < t.len() {
                assert(s[j] == t[j]);
            }
        }
    }
}

proof fn lemma_line_end_bounds(s: Seq<char>, i: int)
    requires
        0 <= i <= s.len(),
    ensures
        i <= line_end_from(s, i) <= s.len(),
        forall|j: int| i <= j < line_end_from(s, i) ==> s[j] != '\n',
        line_end_from(s, i) < s.len() ==> s[line_end_from(s, i)] == '\n',
    decreases s.len() - i,
{
    if i < s.len() && s[i] != '\n' {
        lemma_line_end_bounds(s, i + 1);
    }
}

/// The character index that the byte offset `offset` of `cs` is clamped to, with the byte
/// position of that index.
fn clamp_to_char(cs: &[char], offset: usize) -> (r: (usize, usize))
    requires
        byte_len(cs@) <= usize::MAX,
    ensures
        r.0 == clamp_index(cs@, offset as int),
        r.1 == byte_offset(cs@, r.0 as int),
        r.0 <= cs@.len(),
{
    let mut k: usize = 0;
    let mut pos: usize = 0;
    proof {
        assert(cs@.subrange(0, 0) =~= Seq::<char>::empty());
    }
    while k < cs.len()
        invariant
            k <= cs@.len(),
            byte_len(cs@) <= usize::MAX,
            pos == byte_offset(cs@, k as int),
            pos <= offset,
        decreases cs.len() - k,
    {
        let w = char_width(cs[k]);
        proof {
            crate::text::lemma_byte_offset_step(cs@, k as int);
            crate::text::lemma_byte_offset_mono(cs@, k + 1, cs@.len() as int);
            assert(cs@.subrange(0, cs@.len() as int) =~= cs@);
        }
        if pos + w > offset {
            proof {
                lemma_clamp_index(cs@, offset as int, k as int);
            }
            return (k, pos);
        }
        pos = pos + w;
        k = k + 1;
    }
    proof {
        lemma_clamp_index(cs@, offset as int, k as int);
    }
    (k, pos)
}

/// Clamps the byte offset `offset` into `input`, and off a `char` boundary onto the one below
/// it.
pub fn clamp(input: &str, offset: usize) -> (r: usize)
    requires
        byte_len(input@) <= usize::MAX,
    ensures
        r == byte_offset(input@, clamp_index(input@, offset as int)),
{
    let cs = chars_of(input);
    clamp_to_char(cs.as_slice(), offset).1
}

/// The number of line feeds among the first `k` characters of `cs`, and the index right after
/// the last of them.
fn lines_before(cs: &[char], k: usize) -> (r: (usize, usize))
    requires
        k <= cs@.len(),
    ensures
        r.0 == count_char(cs@.subrange(0, k as int), '\n'),
        r.0 <= k,
        r.1 == line_start_of(cs@.subrange(0, k as int)),
{
    let mut i: usize = 0;
    let mut count: usize = 0;
    let mut start: usize = 0;
    proof {
        assert(cs@.subrange(0, 0) =~= Seq::<char>::empty());
    }
    while i < k
        invariant
            i <= k <= cs@.len(),
            count == count_char(cs@.subrange(0, i as int), '\n'),
            start == line_start_of(cs@.subrange(0, i as int)),
            count <= i,
        decreases k - i,
    {
        assert(cs@.subrange(0, i + 1).drop_last() =~= cs@.subrange(0, i as int));
        if cs[i] == '\n' {
            count = count + 1;
            start = i + 1;
        }
        i = i + 1;
    }
    (count, start)
}

/// The index of the first line feed of `cs` at or after `from`, or the length of `cs`.
fn line_end(cs: &[char], from: usize) -> (r: usize)
    requires
        from <= cs@.len(),
    ensures
        r == line_end_from(cs@, from as int),
{
    let mut i = from;
    while i < cs.len()
        invariant
            from <= i <= cs@.len(),
            line_end_from(cs@, i as int) == line_end_from(cs@, from as int),
        decreases cs.len() - i,
    {
        if cs[i] == '\n' {
            return i;
        }
        i = i + 1;
    }
    i
}

/// The end of `cs[from..to]` once its trailing carriage returns are trimmed.
fn trim_cr_end(cs: &[char], from: usize, to: usize) -> (r: usize)
    requires
        from <= to <= cs@.len(),
    ensures
        from <= r <= to,
        cs@.subrange(from as int, r as int) == trim_cr(cs@.subrange(from as int, to as int)),
{
    let mut e = to;
    while e > from && cs[e - 1] == '\r'
        invariant
            from <= e <= to <= cs@.len(),
            trim_cr(cs@.subrange(from as int, e as int)) == trim_cr(
                cs@.subrange(from as int, to as int),
            ),
        decreases e,
    {
        assert(cs@.subrange(from as int, e as int).drop_last() =~= cs@.subrange(
            from as int,
            e - 1,
        ));
        e = e - 1;
    }
    e
}

/// A copy of `cs[from..to]` as a `String`.
fn substring(cs: &[char], from: usize, to: usize) -> (r: String)
    requires
        from <= to <= cs@.len(),
    ensures
        r@ == cs@.subrange(from as int, to as int),
{
    let mut v: Vec<char> = Vec::new();
    let mut i = from;
    while i < to
        invariant
            from <= i <= to <= cs@.len(),
            v@ == cs@.subrange(from as int, i as int),
        decreases to - i,
    {
        v.push(cs[i]);
        assert(cs@.subrange(from as int, i + 1) =~= cs@.subrange(from as int, i as int).push(
            cs@[i as int],
        ));
        i = i + 1;
    }
    string_of(v.as_slice())
}

/// Locates the byte offset `offset` within `input`, returning its 1-based line, its 1-based
/// column (counted in `char`s) and the text of that line without its line break.
pub fn locate(input: &str, offset: usize) -> (r: (usize, usize, String))
    requires
        byte_len(input@) < usize::MAX,
    ensures
        r.0 == spec_locate(input@, offset as int).0,
        r.1 == spec_locate(input@, offset as int).1,
        r.2@ == spec_locate(input@, offset as int).2,
{
    let cs = chars_of(input);
    let (k, _) = clamp_to_char(cs.as_slice(), offset);
    let (count, ls) = lines_before(cs.as_slice(), k);
    proof {
        lemma_line_start_bounds(cs@.subrange(0, k as int));
        crate::text::lemma_byte_offset_ge_index(cs@, cs@.len() as int);
        assert(cs@.subrange(0, cs@.len() as int) =~= cs@);
    }
    let le = line_end(cs.as_slice(), ls);
    proof {
        lemma_line_end_bounds(cs@, ls as int);
    }
    let te = trim_cr_end(cs.as_slice(), ls, le);
    let text = substring(cs.as_slice(), ls, te);
    (count + 1, k - ls + 1, text)
}

// ---------------------------------------------------------------------------------------------
// Excerpts
// ---------------------------------------------------------------------------------------------
/// The source text an error points at: the input lines a [`Span`] covers, plus where within
/// them it falls.
#[derive(Debug, PartialEq, Eq)]
pub struct Excerpt {
    span: Span,
    line: usize,
    column: usize,
    text: String,
    text_start: usize,
    text_end: usize,
}

/// What [`Excerpt::new`] builds for `span` within the text `s`: the span clamped into `s`, the
/// line and column it starts at, every line it touches (without the final line's break and
/// trailing carriage returns), and the span rebased onto those lines, in bytes.
pub struct ExcerptV {
    pub start: nat,
    pub end: nat,
    pub line: nat,
    pub column: nat,
    pub text: Seq<char>,
    pub text_start: nat,
    pub text_end: nat,
}

pub open spec fn spec_excerpt(s: Seq<char>, start: int, end: int) -> ExcerptV {
    let ks = clamp_index(s, start);
    let ke = clamp_index(
        s,
        if end >= start {
            end
        } else {
            start
        },
    );
    let ls = line_start_of(s.subrange(0, ks));
    let le = line_end_from(s, ke);
    let text = trim_cr(s.subrange(ls, le));
    let rel_end = byte_offset(s, ke) - byte_offset(s, ls);
    ExcerptV {
        start: byte_offset(s, ks),
        end: byte_offset(s, ke),
        line: spec_locate(s, start).0,
        column: spec_locate(s, start).1,
        text,
        text_start: (byte_offset(s, ks) - byte_offset(s, ls)) as nat,
        text_end: if rel_end <= byte_len(text) {
            rel_end as nat
        } else {
            byte_len(text)
        },
    }
}

proof fn lemma_clamp_index_bounds(s: Seq<char>, offset: int)
    ensures
        0 <= clamp_index(s, offset) <= s.len(),
    decreases s.len(),
{
    if s.len() > 0 && byte_len(s) > offset {
        lemma_clamp_index_bounds(s.drop_last(), offset);
    }
}

proof fn lemma_clamp_index_mono(s: Seq<char>, a: int, b: int)
    requires
        a <= b,
    ensures
        clamp_index(s, a) <= clamp_index(s, b),
    decreases s.len(),
{
    if s.len() > 0 {
        lemma_clamp_index_mono(s.drop_last(), a, b);
        lemma_clamp_index_bounds(s.drop_last(), a);
        lemma_clamp_index_bounds(s.drop_last(), b);
    }
}

proof fn lemma_byte_len_subrange(s: Seq<char>, i: int, j: int)
    requires
        0 <= i <= j <= s.len(),
    ensures
        byte_len(s.subrange(i, j)) == byte_offset(s, j) - byte_offset(s, i),
    decreases j - i,
{
    if i < j {
        lemma_byte_len_subrange(s, i, j - 1);
        assert(s.subrange(i, j).drop_last() =~= s.subrange(i, j - 1));
        crate::text::lemma_byte_offset_step(s, j - 1);
    } else {
        assert(s.subrange(i, j).len() == 0);
    }
}

/// Inside `s.subrange(i, j)`, the byte offset of position `k - i` is that of `k` in `s` less that
/// of `i`.
proof fn lemma_offset_in_subrange(s: Seq<char>, i: int, k: int, j: int)
    requires
        0 <= i <= k <= j <= s.len(),
    ensures
        byte_offset(s.subrange(i, j), k - i) == byte_offset(s, k) - byte_offset(s, i),
{
    lemma_byte_len_subrange(s, i, k);
    assert(s.subrange(i, j).subrange(0, k - i) =~= s.subrange(i, k));
}

/// The clamped index lies within `s`, its byte offset does not pass `offset`, and it is the last
/// such index.
proof fn lemma_clamp_index_greatest(s: Seq<char>, offset: int)
    requires
        offset >= 0,
    ensures
        0 <= clamp_index(s, offset) <= s.len(),
        byte_offset(s, clamp_index(s, offset)) <= offset,
        forall|k: int|
            0 <= k <= s.len() && byte_offset(s, k) <= offset ==> k <= clamp_index(s, offset),
    decreases s.len(),
{
    assert(s.subrange(0, s.len() as int) =~= s);
    if s.len() == 0 {
        assert(s.subrange(0, 0) =~= s);
    } else if byte_len(s) <= offset {
    } else {
        let t = s.drop_last();
        lemma_clamp_index_greatest(t, offset);
        assert forall|j: int| 0 <= j <= t.len() implies byte_offset(t, j) == byte_offset(s, j) by {
            assert(t.subrange(0, j) =~= s.subrange(0, j));
        }
    }
}

/// Where an error built at byte `offset` of `s` points: the greatest character boundary of `s`
/// at or below `offset`. That is `offset` itself when it is a boundary within `s`, and the end
/// of `s` when `offset` lies past it.
pub proof fn lemma_error_offset_is_greatest_boundary(s: Seq<char>, offset: nat)
    ensures
        is_char_boundary(s, spec_excerpt(s, offset as int, offset as int).start as int),
        spec_excerpt(s, offset as int, offset as int).start <= offset,
        forall|b: int|
            is_char_boundary(s, b) && b <= offset ==> b <= spec_excerpt(
                s,
                offset as int,
                offset as int,
            ).start,
{
    let c = clamp_index(s, offset as int);
    lemma_clamp_index_greatest(s, offset as int);
    assert forall|b: int| is_char_boundary(s, b) && b <= offset implies b <= byte_offset(s, c) by {
        let k = choose|k: int| 0 <= k <= s.len() && byte_offset(s, k) == b;
        crate::text::lemma_byte_offset_mono(s, k, c);
    }
}

/// No `c` between `i` and `k` leaves the count of `c` before them the same.
proof fn lemma_count_char_gap(s: Seq<char>, c: char, i: int, k: int)
    requires
        0 <= i <= k <= s.len(),
        forall|j: int| i <= j < k ==> s[j] != c,
    ensures
        count_char(s.subrange(0, k), c) == count_char(s.subrange(0, i), c),
    decreases k - i,
{
    if i < k {
        assert(s.subrange(0, k).drop_last() =~= s.subrange(0, k - 1));
        lemma_count_char_gap(s, c, i, k - 1);
    }
}

/// A character occurs no more often than the sequence is long.
proof fn lemma_count_char_le(s: Seq<char>, c: char)
    ensures
        count_char(s, c) <= s.len(),
    decreases s.len(),
{
    if s.len() > 0 {
        lemma_count_char_le(s.drop_last(), c);
    }
}

impl Excerpt {
    /// The rebased span ends on a character boundary of the excerpted text, and starts on one
    /// unless it starts past its end; its first line number plus its length fits in a `usize`.
    #[verifier::type_invariant]
    closed spec fn wf(self) -> bool {
        &&& self.text_end <= byte_len(self.text@)
        &&& is_char_boundary(self.text@, self.text_end as int)
        &&& self.text_start <= self.text_end ==> is_char_boundary(
            self.text@,
            self.text_start as int,
        )
        &&& self.line + byte_len(self.text@) <= usize::MAX
    }

    /// The model of this excerpt.
    pub closed spec fn spec_view(self) -> ExcerptV {
        ExcerptV {
            start: self.span.spec_start() as nat,
            end: self.span.spec_end() as nat,
            line: self.line as nat,
            column: self.column as nat,
            text: self.text@,
            text_start: self.text_start as nat,
            text_end: self.text_end as nat,
        }
    }

    /// Builds the excerpt of `input` covering `span`.
    pub fn new(input: &str, span: Span) -> (r: Excerpt)
        requires
            byte_len(input@) < usize::MAX,
        ensures
            r.spec_view() == spec_excerpt(
                input@,
                span.spec_start() as int,
                span.spec_end() as int,
            ),
    {
        let cs = chars_of(input);
        let s = cs.as_slice();
        let raw_end = if span.end() >= span.start() {
            span.end()
        } else {
            span.start()
        };
        let (ks, start) = clamp_to_char(s, span.start());
        let (ke, end) = clamp_to_char(s, raw_end);
        let (count, ls) = lines_before(s, ks);
        proof {
            lemma_line_start_bounds(cs@.subrange(0, ks as int));
            lemma_clamp_index_mono(cs@, span.spec_start() as int, raw_end as int);
            crate::text::lemma_byte_offset_ge_index(cs@, cs@.len() as int);
            assert(cs@.subrange(0, cs@.len() as int) =~= cs@);
        }
        let le = line_end(s, ke);
        proof {
            lemma_line_end_bounds(cs@, ke as int);
        }
        let te_full = trim_cr_end(s, ls, le);
        let text_all = substring(s, ls, te_full);
        let ls_byte = byte_pos(s, ls);
        proof {
            crate::text::lemma_byte_offset_mono(cs@, ls as int, ks as int);
            crate::text::lemma_byte_offset_mono(cs@, ks as int, ke as int);
            crate::text::lemma_byte_offset_mono(cs@, ke as int, cs@.len() as int);
            assert(cs@.subrange(0, cs@.len() as int) =~= cs@);
            lemma_byte_len_subrange(cs@, ls as int, te_full as int);
            crate::text::lemma_byte_offset_mono(cs@, te_full as int, cs@.len() as int);
        }
        let text_len = byte_pos(s, te_full) - ls_byte;
        let rel_end = end - ls_byte;
        let text_end = if rel_end <= text_len {
            rel_end
        } else {
            text_len
        };
        proof {
            let (l0, c0, _) = spec_locate(cs@, span.spec_start() as int);
            assert(l0 == count + 1);
        }
        proof {
            let v = cs@;
            let text = v.subrange(ls as int, te_full as int);
            assert(text_all@ == text);
            if ke <= te_full {
                lemma_offset_in_subrange(v, ls as int, ke as int, te_full as int);
                if rel_end <= text_len {
                    assert(byte_offset(text, ke - ls) == text_end);
                }
            } else {
                crate::text::lemma_byte_offset_mono(v, te_full as int, ke as int);
            }
            assert(text.subrange(0, text.len() as int) =~= text);
            assert(byte_offset(text, text.len() as int) == text_len);
            assert(is_char_boundary(text, text_end as int));
            if ks <= te_full {
                lemma_offset_in_subrange(v, ls as int, ks as int, te_full as int);
                assert(byte_offset(text, ks - ls) == start - ls_byte);
            } else {
                crate::text::lemma_byte_offset_mono(v, te_full as int, ks as int);
            }
            lemma_line_start_bounds(v.subrange(0, ks as int));
            lemma_count_char_gap(v, '\n', ls as int, ks as int);
            assert(v.subrange(0, ks as int).subrange(0, ls as int) =~= v.subrange(0, ls as int));
            lemma_count_char_le(v.subrange(0, ls as int), '\n');
            crate::text::lemma_byte_offset_ge_index(v, ls as int);
            assert(text_end <= byte_len(text));
            assert(start - ls_byte <= text_end ==> is_char_boundary(text, start - ls_byte));
            assert(count == count_char(v.subrange(0, ls as int), '\n'));
            assert(byte_len(text) == byte_offset(v, te_full as int) - byte_offset(v, ls as int));
            assert(count + 1 + byte_len(text) <= usize::MAX);
        }
        Excerpt {
            span: Span::new(start, end),
            line: count + 1,
            column: ks - ls + 1,
            text: text_all,
            text_start: start - ls_byte,
            text_end,
        }
    }

    /// Builds a zero-width excerpt pointing at `offset`, for a failure that has a position but
    /// no extent.
    pub fn at(input: &str, offset: usize) -> (r: Excerpt)
        requires
            byte_len(input@) < usize::MAX,
        ensures
            r.spec_view() == spec_excerpt(input@, offset as int, offset as int),
    {
        Excerpt::new(input, Span::new(offset, offset))
    }

    /// The input range this excerpt covers.
    pub fn span(&self) -> (r: Span)
        ensures
            r.spec_start() == self.spec_view().start,
            r.spec_end() == self.spec_view().end,
    {
        self.span
    }

    /// The 1-based line number the span starts on.
    pub fn line(&self) -> (r: usize)
        ensures
            r == self.spec_view().line,
    {
        self.line
    }

    /// The 1-based column number (in `char`s) the span starts at.
    pub fn column(&self) -> (r: usize)
        ensures
            r == self.spec_view().column,
    {
        self.column
    }

    /// The text of the line the span starts on, without its line break.
    pub fn line_text(&self) -> (r: String)
        ensures
            r@ == self.spec_view().text.subrange(
                0,
                line_end_from(self.spec_view().text, 0),
            ),
    {
        let cs = chars_of(self.text.as_str());
        let e = line_end(cs.as_slice(), 0);
        proof {
            lemma_line_end_bounds(cs@, 0);
        }
        substring(cs.as_slice(), 0, e)
    }

    /// The complete excerpted source: every line the span touches.
    pub fn text(&self) -> (r: &str)
        ensures
            r@ == self.spec_view().text,
    {
        self.text.as_str()
    }

    /// The span, rebased onto [`text`](Self::text) for rendering.
    pub fn span_in_text(&self) -> (r: core::ops::Range<usize>)
        ensures
            r.start == self.spec_view().text_start,
            r.end == self.spec_view().text_end,
    {
        self.text_start..self.text_end
    }
}

/// The byte position of the character index `k` of `cs`.
fn byte_pos(cs: &[char], k: usize) -> (r: usize)
    requires
        k <= cs@.len(),
        byte_len(cs@) <= usize::MAX,
    ensures
        r == byte_offset(cs@, k as int),
{
    let mut i: usize = 0;
    let mut pos: usize = 0;
    proof {
        assert(cs@.subrange(0, 0) =~= Seq::<char>::empty());
    }
    while i < k
        invariant
            i <= k <= cs@.len(),
            byte_len(cs@) <= usize::MAX,
            pos == byte_offset(cs@, i as int),
        decreases k - i,
    {
        proof {
            crate::text::lemma_byte_offset_step(cs@, i as int);
            crate::text::lemma_byte_offset_mono(cs@, i + 1, cs@.len() as int);
            assert(cs@.subrange(0, cs@.len() as int) =~= cs@);
        }
        pos = pos + char_width(cs[i]);
        i = i + 1;
    }
    pos
}

impl Clone for Excerpt {
    fn clone(&self) -> (r: Excerpt)
        ensures
            r == *self,
    {
        proof {
            use_type_invariant(self);
        }
        Excerpt {
            span: self.span,
            line: self.line,
            column: self.column,
            text: self.text.clone(),
            text_start: self.text_start,
            text_end: self.text_end,
        }
    }
}

impl ExcerptV {
    /// The rebased span ends within the excerpted text.
    pub open spec fn wf(self) -> bool {
        self.text_end <= byte_len(self.text)
    }
}


// ---------------------------------------------------------------------------------------------
// Rendering
// ---------------------------------------------------------------------------------------------
/// What `annotate_snippets` renders for an error titled `title` whose source lines `source`
/// start at line `line_start`, with the byte range `span_start..span_end` of `source` marked as
/// the primary annotation, through its plain (uncoloured) renderer.
pub uninterp spec fn annotated_report(
    title: Seq<char>,
    source: Seq<char>,
    line_start: nat,
    span_start: nat,
    span_end: nat,
) -> Seq<char>;

/// Renders one error-level report through `annotate_snippets`: `Renderer::plain().render` of a
/// `Group` titled `title` holding the `Snippet` `source`, numbered from `line_start`, with the
/// primary annotation `span_start..span_end`. The contract claims only that the result is the
/// named rendering of these arguments; the layout itself is `annotate_snippets`' own. Its
/// renderer slices `source` at both ends of the span and numbers lines from `line_start`
/// upward, so both ends must be character boundaries and the line numbers must fit.
#[verifier::external_body]
fn render_snippet(
    title: &str,
    source: &str,
    line_start: usize,
    span_start: usize,
    span_end: usize,
) -> (r: String)
    requires
        span_start <= span_end <= byte_len(source@),
        is_char_boundary(source@, span_start as int),
        is_char_boundary(source@, span_end as int),
        line_start + byte_len(source@) <= usize::MAX,
    ensures
        r@ == annotated_report(title@, source@, line_start as nat, span_start as nat, span_end as nat),
{
    let group = annotate_snippets::Group::with_title(
        annotate_snippets::Level::ERROR.primary_title(title),
    ).element(
        annotate_snippets::Snippet::source(source).line_start(line_start).annotation(
            annotate_snippets::AnnotationKind::Primary.span(span_start..span_end),
        ),
    );
    annotate_snippets::Renderer::plain().render(&[group])
}

/// The title used when the failing parser attached no message of its own.
pub open spec fn untitled() -> Seq<char> {
    seq!['i', 'n', 'v', 'a', 'l', 'i', 'd', ' ', 'Y', 'A', 'M', 'L', ' ', 's', 'y', 'n', 't', 'a', 'x']
}

/// The rendering of an error titled `title` that points at `excerpt`, if any: the title alone
/// when there is no excerpt (an empty title reads "invalid YAML syntax"), else the report
/// annotating the excerpt's span (its start moved onto its end should it lie past it).
pub open spec fn spec_render(title: Seq<char>, excerpt: Option<ExcerptV>) -> Seq<char> {
    let t = if title.len() == 0 {
        untitled()
    } else {
        title
    };
    match excerpt {
        None => t,
        Some(e) => annotated_report(
            t,
            e.text,
            e.line,
            if e.text_start <= e.text_end {
                e.text_start
            } else {
                e.text_end
            },
            e.text_end,
        ),
    }
}

/// The model of an optional excerpt.
pub open spec fn opt_excerpt_view(e: Option<Excerpt>) -> Option<ExcerptV> {
    match e {
        Some(x) => Some(x.spec_view()),
        None => None,
    }
}

/// Renders `title`, and the source it points at when there is one.
pub fn render(title: &str, excerpt: Option<&Excerpt>) -> (r: String)
    ensures
        r@ == spec_render(
            title@,
            match excerpt {
                Some(x) => Some(x.spec_view()),
                None => None,
            },
        ),
{
    let t: &str = if title.is_empty() {
        proof {
            reveal_strlit("invalid YAML syntax");
        }
        "invalid YAML syntax"
    } else {
        title
    };
    proof {
        reveal_strlit("invalid YAML syntax");
        assert("invalid YAML syntax"@ =~= untitled());
    }
    match excerpt {
        None => t.to_owned(),
        Some(e) => {
            proof {
                use_type_invariant(e);
            }
            let range = e.span_in_text();
            let start = if range.start <= range.end {
                range.start
            } else {
                range.end
            };
            render_snippet(t, e.text(), e.line(), start, range.end)
        },
    }
}

// ---------------------------------------------------------------------------------------------
// Errors
// ---------------------------------------------------------------------------------------------
/// A YAML syntax error that owns its diagnostic, so it doesn't borrow the parsed input.
#[derive(Debug, Clone, PartialEq, Eq)]
pub struct OwnedParseError {
    message: String,
    excerpt: Excerpt,
}

impl OwnedParseError {
    /// The parser's message.
    pub closed spec fn spec_message(self) -> Seq<char> {
        self.message@
    }

    /// The model of the excerpt the error points at.
    pub closed spec fn spec_excerpt(self) -> ExcerptV {
        self.excerpt.spec_view()
    }

    /// Builds an error for `offset` within `input`.
    pub fn from_parts(input: &str, offset: usize, message: String) -> (r: OwnedParseError)
        requires
            byte_len(input@) < usize::MAX,
        ensures
            r.spec_message() == message@,
            r.spec_excerpt() == spec_excerpt(input@, offset as int, offset as int),
    {
        OwnedParseError { message, excerpt: Excerpt::at(input, offset) }
    }

    /// The parser's own message, without the source excerpt. May be empty.
    pub fn message(&self) -> (r: &str)
        ensures
            r@ == self.spec_message(),
    {
        self.message.as_str()
    }

    /// The source this error points at.
    pub fn excerpt(&self) -> (r: &Excerpt)
        ensures
            r.spec_view() == self.spec_excerpt(),
    {
        &self.excerpt
    }

    /// The byte offset into the input where parsing failed: the greatest character boundary at
    /// or below the offset the error was built with (see
    /// [`lemma_error_offset_is_greatest_boundary`]).
    pub fn offset(&self) -> (r: usize)
        ensures
            r == self.spec_excerpt().start,
    {
        self.excerpt.span().start()
    }

    /// The 1-based line number of [`offset`](Self::offset).
    pub fn line(&self) -> (r: usize)
        ensures
            r == self.spec_excerpt().line,
    {
        self.excerpt.line()
    }

    /// The 1-based column number (in `char`s) of [`offset`](Self::offset).
    pub fn column(&self) -> (r: usize)
        ensures
            r == self.spec_excerpt().column,
    {
        self.excerpt.column()
    }

    /// The text of the line [`offset`](Self::offset) falls on, without its line break.
    pub fn line_text(&self) -> (r: String)
        ensures
            r@ == self.spec_excerpt().text.subrange(0, line_end_from(self.spec_excerpt().text, 0)),
    {
        self.excerpt.line_text()
    }

    /// The rendered diagnostic: the message as title, over the offending line with a caret.
    pub fn to_string(&self) -> (r: String)
        ensures
            r@ == spec_render(self.spec_message(), Some(self.spec_excerpt())),
    {
        render(self.message.as_str(), Some(&self.excerpt))
    }
}

/// `std::str::Utf8Error`, the error of a failed UTF-8 check.
#[verifier::external_type_specification]
#[verifier::external_body]
pub struct ExUtf8Error(std::str::Utf8Error);

/// `Clone` for `std::str::Utf8Error`, which std derives along with `Copy`: the clone is the value
/// itself.
pub assume_specification[ <std::str::Utf8Error as std::clone::Clone>::clone ](
    e: &std::str::Utf8Error,
) -> (r: std::str::Utf8Error)
    ensures
        r == *e,
;

/// Error type for parsing, resolution and deserialization.
#[derive(Debug, Clone, PartialEq)]
#[non_exhaustive]
pub enum Error {
    /// The input isn't valid YAML 1.2.2 syntax.
    Parse(OwnedParseError),
    /// The input parsed, but violates Core Schema tag resolution.
    Resolve(crate::resolve::ResolveError),
    /// A single document was expected, but the input holds a stream of more than one.
    MultipleDocuments,
    /// The bytes handed to deserialization aren't valid UTF-8.
    Utf8(std::str::Utf8Error),
    /// A deserializer rejected the shape or content of an otherwise-valid node; `excerpt`
    /// points at that node when its source text is known.
    Deserialize { message: String, excerpt: Option<Excerpt> },
}

/// The message of a failed UTF-8 check: `Utf8Error`'s `Display` from std. Nothing is claimed of
/// the text.
#[verifier::external_body]
fn utf8_error_message(e: &std::str::Utf8Error) -> String {
    format!("{e}")
}

/// The message of [`Error::MultipleDocuments`].
pub open spec fn multiple_documents_message() -> Seq<char> {
    "expected a single YAML document, found a stream of more than one"@
}

impl Error {
    /// The rendered diagnostic.
    pub fn to_string(&self) -> (r: String)
        ensures
            self matches Error::Parse(e) ==> r@ == spec_render(
                e.spec_message(),
                Some(e.spec_excerpt()),
            ),
            self matches Error::Resolve(e) ==> r@ == e.spec_rendered(),
            self is MultipleDocuments ==> r@ == multiple_documents_message(),
            self matches Error::Deserialize { message, excerpt } ==> r@ == spec_render(
                message@,
                opt_excerpt_view(*excerpt),
            ),
    {
        match self {
            Error::Parse(e) => e.to_string(),
            Error::Resolve(e) => e.to_string(),
            Error::MultipleDocuments => {
                "expected a single YAML document, found a stream of more than one".to_owned()
            },
            Error::Utf8(e) => utf8_error_message(e),
            Error::Deserialize { message, excerpt } => match excerpt {
                Some(x) => render(message.as_str(), Some(x)),
                None => render(message.as_str(), None),
            },
        }
    }
}

} // verus!
