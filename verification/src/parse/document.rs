//! Directives, documents and the stream: the top of the grammar.
use vstd::prelude::*;

use crate::parse::block::{block_node, spec_block_node};
use crate::parse::chars::{is_non_space, is_tag_char, spec_non_space, spec_tag_char, BOM};
use crate::parse::flow::{bare_node, empty_node, no_match};
use crate::parse::input::{Anchors, Handles, ParseState, Parsed, Text};
use crate::parse::properties::{spec_tag_handle, spec_uri_chars, tag_handle, uri_chars};
use crate::parse::spaces::{
    at, line_comment, line_comments, separate_in_line, spec_comment_lines, spec_line_comment,
    spec_line_comments, spec_separate_in_line, Context, IndentLevel,
};
use crate::text::string_of;
use crate::parse::tag_handles::default_handles;
use crate::resolve::roots_view;
use crate::value::{
    lemma_digits_value_prefix, spans_in, spec_digits_value, ContentV, Document, Node, NodeV,
};

verus! {

broadcast use vstd::std_specs::vec::group_vec_axioms;

/// A directive line.
#[derive(Debug, PartialEq)]
pub enum Directive {
    /// `%YAML`, with its version.
    Yaml { major: u32, minor: u32 },
    /// `%TAG`, registering `handle` for `prefix`.
    Tag { handle: String, prefix: String },
    /// Any other directive, which has no known meaning and is ignored.
    Reserved,
}

/// The model of a [`Directive`].
pub enum DirectiveV {
    Yaml { major: nat, minor: nat },
    Tag { handle: Seq<char>, prefix: Seq<char> },
    Reserved,
}

impl View for Directive {
    type V = DirectiveV;

    open spec fn view(&self) -> DirectiveV {
        match self {
            Directive::Yaml { major, minor } => DirectiveV::Yaml {
                major: *major as nat,
                minor: *minor as nat,
            },
            Directive::Tag { handle, prefix } => DirectiveV::Tag {
                handle: handle@,
                prefix: prefix@,
            },
            Directive::Reserved => DirectiveV::Reserved,
        }
    }
}

/// The end of the run of non-space characters at `q`.
pub open spec fn non_space_end(s: Seq<char>, q: int) -> int
    decreases s.len() - q,
{
    if 0 <= q < s.len() && spec_non_space(s[q]) {
        non_space_end(s, q + 1)
    } else {
        q
    }
}

/// The non-space characters at `p`: where they end, if there is at least one.
pub open spec fn spec_non_space_run(s: Seq<char>, p: int) -> Option<int> {
    if non_space_end(s, p) > p {
        Some(non_space_end(s, p))
    } else {
        None
    }
}

/// The end of the run of decimal digits at `q`.
pub open spec fn dec_end(s: Seq<char>, q: int) -> int
    decreases s.len() - q,
{
    if 0 <= q < s.len() && '0' <= s[q] <= '9' {
        dec_end(s, q + 1)
    } else {
        q
    }
}

/// `ns-dec-digit+` at `p`: the value of the digits and where they end; `None` when there is no
/// digit or the value does not fit a `u32`.
pub open spec fn spec_dec_number(s: Seq<char>, p: int) -> Option<(nat, int)> {
    let e = dec_end(s, p);
    if e > p && spec_digits_value(s.subrange(p, e), 10) <= u32::MAX {
        Some((spec_digits_value(s.subrange(p, e), 10), e))
    } else {
        None
    }
}

/// The parameters of a reserved directive from `q` on, each after white space: where they end.
pub open spec fn reserved_end(s: Seq<char>, q: int) -> int
    decreases s.len() - q,
{
    match spec_separate_in_line(s, q) {
        Some(x) => match spec_non_space_run(s, x) {
            Some(e) => if q < e <= s.len() {
                reserved_end(s, e)
            } else {
                q
            },
            None => q,
        },
        None => q,
    }
}

/// The directive itself at `p`, up to the comments after it: `%YAML` with a `1.x` version,
/// `%TAG` with a handle and a prefix, or any other name with its parameters.
pub open spec fn spec_directive_body(s: Seq<char>, p: int) -> Option<(DirectiveV, int)> {
    match spec_non_space_run(s, p + 1) {
        None => None,
        Some(name_end) => {
            let name = s.subrange(p + 1, name_end);
            if name == "YAML"@ {
                match spec_separate_in_line(s, name_end) {
                    None => None,
                    Some(x) => match spec_dec_number(s, x) {
                        None => None,
                        Some((major, a)) => if !(a < s.len() && s[a] == '.') {
                            None
                        } else {
                            match spec_dec_number(s, a + 1) {
                                None => None,
                                Some((minor, b)) => if major != 1 {
                                    None
                                } else {
                                    Some((DirectiveV::Yaml { major, minor }, b))
                                },
                            }
                        },
                    },
                }
            } else if name == "TAG"@ {
                match spec_separate_in_line(s, name_end) {
                    None => None,
                    Some(x) => match spec_tag_handle(s, x) {
                        None => None,
                        Some(h) => match spec_separate_in_line(s, h) {
                            None => None,
                            Some(a) => if !(a < s.len() && (s[a] == '!' || spec_tag_char(s[a]))) {
                                None
                            } else {
                                let b = match spec_uri_chars(s, a + 1, false) {
                                    Some(b) => b,
                                    None => a + 1,
                                };
                                Some(
                                    (
                                        DirectiveV::Tag {
                                            handle: s.subrange(x, h),
                                            prefix: s.subrange(a, b),
                                        },
                                        b,
                                    ),
                                )
                            },
                        },
                    },
                }
            } else {
                Some((DirectiveV::Reserved, reserved_end(s, name_end)))
            }
        },
    }
}

/// `l-directive` at `p`: `%`, a directive, then comments; the directive and where the
/// comments end.
pub open spec fn spec_directive(s: Seq<char>, p: int) -> Option<(DirectiveV, int)> {
    if !(0 <= p < s.len() && s[p] == '%') {
        None
    } else {
        match spec_directive_body(s, p) {
            Some((d, q)) => match spec_line_comments(s, q) {
                Some(e) => Some((d, e)),
                None => None,
            },
            None => None,
        }
    }
}

/// The position after the non-space characters at `p`, if there is at least one.
fn non_space_run(t: &Text, p: usize) -> (r: Option<usize>)
    requires
        p <= t.view().len(),
    ensures
        at(r) == spec_non_space_run(t.view(), p as int),
        r matches Some(q) ==> p < q <= t.view().len(),
{
    let mut q = p;
    while q < t.len() && is_non_space(t.peek(q).unwrap())
        invariant
            p <= q <= t.view().len(),
            non_space_end(t.view(), q as int) == non_space_end(t.view(), p as int),
        decreases t.view().len() - q,
    {
        q = q + 1;
    }
    if q > p {
        Some(q)
    } else {
        None
    }
}

/// `ns-dec-digit+` read as a `u32`; `None` when there is no digit or the value overflows.
fn dec_number(t: &Text, p: usize) -> (r: Option<(u32, usize)>)
    requires
        p <= t.view().len(),
    ensures
        match r {
            Some((v, q)) => spec_dec_number(t.view(), p as int) == Some((v as nat, q as int)),
            None => spec_dec_number(t.view(), p as int) is None,
        },
        r matches Some((_, q)) ==> p < q <= t.view().len(),
{
    let ghost s = t.view();
    let mut q = p;
    let mut v: u32 = 0;
    assert(s.subrange(p as int, p as int) =~= Seq::<char>::empty());
    loop
        invariant
            p <= q <= t.view().len(),
            s == t.view(),
            dec_end(s, q as int) == dec_end(s, p as int),
            v == spec_digits_value(s.subrange(p as int, q as int), 10),
        ensures
            p <= q <= t.view().len(),
            dec_end(s, p as int) == q,
            v == spec_digits_value(s.subrange(p as int, q as int), 10),
        decreases t.view().len() - q,
    {
        match t.peek(q) {
            Some(c) => if '0' <= c && c <= '9' {
                let d = (c as u32) - ('0' as u32);
                let ghost next = s.subrange(p as int, q + 1);
                proof {
                    assert(next.drop_last() =~= s.subrange(p as int, q as int));
                    assert(spec_digits_value(next, 10) == v * 10 + d);
                    lemma_dec_end_bounds(s, q + 1);
                    lemma_dec_prefix(s, p as int, q + 1);
                }
                match v.checked_mul(10) {
                    Some(m) => match m.checked_add(d) {
                        Some(n) => {
                            v = n;
                        },
                        None => return None,
                    },
                    None => return None,
                }
                q = q + 1;
            } else {
                break ;
            },
            None => break ,
        }
    }
    if q > p {
        Some((v, q))
    } else {
        None
    }
}

proof fn lemma_dec_end_bounds(s: Seq<char>, q: int)
    requires
        0 <= q <= s.len(),
    ensures
        q <= dec_end(s, q) <= s.len(),
    decreases s.len() - q,
{
    if q < s.len() && '0' <= s[q] <= '9' {
        lemma_dec_end_bounds(s, q + 1);
    }
}

/// The digits from `p` to `j` weigh no more than all the digits at `p`.
proof fn lemma_dec_prefix(s: Seq<char>, p: int, j: int)
    requires
        0 <= p <= j <= dec_end(s, p) <= s.len(),
    ensures
        spec_digits_value(s.subrange(p, j), 10) <= spec_digits_value(
            s.subrange(p, dec_end(s, p)),
            10,
        ),
{
    let all = s.subrange(p, dec_end(s, p));
    lemma_digits_value_prefix(all, 10, j - p);
    assert(all.subrange(0, j - p) =~= s.subrange(p, j));
}

/// `l-directive`: `%`, a YAML, TAG or reserved directive, then comments.
pub fn directive(t: &Text, p: usize) -> (r: Option<(Directive, usize)>)
    requires
        p <= t.view().len(),
    ensures
        match r {
            Some((d, q)) => spec_directive(t.view(), p as int) == Some((d@, q as int)),
            None => spec_directive(t.view(), p as int) is None,
        },
        r matches Some((_, q)) ==> p < q <= t.view().len(),
{
    if !t.is(p, '%') {
        return None;
    }
    let name_end = match non_space_run(t, p + 1) {
        Some(q) => q,
        None => return None,
    };
    let (d, q) = if crate::text::same_chars(t.chars(p + 1, name_end), crate::text::chars_of(
        "YAML",
    ).as_slice()) {
        // `%YAML` major.minor, major 1 only.
        let s = match separate_in_line(t, name_end) {
            Some(s) => s,
            None => return None,
        };
        let (major, a) = match dec_number(t, s) {
            Some(x) => x,
            None => return None,
        };
        if !t.is(a, '.') {
            return None;
        }
        let (minor, b) = match dec_number(t, a + 1) {
            Some(x) => x,
            None => return None,
        };
        if major != 1 {
            return None;
        }
        (Directive::Yaml { major, minor }, b)
    } else if crate::text::same_chars(t.chars(p + 1, name_end), crate::text::chars_of(
        "TAG",
    ).as_slice()) {
        // `%TAG` handle prefix.
        let s = match separate_in_line(t, name_end) {
            Some(s) => s,
            None => return None,
        };
        let h = match tag_handle(t, s) {
            Some(h) => h,
            None => return None,
        };
        let a = match separate_in_line(t, h) {
            Some(a) => a,
            None => return None,
        };
        let first_ok = match t.peek(a) {
            Some(c) => c == '!' || is_tag_char(c),
            None => false,
        };
        if !first_ok {
            return None;
        }
        let b = match uri_chars(t, a + 1, false) {
            Some(b) => b,
            None => a + 1,
        };
        let handle = string_of(t.chars(s, h));
        let prefix = string_of(t.chars(a, b));
        (Directive::Tag { handle, prefix }, b)
    } else {
        // A reserved directive: its name, then parameters each after white space.
        let mut q = name_end;
        loop
            invariant
                p < q <= t.view().len(),
                reserved_end(t.view(), q as int) == reserved_end(t.view(), name_end as int),
            ensures
                p < q <= t.view().len(),
                reserved_end(t.view(), name_end as int) == q,
            decreases t.view().len() - q,
        {
            match separate_in_line(t, q) {
                Some(s) => match non_space_run(t, s) {
                    Some(e) => {
                        q = e;
                    },
                    None => break ,
                },
                None => break ,
            }
        }
        (Directive::Reserved, q)
    };
    assert(spec_directive_body(t.view(), p as int) == Some((d@, q as int)));
    match line_comments(t, q) {
        Some(e) => Some((d, e)),
        None => None,
    }
}

/// `c-directives-end` at `p`: `---`.
pub open spec fn spec_directives_end(s: Seq<char>, p: int) -> bool {
    0 <= p && p + 3 <= s.len() && s[p] == '-' && s[p + 1] == '-' && s[p + 2] == '-'
}

/// `c-directives-end` at `p`: `---`.
pub fn directives_end(t: &Text, p: usize) -> (r: bool)
    requires
        p <= t.view().len(),
    ensures
        r == spec_directives_end(t.view(), p as int),
        r ==> p + 3 <= t.view().len(),
        t.view().len() < usize::MAX,
{
    let n = t.len();
    n - p >= 3 && t.is(p, '-') && t.is(p + 1, '-') && t.is(p + 2, '-')
}

// ---------------------------------------------------------------------------------------------
// Documents and the stream, as the grammar reads them
// ---------------------------------------------------------------------------------------------
/// A document's root and the position after it, as the grammar's values.
pub open spec fn doc_at(r: Option<(Document, usize)>) -> Option<(NodeV, int)> {
    match r {
        Some((d, q)) => Some((d.0@, q as int)),
        None => None,
    }
}

/// `l-bare-document` at `p`: a block node at the initial level, in the block-in context.
pub open spec fn spec_bare_document(s: Seq<char>, p: int, a: Anchors, h: Handles) -> Parsed<NodeV> {
    spec_block_node(s, p, 0, Context::BlockIn, a, h)
}

/// `l-explicit-document` at `p`: `---`, then a bare document, or else an empty node and
/// comments.
pub open spec fn spec_explicit_document(s: Seq<char>, p: int, a: Anchors, h: Handles) -> Parsed<
    NodeV,
> {
    if !spec_directives_end(s, p) {
        no_match(a)
    } else {
        let bd = spec_bare_document(s, p + 3, a, h);
        match bd.found {
            Some(_) => bd,
            None => Parsed {
                found: match spec_line_comments(s, p + 3) {
                    Some(e) => Some((bare_node(s, p + 3, p + 3, ContentV::Empty), e)),
                    None => None,
                },
                anchors: bd.anchors,
            },
        }
    }
}

/// `l-directive-document` at `p`: one or more directives, then an explicit document read with
/// the tag handles they declare.
pub open spec fn spec_directive_document(s: Seq<char>, p: int, a: Anchors, h: Handles) -> Option<
    (NodeV, int),
> {
    match spec_directives(s, p, false, Seq::empty(), h) {
        Some((q, handles)) => if q > p {
            spec_explicit_document(s, q, a, handles).found
        } else {
            None
        },
        None => None,
    }
}

/// `l-any-document` at `p`, each alternative read from a fresh document state (no anchors, the
/// default tag handles): a directive document, else a bare document, else an explicit one.
pub open spec fn spec_any_document(s: Seq<char>, p: int) -> Option<(NodeV, int)> {
    let a = Map::<Seq<char>, NodeV>::empty();
    let h = default_handles();
    match spec_directive_document(s, p, a, h) {
        Some(x) => Some(x),
        None => match spec_bare_document(s, p, a, h).found {
            Some(x) => Some(x),
            None => spec_explicit_document(s, p, a, h).found,
        },
    }
}

/// The head of the stream at `p`: document prefixes, then a document if there is one there.
pub open spec fn spec_stream_head(s: Seq<char>, p: int) -> (Option<NodeV>, int) {
    let q = spec_document_prefix(s, p);
    match spec_any_document(s, q) {
        Some((d, e)) => (Some(d), e),
        None => (None, q),
    }
}

/// The model of a [`StreamStep`].
pub enum StepV {
    Document(NodeV),
    Skipped,
    End,
}

/// One step of the stream's trailing group at `p`, and where it ends: after a `.`, document
/// suffixes, prefixes and maybe a document; a byte order mark; after a `-`, an explicit
/// document; or a comment line.
pub open spec fn spec_stream_step(s: Seq<char>, p: int) -> (StepV, int) {
    if !(0 <= p < s.len()) {
        (StepV::End, p)
    } else if s[p] == '.' {
        match spec_document_suffix(s, p) {
            None => (StepV::End, p),
            Some(q0) => {
                let q = prefixes_end(s, suffixes_end(s, q0));
                match spec_any_document(s, q) {
                    Some((d, e)) => (StepV::Document(d), e),
                    None => (StepV::Skipped, q),
                }
            },
        }
    } else if s[p] == BOM {
        (StepV::Skipped, p + 1)
    } else if s[p] == '-' {
        match spec_explicit_document(s, p, Map::empty(), default_handles()).found {
            Some((d, e)) => (StepV::Document(d), e),
            None => (StepV::End, p),
        }
    } else {
        match spec_line_comment(s, p) {
            Some(e) => if e > p {
                (StepV::Skipped, e)
            } else {
                (StepV::End, p)
            },
            None => (StepV::End, p),
        }
    }
}

/// The stream's trailing group from `q` on, after the documents `docs`: all the documents and
/// where the stream stops.
pub open spec fn spec_stream_from(s: Seq<char>, q: int, docs: Seq<NodeV>) -> (Seq<NodeV>, int)
    decreases s.len() - q,
{
    let (step, e) = spec_stream_step(s, q);
    match step {
        StepV::End => (docs, q),
        StepV::Document(d) => if q < e <= s.len() {
            spec_stream_from(s, e, docs.push(d))
        } else {
            (docs, q)
        },
        StepV::Skipped => if q < e <= s.len() {
            spec_stream_from(s, e, docs)
        } else {
            (docs, q)
        },
    }
}

/// The documents before a point of the stream come first, whatever follows: reading the rest
/// after `docs` gives `docs` followed by what reading the rest alone gives, and stops at the
/// same position.
pub proof fn lemma_stream_from_acc(s: Seq<char>, q: int, docs: Seq<NodeV>)
    ensures
        spec_stream_from(s, q, docs) == (
            docs + spec_stream_from(s, q, Seq::empty()).0,
            spec_stream_from(s, q, Seq::empty()).1,
        ),
    decreases s.len() - q,
{
    let (step, e) = spec_stream_step(s, q);
    match step {
        StepV::End => {
            assert(docs + Seq::<NodeV>::empty() =~= docs);
        },
        StepV::Document(d) => if q < e <= s.len() {
            lemma_stream_from_acc(s, e, docs.push(d));
            lemma_stream_from_acc(s, e, Seq::empty().push(d));
            let rest = spec_stream_from(s, e, Seq::empty()).0;
            assert(docs.push(d) + rest =~= docs + (Seq::empty().push(d) + rest));
        } else {
            assert(docs + Seq::<NodeV>::empty() =~= docs);
        },
        StepV::Skipped => if q < e <= s.len() {
            lemma_stream_from_acc(s, e, docs);
        } else {
            assert(docs + Seq::<NodeV>::empty() =~= docs);
        },
    }
}

/// `l-yaml-stream` at `p`: the roots of its documents, and where the stream stops.
pub open spec fn spec_yaml_stream(s: Seq<char>, p: int) -> (Seq<NodeV>, int) {
    let (head, q) = spec_stream_head(s, p);
    spec_stream_from(
        s,
        q,
        match head {
            Some(d) => seq![d],
            None => Seq::empty(),
        },
    )
}

/// `l-bare-document`: a block node at the initial level, in the block-in context.
pub fn bare_document(t: &Text, st: &mut ParseState, p: usize) -> (r: Option<(Document, usize)>)
    requires
        p <= t.view().len(),
        old(st).anchors_within(t.view()),
    ensures
        final(st).anchors_within(t.view()),
        final(st).tag_handles == old(st).tag_handles,
        spec_bare_document(t.view(), p as int, old(st).anchors@, old(st).tag_handles@) == (Parsed {
            found: doc_at(r),
            anchors: final(st).anchors@,
        }),
        r matches Some((d, _)) ==> spans_in(d.0@, t.view()),
        r matches Some((_, q)) ==> p < q <= t.view().len(),
{
    match block_node(t, st, p, IndentLevel::initial(), Context::BlockIn) {
        Some((n, q)) => Some((Document::new(n), q)),
        None => None,
    }
}

/// `l-explicit-document`: `---`, then a bare document, or an empty node and comments.
pub fn explicit_document(t: &Text, st: &mut ParseState, p: usize) -> (r: Option<(Document, usize)>)
    requires
        p <= t.view().len(),
        old(st).anchors_within(t.view()),
    ensures
        final(st).anchors_within(t.view()),
        final(st).tag_handles == old(st).tag_handles,
        spec_explicit_document(t.view(), p as int, old(st).anchors@, old(st).tag_handles@) == (Parsed {
            found: doc_at(r),
            anchors: final(st).anchors@,
        }),
        r is Some ==> spec_directives_end(t.view(), p as int),
        spec_directives_end(t.view(), p as int) && spec_line_comments(t.view(), p + 3) is Some
            ==> r is Some,
        r matches Some((d, _)) ==> spans_in(d.0@, t.view()),
        r matches Some((_, q)) ==> p < q <= t.view().len(),
{
    if !directives_end(t, p) {
        return None;
    }
    let q = p + 3;
    match bare_document(t, st, q) {
        Some(x) => return Some(x),
        None => {},
    }
    match line_comments(t, q) {
        Some(e) => Some((Document::new(empty_node(t, q)), e)),
        None => None,
    }
}

/// The names of some strings.
pub open spec fn names_view(names: Seq<String>) -> Seq<Seq<char>> {
    names.map_values(|n: String| n@)
}

/// The directives from `q` on, `seen_yaml` telling whether a `%YAML` directive came before and
/// `seen` holding the handles declared before, `handles` being the tag handles so far: where the
/// directives end and the tag handles they leave; `None` at a second `%YAML` directive or a
/// handle declared twice.
pub open spec fn spec_directives(
    s: Seq<char>,
    q: int,
    seen_yaml: bool,
    seen: Seq<Seq<char>>,
    handles: Map<Seq<char>, Seq<char>>,
) -> Option<(int, Map<Seq<char>, Seq<char>>)>
    decreases s.len() - q,
{
    match spec_directive(s, q) {
        Some((d, e)) => if !(q < e <= s.len()) {
            None
        } else {
            match d {
                DirectiveV::Yaml { .. } => if seen_yaml {
                    None
                } else {
                    spec_directives(s, e, true, seen, handles)
                },
                DirectiveV::Tag { handle, prefix } => if seen.contains(handle) {
                    None
                } else {
                    spec_directives(s, e, seen_yaml, seen.push(handle), handles.insert(handle, prefix))
                },
                DirectiveV::Reserved => spec_directives(s, e, seen_yaml, seen, handles),
            }
        },
        None => Some((q, handles)),
    }
}

/// `l-directive-document`: one or more directives, then an explicit document. At most one
/// `%YAML` directive, and each tag handle declared at most once; `%TAG` registers its handle.
pub fn directive_document(t: &Text, st: &mut ParseState, p: usize) -> (r: Option<
    (Document, usize),
>)
    requires
        p <= t.view().len(),
        old(st).anchors_within(t.view()),
    ensures
        final(st).anchors_within(t.view()),
        doc_at(r) == spec_directive_document(t.view(), p as int, old(st).anchors@, old(st).tag_handles@),
        r is Some ==> (spec_directives(t.view(), p as int, false, Seq::empty(), old(st).tag_handles@)
            matches Some((q, h)) && p < q && spec_directives_end(t.view(), q)
            && final(st).tag_handles@ == h),
        (spec_directives(t.view(), p as int, false, Seq::empty(), old(st).tag_handles@) matches Some(
            (q, _),
        ) && p < q && spec_directives_end(t.view(), q) && spec_line_comments(t.view(), q + 3)
            is Some) ==> r is Some,
        r matches Some((d, _)) ==> spans_in(d.0@, t.view()),
        r matches Some((_, q)) ==> p < q <= t.view().len(),
{
    let ghost s = t.view();
    let ghost start = old(st).tag_handles@;
    let mut q = p;
    let mut seen_yaml = false;
    let mut seen_handles: Vec<String> = Vec::new();
    assert(names_view(seen_handles@) =~= Seq::<Seq<char>>::empty());
    loop
        invariant
            p <= q <= t.view().len(),
            s == t.view(),
            start == old(st).tag_handles@,
            st.anchors == old(st).anchors,
            st.anchors_within(t.view()),
            spec_directives(s, p as int, false, Seq::empty(), start) == spec_directives(
                s,
                q as int,
                seen_yaml,
                names_view(seen_handles@),
                st.tag_handles@,
            ),
            seen_yaml || q > p || st.tag_handles@ == start,
        ensures
            p <= q <= t.view().len(),
            s == t.view(),
            st.anchors == old(st).anchors,
            st.anchors_within(t.view()),
            spec_directives(s, p as int, false, Seq::empty(), start) == Some(
                (q as int, st.tag_handles@),
            ),
        decreases t.view().len() - q,
    {
        match directive(t, q) {
            Some((Directive::Yaml { .. }, e)) => {
                if seen_yaml {
                    return None;
                }
                seen_yaml = true;
                q = e;
            },
            Some((Directive::Tag { handle, prefix }, e)) => {
                if contains_name(&seen_handles, handle.as_str()) {
                    return None;
                }
                let ghost before = seen_handles@;
                seen_handles.push(handle.clone());
                assert(names_view(seen_handles@) =~= names_view(before).push(handle@));
                st.tag_handles.put(handle, prefix);
                q = e;
            },
            Some((Directive::Reserved, e)) => {
                q = e;
            },
            None => break ,
        }
    }
    if q == p {
        return None;
    }
    match explicit_document(t, st, q) {
        Some((d, e)) => Some((d, e)),
        None => None,
    }
}

/// Whether `names` holds `name`.
fn contains_name(names: &Vec<String>, name: &str) -> (r: bool)
    ensures
        r == names_view(names@).contains(name@),
{
    let target = crate::text::chars_of(name);
    let mut i: usize = 0;
    while i < names.len()
        invariant
            i <= names@.len(),
            target@ == name@,
            forall|j: int| 0 <= j < i ==> names@[j]@ != name@,
        decreases names@.len() - i,
    {
        let n = crate::text::chars_of(names[i].as_str());
        if crate::text::same_chars(n.as_slice(), target.as_slice()) {
            assert(names_view(names@)[i as int] == name@);
            return true;
        }
        i = i + 1;
    }
    assert forall|j: int| 0 <= j < names_view(names@).len() implies names_view(names@)[j]
        != name@ by {
        assert(names_view(names@)[j] == names@[j]@);
    }
    false
}

/// Resets the per-document parse state: anchors and tag handles are document-scoped.
pub fn reset_document_state(st: &mut ParseState)
    ensures
        final(st).anchors@ == Map::<Seq<char>, crate::value::NodeV>::empty(),
        final(st).tag_handles@ == crate::parse::tag_handles::default_handles(),
        forall|s: Seq<char>| final(st).anchors_within(s),
{
    st.anchors.clear();
    st.tag_handles.clear();
}

/// `l-any-document`, after resetting the document state: a directive document, a bare
/// document, or an explicit document.
pub fn any_document(t: &Text, st: &mut ParseState, p: usize) -> (r: Option<(Document, usize)>)
    requires
        p <= t.view().len(),
        old(st).anchors_within(t.view()),
    ensures
        final(st).anchors_within(t.view()),
        doc_at(r) == spec_any_document(t.view(), p as int),
        r matches Some((d, _)) ==> spans_in(d.0@, t.view()),
        r matches Some((_, q)) ==> p < q <= t.view().len(),
{
    reset_document_state(st);
    match directive_document(t, st, p) {
        Some(x) => return Some(x),
        None => {},
    }
    reset_document_state(st);
    match bare_document(t, st, p) {
        Some(x) => return Some(x),
        None => {},
    }
    reset_document_state(st);
    explicit_document(t, st, p)
}

/// `l-document-prefix` at `p`: an optional byte order mark, then comment lines; where they end.
pub open spec fn spec_document_prefix(s: Seq<char>, p: int) -> int {
    spec_comment_lines(
        s,
        if 0 <= p < s.len() && s[p] == BOM {
            p + 1
        } else {
            p
        },
    )
}

/// `l-document-suffix` at `p`: `...`, then comments; where they end.
pub open spec fn spec_document_suffix(s: Seq<char>, p: int) -> Option<int> {
    if 0 <= p && p + 3 <= s.len() && s[p] == '.' && s[p + 1] == '.' && s[p + 2] == '.' {
        spec_line_comments(s, p + 3)
    } else {
        None
    }
}

/// Where the document suffixes from `q` on end.
pub open spec fn suffixes_end(s: Seq<char>, q: int) -> int
    decreases s.len() - q,
{
    match spec_document_suffix(s, q) {
        Some(e) => if q < e <= s.len() {
            suffixes_end(s, e)
        } else {
            q
        },
        None => q,
    }
}

/// Where the document prefixes that take at least one character, from `q` on, end.
pub open spec fn prefixes_end(s: Seq<char>, q: int) -> int
    decreases s.len() - q,
{
    let e = spec_document_prefix(s, q);
    if q < e <= s.len() {
        prefixes_end(s, e)
    } else {
        q
    }
}

/// `l-document-prefix`: an optional byte order mark, then comment lines.
pub fn document_prefix(t: &Text, p: usize) -> (r: usize)
    requires
        p <= t.view().len(),
    ensures
        r == spec_document_prefix(t.view(), p as int),
        p <= r <= t.view().len(),
{
    let q = if t.is(p, BOM) {
        p + 1
    } else {
        p
    };
    crate::parse::spaces::comment_lines(t, q)
}

/// `l-document-suffix`: `...`, then comments.
pub fn document_suffix(t: &Text, p: usize) -> (r: Option<usize>)
    requires
        p <= t.view().len(),
    ensures
        at(r) == spec_document_suffix(t.view(), p as int),
        r matches Some(q) ==> p < q <= t.view().len(),
{
    let n = t.len();
    if n - p >= 3 && t.is(p, '.') && t.is(p + 1, '.') && t.is(p + 2, '.') {
        line_comments(t, p + 3)
    } else {
        None
    }
}

/// One element of the stream's trailing group.
#[derive(Debug, PartialEq)]
pub enum StreamStep {
    /// This step produced a document.
    Document(Document),
    /// This step consumed input (a byte order mark, a comment line, a `...` suffix) without
    /// producing a document.
    Skipped,
    /// There are no further stream elements; the position is left where it was.
    End,
}

impl View for StreamStep {
    type V = StepV;

    open spec fn view(&self) -> StepV {
        match self {
            StreamStep::Document(d) => StepV::Document(d.0@),
            StreamStep::Skipped => StepV::Skipped,
            StreamStep::End => StepV::End,
        }
    }
}

/// The head of the stream: document prefixes, then maybe a document.
pub fn stream_head(t: &Text, st: &mut ParseState, p: usize) -> (r: (Option<Document>, usize))
    requires
        p <= t.view().len(),
        old(st).anchors_within(t.view()),
    ensures
        final(st).anchors_within(t.view()),
        r.0 matches Some(d) ==> spans_in(d.0@, t.view()),
        (match r.0 {
            Some(d) => Some(d.0@),
            None => None,
        }, r.1 as int) == spec_stream_head(t.view(), p as int),
        r.0 is None ==> r.1 == spec_document_prefix(t.view(), p as int),
        p <= r.1 <= t.view().len(),
{
    let q = document_prefix(t, p);
    match any_document(t, st, q) {
        Some((d, e)) => (Some(d), e),
        None => (None, q),
    }
}

/// One iteration of the stream's trailing group: after a `.`, document suffixes, prefixes and
/// maybe a document; after a `-`, an explicit document; a byte order mark; or a comment line.
/// `End` when none of these match here, or they match nothing before the end of the text.
pub fn stream_step(t: &Text, st: &mut ParseState, p: usize) -> (r: (StreamStep, usize))
    requires
        p <= t.view().len(),
        old(st).anchors_within(t.view()),
    ensures
        final(st).anchors_within(t.view()),
        r.0 matches StreamStep::Document(d) ==> spans_in(d.0@, t.view()),
        p <= r.1 <= t.view().len(),
        r.0 is End ==> r.1 == p,
        !(r.0 is End) ==> p < r.1,
        (r.0@, r.1 as int) == spec_stream_step(t.view(), p as int),
{
    let c = match t.peek(p) {
        Some(c) => c,
        None => return (StreamStep::End, p),
    };
    if c == '.' {
        let mut q = match document_suffix(t, p) {
            Some(q) => q,
            None => return (StreamStep::End, p),
        };
        let ghost q0 = q;
        loop
            invariant
                p < q <= t.view().len(),
                suffixes_end(t.view(), q0 as int) == suffixes_end(t.view(), q as int),
            ensures
                p < q <= t.view().len(),
                suffixes_end(t.view(), q0 as int) == q,
            decreases t.view().len() - q,
        {
            match document_suffix(t, q) {
                Some(e) => {
                    q = e;
                },
                None => break ,
            }
        }
        let ghost q1 = q;
        loop
            invariant
                p < q <= t.view().len(),
                prefixes_end(t.view(), q1 as int) == prefixes_end(t.view(), q as int),
            ensures
                p < q <= t.view().len(),
                prefixes_end(t.view(), q1 as int) == q,
            decreases t.view().len() - q,
        {
            let e = document_prefix(t, q);
            if e > q {
                q = e;
            } else {
                break ;
            }
        }
        match any_document(t, st, q) {
            Some((d, e)) => (StreamStep::Document(d), e),
            None => (StreamStep::Skipped, q),
        }
    } else if c == BOM {
        (StreamStep::Skipped, p + 1)
    } else if c == '-' {
        reset_document_state(st);
        match explicit_document(t, st, p) {
            Some((d, e)) => (StreamStep::Document(d), e),
            None => (StreamStep::End, p),
        }
    } else {
        match line_comment(t, p) {
            Some(e) => if e > p {
                (StreamStep::Skipped, e)
            } else {
                (StreamStep::End, p)
            },
            None => (StreamStep::End, p),
        }
    }
}

/// `l-yaml-stream`: the head, then stream steps until none is left. Returns the documents and
/// the position the stream stops at.
pub fn yaml_stream(t: &Text, st: &mut ParseState, p: usize) -> (r: (Vec<Document>, usize))
    requires
        p <= t.view().len(),
        old(st).anchors_within(t.view()),
    ensures
        final(st).anchors_within(t.view()),
        (roots_view(r.0@), r.1 as int) == spec_yaml_stream(t.view(), p as int),
        forall|k: int| 0 <= k < r.0@.len() ==> spans_in(#[trigger] r.0@[k].0@, t.view()),
        p <= r.1 <= t.view().len(),
{
    let mut docs: Vec<Document> = Vec::new();
    let (head, q0) = stream_head(t, st, p);
    match head {
        Some(d) => docs.push(d),
        None => {},
    }
    let ghost goal = spec_yaml_stream(t.view(), p as int);
    proof {
        assert(roots_view(docs@) =~= (match head {
            Some(d) => seq![d.0@],
            None => Seq::empty(),
        }));
    }
    let mut q = q0;
    loop
        invariant
            p <= q <= t.view().len(),
            st.anchors_within(t.view()),
            forall|k: int| 0 <= k < docs@.len() ==> spans_in(#[trigger] docs@[k].0@, t.view()),
            goal == spec_yaml_stream(t.view(), p as int),
            goal == spec_stream_from(t.view(), q as int, roots_view(docs@)),
        decreases t.view().len() - q,
    {
        let (step, e) = stream_step(t, st, q);
        match step {
            StreamStep::Document(d) => {
                let ghost before = docs@;
                docs.push(d);
                proof {
                    assert(roots_view(docs@) =~= roots_view(before).push(d.0@));
                }
                q = e;
            },
            StreamStep::Skipped => {
                q = e;
            },
            StreamStep::End => return (docs, q),
        }
    }
}

/// A single document with its prefix: the head of a stream, when it holds a document.
pub fn yaml_document(t: &Text, st: &mut ParseState, p: usize) -> (r: Option<(Document, usize)>)
    requires
        p <= t.view().len(),
        old(st).anchors_within(t.view()),
    ensures
        final(st).anchors_within(t.view()),
        doc_at(r) == (match spec_stream_head(t.view(), p as int) {
            (Some(d), q) => Some((d, q)),
            (None, _) => None,
        }),
        r matches Some((d, _)) ==> spans_in(d.0@, t.view()),
        r matches Some((_, q)) ==> p <= q <= t.view().len(),
{
    match stream_head(t, st, p) {
        (Some(d), q) => Some((d, q)),
        (None, _) => None,
    }
}

} // verus!
