//! Node properties (anchor and tag), aliases, and building a node out of its properties and
//! content.
use vstd::prelude::*;

use crate::parse::chars::{
    is_flow_indicator, is_hex_digit, is_non_space, is_tag_char, is_uri_char_single, is_word_char,
    spec_flow_indicator, spec_hex_digit, spec_non_space, spec_tag_char, spec_uri_char_single,
    spec_word_char,
};
use crate::parse::input::{node_at, text_span, Anchors, Handles, ParseState, Text};
use crate::parse::scalar::text_at;
use crate::parse::spaces::{at, separate, spec_separate, Context, IndentLevel};
use crate::parse::tag_handles::TagHandles;
use crate::text::string_of;
use crate::value::{
    content_spans_in, spans_in, Content, ContentV, Node, NodeV, Span, SpanSlot, Tag, TagV,
};

verus! {

/// The tag property, before being resolved against the tag-handle map.
#[derive(Debug, Clone, PartialEq)]
pub enum TagProperty {
    /// `!<uri>`, delivered as written.
    Verbatim(String),
    /// A tag handle and a non-empty suffix.
    Shorthand { handle: String, suffix: String },
    /// The bare `!`.
    NonSpecific,
}

/// The model of a [`TagProperty`].
pub enum TagPropertyV {
    Verbatim(Seq<char>),
    Shorthand { handle: Seq<char>, suffix: Seq<char> },
    NonSpecific,
}

impl View for TagProperty {
    type V = TagPropertyV;

    open spec fn view(&self) -> TagPropertyV {
        match self {
            TagProperty::Verbatim(s) => TagPropertyV::Verbatim(s@),
            TagProperty::Shorthand { handle, suffix } => TagPropertyV::Shorthand {
                handle: handle@,
                suffix: suffix@,
            },
            TagProperty::NonSpecific => TagPropertyV::NonSpecific,
        }
    }
}

/// The tag a property stands for under `handles`: a verbatim tag as written, a shorthand as
/// its handle's prefix followed by its suffix, and `None` for a shorthand whose handle was
/// never declared.
pub open spec fn spec_resolve_tag_property(
    handles: Map<Seq<char>, Seq<char>>,
    prop: TagPropertyV,
) -> Option<TagV> {
    match prop {
        TagPropertyV::Verbatim(s) => Some(TagV::Global(s)),
        TagPropertyV::NonSpecific => Some(TagV::NonSpecific),
        TagPropertyV::Shorthand { handle, suffix } => if handles.contains_key(handle) {
            Some(TagV::Global(handles[handle] + suffix))
        } else {
            None
        },
    }
}

/// Resolves a parsed [`TagProperty`] against the tag-handle map into a [`Tag`]. Returns `None`
/// when a shorthand's handle was never declared (no default, and no matching `%TAG` directive).
pub fn resolve_tag(tag_handles: &TagHandles, prop: TagProperty) -> (r: Option<Tag>)
    ensures
        match r {
            Some(t) => spec_resolve_tag_property(tag_handles@, prop@) == Some(t@),
            None => spec_resolve_tag_property(tag_handles@, prop@) is None,
        },
{
    match prop {
        TagProperty::Verbatim(s) => Some(Tag::Global(s)),
        TagProperty::NonSpecific => Some(Tag::NonSpecific),
        TagProperty::Shorthand { handle, suffix } => match tag_handles.get(handle.as_str()) {
            Some(prefix) => {
                let mut s = prefix.clone();
                s.append(suffix.as_str());
                Some(Tag::Global(s))
            },
            None => None,
        },
    }
}

/// `%` and two hex digits at `i`.
pub open spec fn spec_percent_escape(s: Seq<char>, i: int) -> bool {
    &&& 0 <= i
    &&& i + 3 <= s.len()
    &&& s[i] == '%'
    &&& spec_hex_digit(s[i + 1])
    &&& spec_hex_digit(s[i + 2])
}

/// The end of the run of URI characters (tag characters when `tag_only`) and `%XX` escapes at
/// `q`.
pub open spec fn uri_end(s: Seq<char>, q: int, tag_only: bool) -> int
    decreases s.len() - q,
{
    if 0 <= q < s.len() && (if tag_only {
        spec_tag_char(s[q])
    } else {
        spec_uri_char_single(s[q])
    }) {
        uri_end(s, q + 1, tag_only)
    } else if spec_percent_escape(s, q) {
        uri_end(s, q + 3, tag_only)
    } else {
        q
    }
}

/// `ns-uri-char+` at `p` (`ns-tag-char+` when `tag_only`): where the run ends, if it is not
/// empty.
pub open spec fn spec_uri_chars(s: Seq<char>, p: int, tag_only: bool) -> Option<int> {
    if uri_end(s, p, tag_only) > p {
        Some(uri_end(s, p, tag_only))
    } else {
        None
    }
}

/// The end of the run of word characters at `q`.
pub open spec fn word_end(s: Seq<char>, q: int) -> int
    decreases s.len() - q,
{
    if 0 <= q < s.len() && spec_word_char(s[q]) {
        word_end(s, q + 1)
    } else {
        q
    }
}

/// `c-tag-handle` at `p`: a named handle, else the secondary `!!`, else the primary `!`; where
/// it ends.
pub open spec fn spec_tag_handle(s: Seq<char>, p: int) -> Option<int> {
    if !(0 <= p < s.len() && s[p] == '!') {
        None
    } else if word_end(s, p + 1) > p + 1 && word_end(s, p + 1) < s.len() && s[word_end(
        s,
        p + 1,
    )] == '!' {
        Some(word_end(s, p + 1) + 1)
    } else if p + 1 < s.len() && s[p + 1] == '!' {
        Some(p + 2)
    } else {
        Some(p + 1)
    }
}

/// A verbatim tag `!<uri>` at `p`, the uri not being the bare `!`.
pub open spec fn spec_verbatim_tag(s: Seq<char>, p: int) -> Option<(TagPropertyV, int)> {
    if p + 1 < s.len() && s[p + 1] == '<' {
        match spec_uri_chars(s, p + 2, false) {
            Some(q) => if q < s.len() && s[q] == '>' && !(q == p + 3 && s[p + 2] == '!') {
                Some((TagPropertyV::Verbatim(s.subrange(p + 2, q)), q + 1))
            } else {
                None
            },
            None => None,
        }
    } else {
        None
    }
}

/// `c-ns-tag-property` at `p`: a verbatim tag, else a shorthand (a handle and a non-empty
/// suffix), else the non-specific `!`.
pub open spec fn spec_tag_property(s: Seq<char>, p: int) -> Option<(TagPropertyV, int)> {
    if !(0 <= p < s.len() && s[p] == '!') {
        None
    } else {
        match spec_verbatim_tag(s, p) {
            Some(x) => Some(x),
            None => match spec_tag_handle(s, p) {
                Some(h) => match spec_uri_chars(s, h, true) {
                    Some(q) => Some(
                        (
                            TagPropertyV::Shorthand {
                                handle: s.subrange(p, h),
                                suffix: s.subrange(h, q),
                            },
                            q,
                        ),
                    ),
                    None => Some((TagPropertyV::NonSpecific, p + 1)),
                },
                None => Some((TagPropertyV::NonSpecific, p + 1)),
            },
        }
    }
}

/// The end of the run of anchor characters (non-space characters other than the flow
/// indicators) at `q`.
pub open spec fn anchor_end(s: Seq<char>, q: int) -> int
    decreases s.len() - q,
{
    if 0 <= q < s.len() && spec_non_space(s[q]) && !spec_flow_indicator(s[q]) {
        anchor_end(s, q + 1)
    } else {
        q
    }
}

/// `ns-anchor-name` at `p`: where it ends, if it is not empty.
pub open spec fn spec_anchor_name(s: Seq<char>, p: int) -> Option<int> {
    if anchor_end(s, p) > p {
        Some(anchor_end(s, p))
    } else {
        None
    }
}

/// `c-ns-anchor-property` at `p`: `&` and an anchor name; the name and where it ends.
pub open spec fn spec_anchor_property(s: Seq<char>, p: int) -> Option<(Seq<char>, int)> {
    if 0 <= p < s.len() && s[p] == '&' {
        match spec_anchor_name(s, p + 1) {
            Some(q) => Some((s.subrange(p + 1, q), q)),
            None => None,
        }
    } else {
        None
    }
}

/// A tag property and the position after it, as the grammar's values.
pub open spec fn tag_at(r: Option<(TagProperty, usize)>) -> Option<(TagPropertyV, int)> {
    match r {
        Some((tp, q)) => Some((tp@, q as int)),
        None => None,
    }
}

/// The `%XX` escape at `i`: a `%` and two hex digits.
fn percent_escape(t: &Text, i: usize) -> (r: bool)
    requires
        i <= t.view().len(),
    ensures
        r == spec_percent_escape(t.view(), i as int),
        r ==> i + 3 <= t.view().len(),
{
    let n = t.len();
    if n - i < 3 || !t.is(i, '%') {
        return false;
    }
    is_hex_digit(t.peek(i + 1).unwrap()) && is_hex_digit(t.peek(i + 2).unwrap())
}

/// `ns-uri-char+` (`tag_only` narrows it to `ns-tag-char+`): the position after the run, if it
/// is not empty.
pub fn uri_chars(t: &Text, p: usize, tag_only: bool) -> (r: Option<usize>)
    requires
        p <= t.view().len(),
    ensures
        at(r) == spec_uri_chars(t.view(), p as int, tag_only),
        r matches Some(q) ==> p < q <= t.view().len(),
{
    let mut q = p;
    loop
        invariant
            p <= q <= t.view().len(),
            uri_end(t.view(), q as int, tag_only) == uri_end(t.view(), p as int, tag_only),
        ensures
            p <= q <= t.view().len(),
            uri_end(t.view(), p as int, tag_only) == q,
        decreases t.view().len() - q,
    {
        match t.peek(q) {
            Some(c) => {
                let single = if tag_only {
                    is_tag_char(c)
                } else {
                    is_uri_char_single(c)
                };
                if single {
                    q = q + 1;
                } else if percent_escape(t, q) {
                    q = q + 3;
                } else {
                    break ;
                }
            },
            None => break ,
        }
    }
    if q > p {
        Some(q)
    } else {
        None
    }
}

/// `c-tag-handle`: a named handle (`!` word characters `!`), the secondary `!!`, or the
/// primary `!`. Returns the position after it.
pub fn tag_handle(t: &Text, p: usize) -> (r: Option<usize>)
    requires
        p <= t.view().len(),
    ensures
        at(r) == spec_tag_handle(t.view(), p as int),
        r matches Some(q) ==> p < q <= t.view().len(),
{
    if !t.is(p, '!') {
        return None;
    }
    let mut q = p + 1;
    while q < t.len() && is_word_char(t.peek(q).unwrap())
        invariant
            p < q <= t.view().len(),
            word_end(t.view(), q as int) == word_end(t.view(), p + 1),
        decreases t.view().len() - q,
    {
        q = q + 1;
    }
    if q > p + 1 && t.is(q, '!') {
        return Some(q + 1);
    }
    if t.is(p + 1, '!') {
        Some(p + 2)
    } else {
        Some(p + 1)
    }
}

/// `c-ns-tag-property`: a verbatim tag, a shorthand tag, or the non-specific tag.
pub fn tag_property(t: &Text, p: usize) -> (r: Option<(TagProperty, usize)>)
    requires
        p <= t.view().len(),
    ensures
        tag_at(r) == spec_tag_property(t.view(), p as int),
        r matches Some((_, q)) ==> p < q <= t.view().len(),
{
    if !t.is(p, '!') {
        return None;
    }
    // `!<uri>`, where the uri is not the bare `!`.
    if t.is(p + 1, '<') {
        match uri_chars(t, p + 2, false) {
            Some(q) => if t.is(q, '>') && !(q == p + 3 && t.is(p + 2, '!')) {
                let s = string_of(t.chars(p + 2, q));
                return Some((TagProperty::Verbatim(s), q + 1));
            },
            None => {},
        }
    }
    assert(spec_verbatim_tag(t.view(), p as int) is None);
    match tag_handle(t, p) {
        Some(h) => match uri_chars(t, h, true) {
            Some(q) => {
                let handle = string_of(t.chars(p, h));
                let suffix = string_of(t.chars(h, q));
                return Some((TagProperty::Shorthand { handle, suffix }, q));
            },
            None => {},
        },
        None => {},
    }
    Some((TagProperty::NonSpecific, p + 1))
}

/// `ns-anchor-name`: one or more non-space characters other than the flow indicators. Returns
/// the position after it.
pub fn anchor_name(t: &Text, p: usize) -> (r: Option<usize>)
    requires
        p <= t.view().len(),
    ensures
        at(r) == spec_anchor_name(t.view(), p as int),
        r matches Some(q) ==> p < q <= t.view().len(),
{
    let mut q = p;
    loop
        invariant
            p <= q <= t.view().len(),
            anchor_end(t.view(), q as int) == anchor_end(t.view(), p as int),
        ensures
            p <= q <= t.view().len(),
            anchor_end(t.view(), p as int) == q,
        decreases t.view().len() - q,
    {
        match t.peek(q) {
            Some(c) => if is_non_space(c) && !is_flow_indicator(c) {
                q = q + 1;
            } else {
                break ;
            },
            None => break ,
        }
    }
    if q > p {
        Some(q)
    } else {
        None
    }
}

/// `c-ns-anchor-property`: `&` and an anchor name. Returns the name and the position after it.
pub fn anchor_property(t: &Text, p: usize) -> (r: Option<(String, usize)>)
    requires
        p <= t.view().len(),
    ensures
        text_at(r) == spec_anchor_property(t.view(), p as int),
        r matches Some((_, q)) ==> p < q <= t.view().len(),
{
    if !t.is(p, '&') {
        return None;
    }
    match anchor_name(t, p + 1) {
        Some(q) => Some((string_of(t.chars(p + 1, q)), q)),
        None => None,
    }
}

/// The two optional node properties, in whichever order they were written.
pub struct Properties {
    pub anchor: Option<String>,
    pub tag: Option<TagProperty>,
}

/// The model of [`Properties`].
pub struct PropertiesV {
    pub anchor: Option<Seq<char>>,
    pub tag: Option<TagPropertyV>,
}

impl View for Properties {
    type V = PropertiesV;

    open spec fn view(&self) -> PropertiesV {
        PropertiesV {
            anchor: match self.anchor {
                Some(a) => Some(a@),
                None => None,
            },
            tag: match self.tag {
                Some(tp) => Some(tp@),
                None => None,
            },
        }
    }
}

/// `c-ns-properties(n,c)` at `p`: a tag property, then (with `both`) separation and an anchor
/// property if they follow; else an anchor property, then (with `both`) separation and a tag
/// property if they follow. The properties and where they end.
#[verifier::opaque]
pub open spec fn spec_properties_up_to(s: Seq<char>, p: int, n: nat, c: Context, both: bool) -> Option<
    (PropertiesV, int),
> {
    match spec_tag_property(s, p) {
        Some((tag, q)) => {
            let second = if both {
                match spec_separate(s, q, n, c) {
                    Some(x) => spec_anchor_property(s, x),
                    None => None,
                }
            } else {
                None
            };
            match second {
                Some((anchor, e)) => Some((PropertiesV { anchor: Some(anchor), tag: Some(tag) }, e)),
                None => Some((PropertiesV { anchor: None, tag: Some(tag) }, q)),
            }
        },
        None => match spec_anchor_property(s, p) {
            Some((anchor, q)) => {
                let second = if both {
                    match spec_separate(s, q, n, c) {
                        Some(x) => spec_tag_property(s, x),
                        None => None,
                    }
                } else {
                    None
                };
                match second {
                    Some((tag, e)) => Some((PropertiesV { anchor: Some(anchor), tag: Some(tag) }, e)),
                    None => Some((PropertiesV { anchor: Some(anchor), tag: None }, q)),
                }
            },
            None => None,
        },
    }
}

/// Properties and the position after them, as the grammar's values.
pub open spec fn props_at(r: Option<(Properties, usize)>) -> Option<(PropertiesV, int)> {
    match r {
        Some((props, q)) => Some((props@, q as int)),
        None => None,
    }
}

/// `c-ns-properties(n,c)`: a tag property optionally followed by an anchor property, or the
/// other way round.
pub fn properties(t: &Text, p: usize, level: IndentLevel, c: Context) -> (r: Option<
    (Properties, usize),
>)
    requires
        p <= t.view().len(),
    ensures
        props_at(r) == spec_properties_up_to(t.view(), p as int, level.spec_get(), c, true),
        r matches Some((_, q)) ==> p < q <= t.view().len(),
{
    properties_up_to(t, p, level, c, true)
}

/// `c-ns-properties(n,c)` with its second property (`both`), or with the first alone: the
/// alternative a caller backtracks to when what follows the pair does not fit.
pub fn properties_up_to(t: &Text, p: usize, level: IndentLevel, c: Context, both: bool) -> (r:
    Option<(Properties, usize)>)
    requires
        p <= t.view().len(),
    ensures
        props_at(r) == spec_properties_up_to(t.view(), p as int, level.spec_get(), c, both),
        r matches Some((_, q)) ==> p < q <= t.view().len(),
{
    proof {
        reveal(spec_properties_up_to);
    }
    match tag_property(t, p) {
        Some((tag, q)) => {
            match if both {
                separate(t, q, level, c)
            } else {
                None
            } {
                Some(s) => match anchor_property(t, s) {
                    Some((anchor, e)) => {
                        return Some((Properties { anchor: Some(anchor), tag: Some(tag) }, e));
                    },
                    None => {},
                },
                None => {},
            }
            return Some((Properties { anchor: None, tag: Some(tag) }, q));
        },
        None => {},
    }
    match anchor_property(t, p) {
        Some((anchor, q)) => {
            match if both {
                separate(t, q, level, c)
            } else {
                None
            } {
                Some(s) => match tag_property(t, s) {
                    Some((tag, e)) => {
                        return Some((Properties { anchor: Some(anchor), tag: Some(tag) }, e));
                    },
                    None => {},
                },
                None => {},
            }
            Some((Properties { anchor: Some(anchor), tag: None }, q))
        },
        None => None,
    }
}

/// `span` is the span of the characters at `i..j` of `s`.
pub open spec fn spanned(span: Option<Span>, s: Seq<char>, i: int, j: int) -> bool {
    span matches Some(x) && x.spec_start() == crate::text::byte_offset(s, i) && x.spec_end()
        == crate::text::byte_offset(s, j)
}

/// The tag property among some optional properties.
pub open spec fn props_tag(props: Option<Properties>) -> Option<TagPropertyV> {
    match props {
        Some(p) => p@.tag,
        None => None,
    }
}

/// The anchor name among some optional properties.
pub open spec fn props_anchor(props: Option<Properties>) -> Option<Seq<char>> {
    match props {
        Some(p) => p@.anchor,
        None => None,
    }
}

/// Some optional properties, as the grammar's values.
pub open spec fn props_view(props: Option<Properties>) -> Option<PropertiesV> {
    match props {
        Some(p) => Some(p@),
        None => None,
    }
}

/// The node covering `start..end` of `s` with `content` and the given properties, and the
/// anchors once its anchor (if any) names it; no node, and the anchors unchanged, when its tag's
/// handle was never declared.
pub open spec fn spec_build_node(
    s: Seq<char>,
    start: int,
    end: int,
    props: Option<PropertiesV>,
    content: ContentV,
    anchors: Anchors,
    handles: Handles,
) -> (Option<NodeV>, Anchors) {
    let (tag, anchor) = match props {
        Some(pv) => (
            match pv.tag {
                Some(tp) => spec_resolve_tag_property(handles, tp),
                None => Some(TagV::Unspecified),
            },
            pv.anchor,
        ),
        None => (Some(TagV::Unspecified), None),
    };
    match tag {
        None => (None, anchors),
        Some(tg) => {
            let node = NodeV { value: content, tag: tg, span: Some(text_span(s, start, end)) };
            (
                Some(node),
                match anchor {
                    Some(name) => anchors.insert(name, node),
                    None => anchors,
                },
            )
        },
    }
}

/// An optional node, as the grammar's value.
pub open spec fn opt_node(r: Option<Node>) -> Option<NodeV> {
    match r {
        Some(n) => Some(n@),
        None => None,
    }
}

/// `c-ns-alias-node` at `p`: `*` and the name of a registered anchor; that anchor's node.
pub open spec fn spec_alias_node(s: Seq<char>, p: int, anchors: Anchors) -> Option<(NodeV, int)> {
    if 0 <= p < s.len() && s[p] == '*' {
        match spec_anchor_name(s, p + 1) {
            Some(q) => if anchors.contains_key(s.subrange(p + 1, q)) {
                Some((anchors[s.subrange(p + 1, q)], q))
            } else {
                None
            },
            None => None,
        }
    } else {
        None
    }
}

/// Resolves the (optional) tag property against the parse-time tag-handle map, builds the node
/// covering `start..end` of the text, and registers its anchor (if any) so later aliases can
/// resolve it. `None` when the tag's handle was never declared.
pub fn build_node(
    t: &Text,
    st: &mut ParseState,
    start: usize,
    end: usize,
    props: Option<Properties>,
    content: Content,
) -> (r: Option<Node>)
    requires
        start <= end <= t.view().len(),
        content_spans_in(content@, t.view()),
        old(st).anchors_within(t.view()),
    ensures
        (opt_node(r), final(st).anchors@) == spec_build_node(
            t.view(),
            start as int,
            end as int,
            props_view(props),
            content@,
            old(st).anchors@,
            old(st).tag_handles@,
        ),
        r is None <==> (props_tag(props) matches Some(tp) && spec_resolve_tag_property(
            old(st).tag_handles@,
            tp,
        ) is None),
        r matches Some(n) ==> n.value == content && n.tag@ == (match props_tag(props) {
            Some(tp) => spec_resolve_tag_property(old(st).tag_handles@, tp)->0,
            None => TagV::Unspecified,
        }),
        r matches Some(n) ==> spanned(n.span.spec_get(), t.view(), start as int, end as int)
            && spans_in(n@, t.view()),
        final(st).tag_handles == old(st).tag_handles,
        final(st).anchors@ == (match (r, props_anchor(props)) {
            (Some(n), Some(name)) => old(st).anchors@.insert(name, n@),
            _ => old(st).anchors@,
        }),
        final(st).anchors_within(t.view()),
{
    let (anchor, tag) = match props {
        Some(p) => (p.anchor, p.tag),
        None => (None, None),
    };
    let tag = match tag {
        None => Tag::Unspecified,
        Some(prop) => match resolve_tag(&st.tag_handles, prop) {
            Some(tag) => tag,
            None => return None,
        },
    };
    let node = Node { value: content, tag, span: SpanSlot::some(t.span(start, end)) };
    match anchor {
        Some(name) => {
            let copy = node.duplicate();
            let ghost before = st.anchors@;
            st.anchors.put(name, copy);
            assert forall|k: Seq<char>| st.anchors@.contains_key(k) implies spans_in(
                #[trigger] st.anchors@[k],
                t.view(),
            ) by {
                if k != name@ {
                    assert(before.contains_key(k));
                }
            }
        },
        None => {},
    }
    Some(node)
}

/// `c-ns-alias-node`: `*` and the name of an anchor registered earlier in the document; a copy
/// of the anchored node.
pub fn alias_node(t: &Text, st: &ParseState, p: usize) -> (r: Option<(Node, usize)>)
    requires
        p <= t.view().len(),
        st.anchors_within(t.view()),
    ensures
        node_at(r) == spec_alias_node(t.view(), p as int, st.anchors@),
        r matches Some((n, _)) ==> spans_in(n@, t.view()),
        r matches Some((n, q)) ==> p < q <= t.view().len() && st.anchors@.contains_key(
            t.view().subrange(p + 1, q as int),
        ) && n@ == st.anchors@[t.view().subrange(p + 1, q as int)],
{
    if !t.is(p, '*') {
        return None;
    }
    let q = match anchor_name(t, p + 1) {
        Some(q) => q,
        None => return None,
    };
    let name = string_of(t.chars(p + 1, q));
    match st.anchors.get(name.as_str()) {
        Some(n) => Some((n.duplicate(), q)),
        None => None,
    }
}

} // verus!
