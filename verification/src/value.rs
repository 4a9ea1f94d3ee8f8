//! The value model a YAML parse produces: streams of documents whose root is a [`Node`], each
//! node being content plus a tag, and carrying the [`Span`] of input it was parsed from.
use vstd::prelude::*;

use crate::text::{byte_len, byte_offset, is_char_boundary, lemma_byte_offset_mono};

verus! {

broadcast use vstd::std_specs::vec::group_vec_axioms;

/// A byte range in the input a node was parsed from.
///
/// Offsets are byte offsets into the complete input, so the range `start..end` of the input is
/// the node's own source text.
#[derive(Debug, Clone, Copy, PartialEq, Eq, Structural)]
pub struct Span {
    start: usize,
    end: usize,
}

impl Span {
    /// The byte offset the span starts at.
    pub closed spec fn spec_start(self) -> usize {
        self.start
    }

    /// The byte offset one past the span's last byte.
    pub closed spec fn spec_end(self) -> usize {
        self.end
    }

    /// The span's length in bytes; zero when `end` does not lie past `start`.
    pub open spec fn spec_len(self) -> nat {
        if self.spec_end() >= self.spec_start() {
            (self.spec_end() - self.spec_start()) as nat
        } else {
            0
        }
    }

    /// The span covering `start..end`.
    pub closed spec fn spec_new(start: nat, end: nat) -> Span {
        Span { start: start as usize, end: end as usize }
    }

    /// The span built from `start..end` starts at `start` and ends at `end`.
    pub proof fn lemma_spec_new(start: usize, end: usize)
        ensures
            Span::spec_new(start as nat, end as nat).spec_start() == start,
            Span::spec_new(start as nat, end as nat).spec_end() == end,
    {
    }

    /// Two spans are the same span exactly when they start and end at the same offsets.
    pub proof fn lemma_eq(a: Span, b: Span)
        ensures
            (a == b) <==> (a.spec_start() == b.spec_start() && a.spec_end() == b.spec_end()),
    {
    }

    /// Constructs a span covering `start..end`.
    pub fn new(start: usize, end: usize) -> (r: Span)
        ensures
            r == Span::spec_new(start as nat, end as nat),
            r.spec_start() == start,
            r.spec_end() == end,
    {
        Span { start, end }
    }

    /// The byte offset the span starts at.
    pub fn start(&self) -> (r: usize)
        ensures
            r == self.spec_start(),
    {
        self.start
    }

    /// The byte offset one past the span's last byte.
    pub fn end(&self) -> (r: usize)
        ensures
            r == self.spec_end(),
    {
        self.end
    }

    /// The span as a range, for slicing the input.
    pub fn range(&self) -> (r: core::ops::Range<usize>)
        ensures
            r.start == self.spec_start(),
            r.end == self.spec_end(),
    {
        self.start..self.end
    }

    /// The span's length in bytes.
    pub fn len(&self) -> (r: usize)
        ensures
            r == self.spec_len(),
    {
        if self.end >= self.start {
            self.end - self.start
        } else {
            0
        }
    }

    /// Whether the span covers no bytes at all, as an empty node's does.
    pub fn is_empty(&self) -> (r: bool)
        ensures
            r == (self.spec_len() == 0),
    {
        self.len() == 0
    }
}

/// Where a node was written, kept beside the node's representation.
///
/// Two slots always compare equal: a node's position is metadata about the source text, not part
/// of what the node means, so it takes no part in the equality of nodes.
#[derive(Debug, Clone, Copy)]
pub struct SpanSlot(Option<Span>);

impl SpanSlot {
    /// The recorded span, if any.
    pub closed spec fn spec_get(self) -> Option<Span> {
        self.0
    }

    /// A slot recording nothing.
    pub fn none() -> (r: SpanSlot)
        ensures
            r.spec_get() == None::<Span>,
    {
        SpanSlot(None)
    }

    /// A slot recording `span`.
    pub fn some(span: Span) -> (r: SpanSlot)
        ensures
            r.spec_get() == Some(span),
    {
        SpanSlot(Some(span))
    }

    /// The recorded span, if any.
    pub fn get(&self) -> (r: Option<Span>)
        ensures
            r == self.spec_get(),
    {
        self.0
    }
}

impl PartialEq for SpanSlot {
    fn eq(&self, other: &Self) -> (r: bool) {
        true
    }
}

impl vstd::std_specs::cmp::PartialEqSpecImpl for SpanSlot {
    open spec fn obeys_eq_spec() -> bool {
        true
    }

    open spec fn eq_spec(&self, other: &Self) -> bool {
        true
    }
}

/// Standard supported tag.
#[derive(Debug, Clone, Copy, PartialEq, Eq, Structural)]
pub enum StandardTag {
    Mapping,
    Sequence,
    Str,
    Null,
    Bool,
    Int,
    Float,
}

/// Tag of the YAML node.
#[derive(Debug, Clone, PartialEq, Eq)]
pub enum Tag {
    /// No tag property was given; eligible for core-schema resolution based on node kind and
    /// scalar style (a plain scalar `12` resolves to an int, but `"12"` stays a string).
    Unspecified,
    /// The tag property was explicitly set to the non-specific tag `!`: the node is forced to
    /// str/map/seq according to its kind, regardless of content.
    NonSpecific,
    Global(String),
    Standard(StandardTag),
}

/// Scalar of the YAML: its presentation style plus its content text.
#[derive(Debug, Clone, PartialEq)]
pub enum Scalar {
    Plain(String),
    SingleStr(String),
    DoubleStr(String),
    /// A literal-style (`|`) block scalar.
    Literal(String),
    /// A folded-style (`>`) block scalar.
    Folded(String),
}

/// Represents a YAML content.
#[derive(Debug, PartialEq)]
pub enum Content {
    Empty,
    Scalar(Scalar),
    Sequence(Vec<Node>),
    Mapping(Mapping),
}

/// A YAML node: content plus tag, and the span of input it was parsed from, if any.
#[derive(Debug, PartialEq)]
pub struct Node {
    pub value: Content,
    pub tag: Tag,
    pub span: SpanSlot,
}

/// The entries of a mapping, in the order they were written.
#[derive(Debug, Clone, PartialEq)]
pub struct Mapping(pub Vec<MapEntry>);

/// One key/value pair of a mapping.
#[derive(Debug, Clone, PartialEq)]
pub struct MapEntry {
    pub key: Node,
    pub value: Node,
}

/// A stream of documents.
#[derive(Debug, Clone, PartialEq)]
pub struct Stream(pub Vec<Document>);

/// A single document, wrapping its root node.
#[derive(Debug, Clone, PartialEq)]
pub struct Document(pub Node);

// ---------------------------------------------------------------------------------------------
// Mathematical model
// ---------------------------------------------------------------------------------------------
/// Presentation style of a scalar.
#[derive(Debug, Clone, Copy, PartialEq, Eq, Structural)]
pub enum ScalarStyle {
    Plain,
    SingleStr,
    DoubleStr,
    Literal,
    Folded,
}

/// The model of a [`Tag`].
pub enum TagV {
    Unspecified,
    NonSpecific,
    Global(Seq<char>),
    Standard(StandardTag),
}

/// The model of a [`Content`].
pub enum ContentV {
    Empty,
    Scalar(ScalarStyle, Seq<char>),
    Sequence(Seq<NodeV>),
    Mapping(Seq<(NodeV, NodeV)>),
}

/// The model of a [`Node`].
pub struct NodeV {
    pub value: ContentV,
    pub tag: TagV,
    pub span: Option<Span>,
}

impl View for Tag {
    type V = TagV;

    open spec fn view(&self) -> TagV {
        match self {
            Tag::Unspecified => TagV::Unspecified,
            Tag::NonSpecific => TagV::NonSpecific,
            Tag::Global(s) => TagV::Global(s@),
            Tag::Standard(t) => TagV::Standard(*t),
        }
    }
}

impl Scalar {
    /// The scalar's style.
    pub open spec fn style(self) -> ScalarStyle {
        match self {
            Scalar::Plain(_) => ScalarStyle::Plain,
            Scalar::SingleStr(_) => ScalarStyle::SingleStr,
            Scalar::DoubleStr(_) => ScalarStyle::DoubleStr,
            Scalar::Literal(_) => ScalarStyle::Literal,
            Scalar::Folded(_) => ScalarStyle::Folded,
        }
    }

    /// The scalar's content text.
    pub open spec fn text(self) -> Seq<char> {
        match self {
            Scalar::Plain(t) => t@,
            Scalar::SingleStr(t) => t@,
            Scalar::DoubleStr(t) => t@,
            Scalar::Literal(t) => t@,
            Scalar::Folded(t) => t@,
        }
    }
}

/// The model of a node.
pub open spec fn node_view(n: Node) -> NodeV
    decreases n, 0nat,
{
    NodeV { value: content_view(n.value), tag: n.tag@, span: n.span.spec_get() }
}

/// The model of a content.
pub open spec fn content_view(c: Content) -> ContentV
    decreases c, 0nat,
{
    match c {
        Content::Empty => ContentV::Empty,
        Content::Scalar(s) => ContentV::Scalar(s.style(), s.text()),
        Content::Sequence(items) => ContentV::Sequence(nodes_view(items@)),
        Content::Mapping(m) => ContentV::Mapping(entries_view(m.0@)),
    }
}

/// The models of a sequence of nodes.
pub open spec fn nodes_view(s: Seq<Node>) -> Seq<NodeV>
    decreases s, s.len(),
{
    if s.len() == 0 {
        Seq::empty()
    } else {
        nodes_view(s.drop_last()).push(node_view(s.last()))
    }
}

/// The models of a sequence of mapping entries.
pub open spec fn entries_view(s: Seq<MapEntry>) -> Seq<(NodeV, NodeV)>
    decreases s, s.len(),
{
    if s.len() == 0 {
        Seq::empty()
    } else {
        entries_view(s.drop_last()).push((node_view(s.last().key), node_view(s.last().value)))
    }
}

impl View for Node {
    type V = NodeV;

    open spec fn view(&self) -> NodeV {
        node_view(*self)
    }
}

impl View for Content {
    type V = ContentV;

    open spec fn view(&self) -> ContentV {
        content_view(*self)
    }
}

/// The models of some nodes are as many as the nodes.
pub proof fn lemma_nodes_view_len(s: Seq<Node>)
    ensures
        nodes_view(s).len() == s.len(),
        forall|i: int| 0 <= i < s.len() ==> #[trigger] nodes_view(s)[i] == node_view(s[i]),
    decreases s.len(),
{
    if s.len() > 0 {
        lemma_nodes_view_len(s.drop_last());
    }
}

/// The models of some mapping entries are as many as the entries.
pub proof fn lemma_entries_view_len(s: Seq<MapEntry>)
    ensures
        entries_view(s).len() == s.len(),
        forall|i: int|
            0 <= i < s.len() ==> #[trigger] entries_view(s)[i] == (
                node_view(s[i].key),
                node_view(s[i].value),
            ),
    decreases s.len(),
{
    if s.len() > 0 {
        lemma_entries_view_len(s.drop_last());
    }
}

/// Every node of the tree of `n` records a span, which ends no later than `limit`.
pub open spec fn spans_within(n: NodeV, limit: nat) -> bool
    decreases n, 1nat,
{
    &&& n.span matches Some(s) && s.spec_start() <= s.spec_end() <= limit
    &&& content_spans_within(n.value, limit)
}

/// Every node within `c` records a span, which ends no later than `limit`.
pub open spec fn content_spans_within(c: ContentV, limit: nat) -> bool
    decreases c, 0nat,
{
    match c {
        ContentV::Sequence(items) => forall|i: int|
            0 <= i < items.len() ==> spans_within(#[trigger] items[i], limit),
        ContentV::Mapping(entries) => forall|i: int|
            0 <= i < entries.len() ==> spans_within(#[trigger] entries[i].0, limit)
                && spans_within(entries[i].1, limit),
        _ => true,
    }
}

/// Every node of the tree of `n` records the span of a run of the characters of `s`: its two
/// ends are character boundaries of `s`, the start at or before the end, so the span is the
/// byte range of the characters `i..j` of `s` for some `i <= j`.
pub open spec fn spans_in(n: NodeV, s: Seq<char>) -> bool
    decreases n, 1nat,
{
    &&& n.span matches Some(sp) && sp.spec_start() <= sp.spec_end() && is_char_boundary(
        s,
        sp.spec_start() as int,
    ) && is_char_boundary(s, sp.spec_end() as int)
    &&& content_spans_in(n.value, s)
}

/// Every node within `c` records the span of a run of the characters of `s`.
pub open spec fn content_spans_in(c: ContentV, s: Seq<char>) -> bool
    decreases c, 0nat,
{
    match c {
        ContentV::Sequence(items) => forall|i: int|
            0 <= i < items.len() ==> spans_in(#[trigger] items[i], s),
        ContentV::Mapping(entries) => forall|i: int|
            0 <= i < entries.len() ==> spans_in(#[trigger] entries[i].0, s) && spans_in(
                entries[i].1,
                s,
            ),
        _ => true,
    }
}

/// A span of a run of the characters of `s` ends no later than the byte length of `s`.
pub proof fn lemma_spans_in_within(n: NodeV, s: Seq<char>)
    requires
        spans_in(n, s),
    ensures
        spans_within(n, byte_len(s)),
    decreases n, 1nat,
{
    let sp = n.span->0;
    let k = choose|k: int| 0 <= k <= s.len() && byte_offset(s, k) == sp.spec_end() as int;
    lemma_byte_offset_mono(s, k, s.len() as int);
    assert(s.subrange(0, s.len() as int) =~= s);
    lemma_content_spans_in_within(n.value, s);
}

/// Content whose spans are runs of the characters of `s` has them end within `s`.
pub proof fn lemma_content_spans_in_within(c: ContentV, s: Seq<char>)
    requires
        content_spans_in(c, s),
    ensures
        content_spans_within(c, byte_len(s)),
    decreases c, 0nat,
{
    match c {
        ContentV::Sequence(items) => {
            assert forall|i: int| 0 <= i < items.len() implies spans_within(
                #[trigger] items[i],
                byte_len(s),
            ) by {
                lemma_spans_in_within(items[i], s);
            }
        },
        ContentV::Mapping(entries) => {
            assert forall|i: int| 0 <= i < entries.len() implies spans_within(
                #[trigger] entries[i].0,
                byte_len(s),
            ) && spans_within(entries[i].1, byte_len(s)) by {
                lemma_spans_in_within(entries[i].0, s);
                lemma_spans_in_within(entries[i].1, s);
            }
        },
        _ => {},
    }
}

/// Every node of `v`, and every node below them, records the span of a run of `s`.
#[verifier::opaque]
pub open spec fn nodes_within(v: Seq<Node>, s: Seq<char>) -> bool {
    forall|i: int| 0 <= i < v.len() ==> spans_in(#[trigger] v[i]@, s)
}

/// Every key and value of `v`, and every node below them, records the span of a run of `s`.
#[verifier::opaque]
pub open spec fn entries_within(v: Seq<MapEntry>, s: Seq<char>) -> bool {
    forall|i: int|
        0 <= i < v.len() ==> spans_in(#[trigger] v[i].key@, s) && spans_in(v[i].value@, s)
}

/// No nodes at all record spans outside any text.
pub proof fn lemma_empty_within(s: Seq<char>)
    ensures
        nodes_within(Seq::<Node>::empty(), s),
        entries_within(Seq::<MapEntry>::empty(), s),
{
    reveal(nodes_within);
    reveal(entries_within);
}

/// Adding a node whose spans are runs of `s` keeps the nodes so.
pub proof fn lemma_push_node_within(v: Seq<Node>, x: Node, s: Seq<char>)
    requires
        nodes_within(v, s),
        spans_in(x@, s),
    ensures
        nodes_within(v.push(x), s),
{
    reveal(nodes_within);
    assert forall|i: int| 0 <= i < v.push(x).len() implies spans_in(#[trigger] v.push(x)[i]@, s) by {
        if i < v.len() {
            assert(v.push(x)[i] == v[i]);
        }
    }
}

/// Adding an entry whose key and value have spans that are runs of `s` keeps the entries so.
pub proof fn lemma_push_entry_within(v: Seq<MapEntry>, x: MapEntry, s: Seq<char>)
    requires
        entries_within(v, s),
        spans_in(x.key@, s),
        spans_in(x.value@, s),
    ensures
        entries_within(v.push(x), s),
{
    reveal(entries_within);
    assert forall|i: int| 0 <= i < v.push(x).len() implies spans_in(
        #[trigger] v.push(x)[i].key@,
        s,
    ) && spans_in(v.push(x)[i].value@, s) by {
        if i < v.len() {
            assert(v.push(x)[i] == v[i]);
        }
    }
}

/// A sequence of nodes whose spans are runs of `s` is content whose spans are.
pub proof fn lemma_sequence_spans(items: Vec<Node>, s: Seq<char>)
    requires
        nodes_within(items@, s),
    ensures
        content_spans_in(Content::Sequence(items)@, s),
{
    reveal(nodes_within);
    lemma_nodes_view_len(items@);
    let v = nodes_view(items@);
    assert(Content::Sequence(items)@ == ContentV::Sequence(v));
    assert forall|i: int| 0 <= i < v.len() implies spans_in(#[trigger] v[i], s) by {
        assert(spans_in(items@[i]@, s));
    }
}

/// Mapping entries whose keys and values have spans that are runs of `s` are content whose
/// spans are.
pub proof fn lemma_mapping_spans(entries: Vec<MapEntry>, s: Seq<char>)
    requires
        entries_within(entries@, s),
    ensures
        content_spans_in(Content::Mapping(Mapping(entries))@, s),
{
    reveal(entries_within);
    lemma_entries_view_len(entries@);
    let v = entries_view(entries@);
    assert(Content::Mapping(Mapping(entries))@ == ContentV::Mapping(v));
    assert forall|i: int| 0 <= i < v.len() implies spans_in(#[trigger] v[i].0, s) && spans_in(
        v[i].1,
        s,
    ) by {
        assert(v[i] == (node_view(entries@[i].key), node_view(entries@[i].value)));
        assert(spans_in(entries@[i].key@, s));
    }
}

// ---------------------------------------------------------------------------------------------
// Accessors
// ---------------------------------------------------------------------------------------------
impl Stream {
    /// The documents of the stream, in order.
    pub fn documents(&self) -> (r: &[Document])
        ensures
            r@ == self.0@,
    {
        self.0.as_slice()
    }

    /// Consumes the stream and returns the documents it holds.
    pub fn into_documents(self) -> (r: Vec<Document>)
        ensures
            r == self.0,
    {
        self.0
    }
}

impl Document {
    /// Creates a new instance.
    pub fn new(v: Node) -> (r: Document)
        ensures
            r.0 == v,
    {
        Document(v)
    }

    /// The document's root node.
    pub fn as_node(&self) -> (r: &Node)
        ensures
            *r == self.0,
    {
        &self.0
    }

    /// Unwraps and returns the root node.
    pub fn into_node(self) -> (r: Node)
        ensures
            r == self.0,
    {
        self.0
    }
}

impl Mapping {
    /// The entries of the mapping, in order.
    pub fn entries(&self) -> (r: &[MapEntry])
        ensures
            r@ == self.0@,
    {
        self.0.as_slice()
    }
}

impl MapEntry {
    /// Constructs an entry out of a `(key, value)` tuple.
    pub fn from_tuple(kv: (Node, Node)) -> (r: MapEntry)
        ensures
            r.key == kv.0,
            r.value == kv.1,
    {
        MapEntry { key: kv.0, value: kv.1 }
    }
}

/// The text of a scalar-kind content: a scalar's text, or the empty text of an empty node.
/// `None` for a sequence or mapping.
pub open spec fn spec_scalar_text(c: Content) -> Option<Seq<char>> {
    match c {
        Content::Empty => Some(Seq::empty()),
        Content::Scalar(s) => Some(s.text()),
        _ => None,
    }
}

/// An optional `i64` as an optional integer.
pub open spec fn spec_opt_i64(o: Option<i64>) -> Option<int> {
    match o {
        Some(v) => Some(v as int),
        None => None,
    }
}

/// `true`, `True`, `TRUE` read as true, and `false`, `False`, `FALSE` as false.
pub open spec fn spec_bool_value(t: Seq<char>) -> Option<bool> {
    if t == seq!['t', 'r', 'u', 'e'] || t == seq!['T', 'r', 'u', 'e'] || t == seq![
        'T',
        'R',
        'U',
        'E',
    ] {
        Some(true)
    } else if t == seq!['f', 'a', 'l', 's', 'e'] || t == seq!['F', 'a', 'l', 's', 'e'] || t
        == seq!['F', 'A', 'L', 'S', 'E'] {
        Some(false)
    } else {
        None
    }
}

impl Node {
    /// Constructs a node with the tag, and no span.
    pub fn new(value: Content, tag: Tag) -> (r: Node)
        ensures
            r.value == value,
            r.tag == tag,
            r.span.spec_get() == None::<Span>,
    {
        Node { value, tag, span: SpanSlot::none() }
    }

    /// Constructs a node without properties, and no span.
    pub fn unspecified(value: Content) -> (r: Node)
        ensures
            r.value == value,
            r.tag == Tag::Unspecified,
            r.span.spec_get() == None::<Span>,
    {
        Node { value, tag: Tag::Unspecified, span: SpanSlot::none() }
    }

    /// Returns this node with `span` recorded as the input range it was parsed from.
    pub fn with_span(self, span: Span) -> (r: Node)
        ensures
            r.value == self.value,
            r.tag == self.tag,
            r.span.spec_get() == Some(span),
    {
        Node { value: self.value, tag: self.tag, span: SpanSlot::some(span) }
    }

    /// The range of the input this node was parsed from, if it came from the parser.
    pub fn span(&self) -> (r: Option<Span>)
        ensures
            r == self.span.spec_get(),
    {
        self.span.get()
    }

    /// Records `span` unless this node already has one (a more deeply nested parser, which
    /// matched less of the input, already recorded a more precise one).
    pub fn set_span_if_unset(&mut self, span: Span)
        ensures
            final(self).value == old(self).value,
            final(self).tag == old(self).tag,
            final(self).span.spec_get() == (match old(self).span.spec_get() {
                Some(s) => Some(s),
                None => Some(span),
            }),
    {
        if self.span.get().is_none() {
            self.span = SpanSlot::some(span);
        }
    }

    /// This node's scalar text, if it's a scalar (or empty) node; `None` for a sequence or
    /// mapping.
    pub fn scalar_text(&self) -> (r: Option<&str>)
        ensures
            r is Some <==> spec_scalar_text(self.value) is Some,
            r matches Some(t) ==> t@ == spec_scalar_text(self.value)->0,
    {
        match &self.value {
            Content::Empty => {
                proof {
                    reveal_strlit("");
                }
                Some("")
            },
            Content::Scalar(s) => match s {
                Scalar::Plain(t) => Some(t.as_str()),
                Scalar::SingleStr(t) => Some(t.as_str()),
                Scalar::DoubleStr(t) => Some(t.as_str()),
                Scalar::Literal(t) => Some(t.as_str()),
                Scalar::Folded(t) => Some(t.as_str()),
            },
            _ => None,
        }
    }

    /// Whether this node's tag is `tag:yaml.org,2002:null`.
    pub fn is_null(&self) -> (r: bool)
        ensures
            r == (self.tag == Tag::Standard(StandardTag::Null)),
    {
        match self.tag {
            Tag::Standard(StandardTag::Null) => true,
            _ => false,
        }
    }

    /// Interprets this node as a bool, if its tag is `tag:yaml.org,2002:bool`.
    pub fn as_bool(&self) -> (r: Option<bool>)
        ensures
            r == (if self.tag == Tag::Standard(StandardTag::Bool) {
                match spec_scalar_text(self.value) {
                    Some(t) => spec_bool_value(t),
                    None => None,
                }
            } else {
                None
            }),
    {
        match self.tag {
            Tag::Standard(StandardTag::Bool) => {},
            _ => return None,
        }
        match self.scalar_text() {
            None => None,
            Some(t) => {
                let cs = crate::text::chars_of(t);
                bool_value(&cs)
            },
        }
    }

    /// Interprets this node as a string: `tag:yaml.org,2002:str`, or the non-specific tag `!`.
    pub fn as_str(&self) -> (r: Option<&str>)
        ensures
            (self.tag == Tag::Standard(StandardTag::Str) || self.tag == Tag::NonSpecific) ==> (
            r is Some <==> spec_scalar_text(self.value) is Some),
            r matches Some(t) ==> t@ == spec_scalar_text(self.value)->0,
            !(self.tag == Tag::Standard(StandardTag::Str) || self.tag == Tag::NonSpecific) ==> r
                is None,
    {
        match self.tag {
            Tag::Standard(StandardTag::Str) | Tag::NonSpecific => self.scalar_text(),
            _ => None,
        }
    }

    /// Interprets this node as an `i64`, parsing the decimal/octal (`0o`)/hex (`0x`) forms of
    /// the Core Schema, if its tag is `tag:yaml.org,2002:int`. `None` both when the tag doesn't
    /// match and when the value overflows `i64`.
    pub fn as_i64(&self) -> (r: Option<i64>)
        ensures
            spec_opt_i64(r) == (if self.tag == Tag::Standard(StandardTag::Int) {
                match spec_scalar_text(self.value) {
                    Some(t) => spec_core_int(t),
                    None => None,
                }
            } else {
                None
            }),
    {
        match self.tag {
            Tag::Standard(StandardTag::Int) => {},
            _ => return None,
        }
        match self.scalar_text() {
            None => None,
            Some(t) => {
                let cs = crate::text::chars_of(t);
                let r = parse_core_int(&cs);
                assert(spec_opt_i64(r) == spec_core_int(cs@));
                r
            },
        }
    }
}

/// Reads the Core Schema bool forms.
pub fn bool_value(t: &[char]) -> (r: Option<bool>)
    ensures
        r == spec_bool_value(t@),
{
    let w1 = ['t', 'r', 'u', 'e'];
    let w2 = ['T', 'r', 'u', 'e'];
    let w3 = ['T', 'R', 'U', 'E'];
    let w4 = ['f', 'a', 'l', 's', 'e'];
    let w5 = ['F', 'a', 'l', 's', 'e'];
    let w6 = ['F', 'A', 'L', 'S', 'E'];
    assert(w1@ == seq!['t', 'r', 'u', 'e']);
    assert(w2@ == seq!['T', 'r', 'u', 'e']);
    assert(w3@ == seq!['T', 'R', 'U', 'E']);
    assert(w4@ == seq!['f', 'a', 'l', 's', 'e']);
    assert(w5@ == seq!['F', 'a', 'l', 's', 'e']);
    assert(w6@ == seq!['F', 'A', 'L', 'S', 'E']);
    if crate::text::same_chars(t, &w1) || crate::text::same_chars(t, &w2)
        || crate::text::same_chars(t, &w3) {
        Some(true)
    } else if crate::text::same_chars(t, &w4) || crate::text::same_chars(t, &w5)
        || crate::text::same_chars(t, &w6) {
        Some(false)
    } else {
        None
    }
}

// ---------------------------------------------------------------------------------------------
// Core Schema integers
// ---------------------------------------------------------------------------------------------
/// Whether `c` is a digit of `radix` (8, 10 or 16).
pub open spec fn spec_radix_digit(c: char, radix: nat) -> bool {
    if radix == 16 {
        crate::parse::chars::spec_hex_digit(c)
    } else if radix == 8 {
        '0' <= c && c <= '7'
    } else {
        '0' <= c && c <= '9'
    }
}

/// Every character of `s` is a digit of `radix`.
pub open spec fn spec_all_digits(s: Seq<char>, radix: nat) -> bool {
    forall|i: int| 0 <= i < s.len() ==> spec_radix_digit(#[trigger] s[i], radix)
}

/// The value of the digits `s`, most significant first.
pub open spec fn spec_digits_value(s: Seq<char>, radix: nat) -> nat
    decreases s.len(),
{
    if s.len() == 0 {
        0
    } else {
        spec_digits_value(s.drop_last(), radix) * radix + crate::parse::chars::spec_hex_value(
            s.last(),
        )
    }
}

/// A `-`/`+` sign, if any, and the rest of the text.
pub open spec fn spec_split_sign(s: Seq<char>) -> (bool, Seq<char>) {
    if s.len() > 0 && s[0] == '-' {
        (true, s.drop_first())
    } else if s.len() > 0 && s[0] == '+' {
        (false, s.drop_first())
    } else {
        (false, s)
    }
}

/// `v`, negated when `negative`.
pub open spec fn spec_signed(negative: bool, v: int) -> int {
    if negative {
        -v
    } else {
        v
    }
}

/// An optional sign, then one or more digits of `radix`: the integer they denote, with no bound
/// on its size.
pub open spec fn spec_int_from_radix(s: Seq<char>, radix: nat) -> Option<int> {
    let (negative, body) = spec_split_sign(s);
    if body.len() > 0 && spec_all_digits(body, radix) {
        Some(spec_signed(negative, spec_digits_value(body, radix) as int))
    } else {
        None
    }
}

/// `u64::from_str_radix`: an optional `+`, then one or more digits of `radix`, whose value must
/// fit in a `u64`.
pub open spec fn spec_u64_from_radix(s: Seq<char>, radix: nat) -> Option<int> {
    let body = if s.len() > 0 && s[0] == '+' {
        s.drop_first()
    } else {
        s
    };
    if body.len() > 0 && spec_all_digits(body, radix) && spec_digits_value(body, radix)
        <= u64::MAX {
        Some(spec_digits_value(body, radix) as int)
    } else {
        None
    }
}

/// `s` starts with `0` followed by `c`.
pub open spec fn spec_has_radix_prefix(s: Seq<char>, c: char) -> bool {
    s.len() >= 2 && s[0] == '0' && s[1] == c
}

/// A Core Schema int lexeme's value: an optional sign, then `0x` hex digits, `0o` octal digits
/// or decimal digits (which may carry a sign of their own); `None` when they are no digits or the
/// signed value lies outside the `i64` range.
pub open spec fn spec_core_int(text: Seq<char>) -> Option<int> {
    let (negative, rest) = spec_split_sign(text);
    let magnitude = if spec_has_radix_prefix(rest, 'x') {
        spec_int_from_radix(rest.skip(2), 16)
    } else if spec_has_radix_prefix(rest, 'o') {
        spec_int_from_radix(rest.skip(2), 8)
    } else {
        spec_int_from_radix(rest, 10)
    };
    match magnitude {
        Some(m) => if i64::MIN <= spec_signed(negative, m) <= i64::MAX {
            Some(spec_signed(negative, m))
        } else {
            None
        },
        None => None,
    }
}

/// Like [`spec_core_int`] for magnitudes read as `u64` (no sign handling beyond what
/// `u64::from_str_radix` accepts).
pub open spec fn spec_core_uint(text: Seq<char>) -> Option<int> {
    if spec_has_radix_prefix(text, 'x') {
        spec_u64_from_radix(text.skip(2), 16)
    } else if spec_has_radix_prefix(text, 'o') {
        spec_u64_from_radix(text.skip(2), 8)
    } else {
        spec_u64_from_radix(text, 10)
    }
}

/// The leading digits of a run weigh no more than the whole run.
pub proof fn lemma_digits_value_prefix(s: Seq<char>, radix: nat, i: int)
    requires
        0 <= i <= s.len(),
        radix >= 1,
    ensures
        spec_digits_value(s.subrange(0, i), radix) <= spec_digits_value(s, radix),
    decreases s.len() - i,
{
    if i < s.len() {
        lemma_digits_value_prefix(s.drop_last(), radix, i);
        assert(s.drop_last().subrange(0, i) =~= s.subrange(0, i));
        assert(spec_digits_value(s.drop_last(), radix) <= spec_digits_value(s.drop_last(), radix)
            * radix) by (nonlinear_arith)
            requires
                radix >= 1,
        ;
    } else {
        assert(s.subrange(0, i) =~= s);
    }
}

/// Reads digits of `radix` as an unsigned value; `None` when a character isn't a digit, when
/// `s` is empty, or when the value exceeds `limit`.
fn digits_at_most(s: &[char], radix: u32, limit: u128) -> (r: Option<u128>)
    requires
        radix == 8 || radix == 10 || radix == 16,
        limit <= u64::MAX as u128 + 1,
    ensures
        r == (if s@.len() > 0 && spec_all_digits(s@, radix as nat) && spec_digits_value(
            s@,
            radix as nat,
        ) <= limit {
            Some(spec_digits_value(s@, radix as nat) as u128)
        } else {
            None::<u128>
        }),
{
    if s.len() == 0 {
        return None;
    }
    let mut acc: u128 = 0;
    let mut i: usize = 0;
    while i < s.len()
        invariant
            i <= s.len(),
            radix == 8 || radix == 10 || radix == 16,
            limit <= u64::MAX as u128 + 1,
            spec_all_digits(s@.subrange(0, i as int), radix as nat),
            acc == spec_digits_value(s@.subrange(0, i as int), radix as nat),
            acc <= limit,
        decreases s.len() - i,
    {
        let c = s[i];
        let ok = if radix == 16 {
            crate::parse::chars::is_hex_digit(c)
        } else if radix == 8 {
            '0' <= c && c <= '7'
        } else {
            '0' <= c && c <= '9'
        };
        if !ok {
            assert(!spec_radix_digit(s@[i as int], radix as nat));
            return None;
        }
        let d = crate::parse::chars::hex_value(c) as u128;
        assert(s@.subrange(0, i + 1).drop_last() =~= s@.subrange(0, i as int));
        assert(acc * (radix as u128) <= (u64::MAX as u128 + 1) * 16) by (nonlinear_arith)
            requires
                acc <= u64::MAX as u128 + 1,
                radix <= 16,
        ;
        let next = acc * (radix as u128) + d;
        if next > limit {
            proof {
                lemma_digits_value_prefix(s@, radix as nat, i + 1);
            }
            return None;
        }
        acc = next;
        i = i + 1;
    }
    assert(s@.subrange(0, s@.len() as int) =~= s@);
    Some(acc)
}

/// An optional sign, then digits of `radix`, read as an integer of magnitude at most `2^63`;
/// `None` when they are no digits, or when the magnitude is larger.
fn int_from_radix(s: &[char], radix: u32) -> (r: Option<i128>)
    requires
        radix == 8 || radix == 10 || radix == 16,
    ensures
        r matches Some(v) ==> spec_int_from_radix(s@, radix as nat) == Some(v as int),
        r matches Some(v) ==> -0x8000_0000_0000_0000 <= v <= 0x8000_0000_0000_0000,
        r is None ==> match spec_int_from_radix(s@, radix as nat) {
            Some(v) => v < -0x8000_0000_0000_0000 || v > 0x8000_0000_0000_0000,
            None => true,
        },
{
    let neg = s.len() > 0 && s[0] == '-';
    let signed = s.len() > 0 && (s[0] == '-' || s[0] == '+');
    let body = if signed {
        &s[1..s.len()]
    } else {
        s
    };
    assert(signed ==> body@ =~= s@.drop_first());
    assert(spec_split_sign(s@).1 =~= body@);
    assert(spec_split_sign(s@).0 == neg);
    match digits_at_most(body, radix, 0x8000_0000_0000_0000) {
        None => None,
        Some(m) => {
            let v = m as i128;
            if neg {
                Some(-v)
            } else {
                Some(v)
            }
        },
    }
}

/// `u64::from_str_radix` on `s`.
fn u64_from_radix(s: &[char], radix: u32) -> (r: Option<u64>)
    requires
        radix == 8 || radix == 10 || radix == 16,
    ensures
        r matches Some(v) ==> spec_u64_from_radix(s@, radix as nat) == Some(v as int),
        r is None ==> spec_u64_from_radix(s@, radix as nat) is None,
{
    let body = if s.len() > 0 && s[0] == '+' {
        &s[1..s.len()]
    } else {
        s
    };
    assert(s.len() > 0 && s@[0] == '+' ==> body@ =~= s@.drop_first());
    match digits_at_most(body, radix, 0xffff_ffff_ffff_ffff) {
        None => None,
        Some(m) => Some(m as u64),
    }
}

/// Parses a Core Schema int lexeme (`[-+]?[0-9]+`, `0o[0-7]+`, or `0x[0-9a-fA-F]+`). `None` when
/// its value lies outside the `i64` range.
pub fn parse_core_int(text: &[char]) -> (r: Option<i64>)
    ensures
        r matches Some(v) ==> spec_core_int(text@) == Some(v as int),
        r is None ==> spec_core_int(text@) is None,
{
    let (sign, rest): (i64, &[char]) = if text.len() > 0 && text[0] == '-' {
        (-1, &text[1..text.len()])
    } else if text.len() > 0 && text[0] == '+' {
        (1, &text[1..text.len()])
    } else {
        (1, text)
    };
    assert(spec_split_sign(text@).0 == (sign == -1));
    assert(spec_split_sign(text@).1 =~= rest@);
    let magnitude = if rest.len() >= 2 && rest[0] == '0' && rest[1] == 'x' {
        assert(rest@.skip(2) =~= rest@.subrange(2, rest@.len() as int));
        int_from_radix(&rest[2..rest.len()], 16)
    } else if rest.len() >= 2 && rest[0] == '0' && rest[1] == 'o' {
        assert(rest@.skip(2) =~= rest@.subrange(2, rest@.len() as int));
        int_from_radix(&rest[2..rest.len()], 8)
    } else {
        int_from_radix(rest, 10)
    };
    match magnitude {
        None => None,
        Some(m) => {
            let v: i128 = if sign == -1 {
                -m
            } else {
                m
            };
            if -0x8000_0000_0000_0000 <= v && v <= 0x7fff_ffff_ffff_ffff {
                Some(v as i64)
            } else {
                None
            }
        },
    }
}

/// Like [`parse_core_int`], but for magnitudes that fit `u64` (an unsigned lexeme wider than
/// `i64::MAX`).
pub fn parse_core_uint(text: &[char]) -> (r: Option<u64>)
    ensures
        r matches Some(v) ==> spec_core_uint(text@) == Some(v as int),
        r is None ==> spec_core_uint(text@) is None,
{
    if text.len() >= 2 && text[0] == '0' && text[1] == 'x' {
        assert(text@.skip(2) =~= text@.subrange(2, text@.len() as int));
        u64_from_radix(&text[2..text.len()], 16)
    } else if text.len() >= 2 && text[0] == '0' && text[1] == 'o' {
        assert(text@.skip(2) =~= text@.subrange(2, text@.len() as int));
        u64_from_radix(&text[2..text.len()], 8)
    } else {
        u64_from_radix(text, 10)
    }
}

// ---------------------------------------------------------------------------------------------
// Copies
// ---------------------------------------------------------------------------------------------
impl Tag {
    /// A copy of this tag.
    pub fn duplicate(&self) -> (r: Tag)
        ensures
            r@ == self@,
    {
        match self {
            Tag::Unspecified => Tag::Unspecified,
            Tag::NonSpecific => Tag::NonSpecific,
            Tag::Global(s) => Tag::Global(s.clone()),
            Tag::Standard(t) => Tag::Standard(*t),
        }
    }
}

impl Scalar {
    /// A copy of this scalar.
    pub fn duplicate(&self) -> (r: Scalar)
        ensures
            r.style() == self.style(),
            r.text() == self.text(),
    {
        match self {
            Scalar::Plain(s) => Scalar::Plain(s.clone()),
            Scalar::SingleStr(s) => Scalar::SingleStr(s.clone()),
            Scalar::DoubleStr(s) => Scalar::DoubleStr(s.clone()),
            Scalar::Literal(s) => Scalar::Literal(s.clone()),
            Scalar::Folded(s) => Scalar::Folded(s.clone()),
        }
    }
}

impl Node {
    /// A deep copy of this node, span included.
    pub fn duplicate(&self) -> (r: Node)
        ensures
            r@ == self@,
        decreases *self, 2nat,
    {
        Node { value: self.value.duplicate(), tag: self.tag.duplicate(), span: self.span }
    }
}

impl Content {
    /// A deep copy of this content.
    pub fn duplicate(&self) -> (r: Content)
        ensures
            r@ == self@,
        decreases *self, 2nat,
    {
        match self {
            Content::Empty => Content::Empty,
            Content::Scalar(s) => Content::Scalar(s.duplicate()),
            Content::Sequence(items) => Content::Sequence(duplicate_nodes(items)),
            Content::Mapping(m) => Content::Mapping(Mapping(duplicate_entries(&m.0))),
        }
    }
}

/// A deep copy of each node of `v`.
fn duplicate_nodes(v: &Vec<Node>) -> (r: Vec<Node>)
    ensures
        nodes_view(r@) == nodes_view(v@),
    decreases *v, 1nat,
{
    let mut out: Vec<Node> = Vec::new();
    let mut i: usize = 0;
    while i < v.len()
        invariant
            i <= v.len(),
            out@.len() == i,
            forall|j: int| 0 <= j < i ==> #[trigger] node_view(out@[j]) == node_view(v@[j]),
        decreases v.len() - i,
    {
        assert(decreases_to!(*v => v@[i as int]));
        let n = v[i].duplicate();
        out.push(n);
        i = i + 1;
    }
    proof {
        lemma_nodes_view_len(out@);
        lemma_nodes_view_len(v@);
        assert(nodes_view(out@) =~= nodes_view(v@));
    }
    out
}

/// A deep copy of each entry of `v`.
fn duplicate_entries(v: &Vec<MapEntry>) -> (r: Vec<MapEntry>)
    ensures
        entries_view(r@) == entries_view(v@),
    decreases *v, 1nat,
{
    let mut out: Vec<MapEntry> = Vec::new();
    let mut i: usize = 0;
    while i < v.len()
        invariant
            i <= v.len(),
            out@.len() == i,
            forall|j: int|
                0 <= j < i ==> #[trigger] node_view(out@[j].key) == node_view(v@[j].key)
                    && node_view(out@[j].value) == node_view(v@[j].value),
        decreases v.len() - i,
    {
        assert(decreases_to!(*v => v@[i as int]));
        let key = v[i].key.duplicate();
        let value = v[i].value.duplicate();
        out.push(MapEntry { key, value });
        i = i + 1;
    }
    proof {
        lemma_entries_view_len(out@);
        lemma_entries_view_len(v@);
        assert(entries_view(out@) =~= entries_view(v@));
    }
    out
}

impl Clone for Node {
    fn clone(&self) -> (r: Node)
        ensures
            r@ == self@,
    {
        self.duplicate()
    }
}

impl Clone for Content {
    fn clone(&self) -> (r: Content)
        ensures
            r@ == self@,
    {
        self.duplicate()
    }
}

} // verus!
