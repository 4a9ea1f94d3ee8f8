//! The input the grammar reads: the characters of the source text, each with the byte offset
//! it starts at, and the parse-time state (anchors and tag handles) threaded through a parse.
use vstd::prelude::*;

use crate::parse::anchor::AnchorStore;
use crate::parse::tag_handles::TagHandles;
use crate::text::{
    byte_len, byte_offset, char_width, chars_of, lemma_byte_offset_mono, lemma_byte_offset_step,
    slice_of,
};
use crate::value::{
    entries_view, nodes_view, spans_in, Content, ContentV, MapEntry, Node, NodeV, Span,
};

verus! {

broadcast use vstd::std_specs::vec::group_vec_axioms;

/// The source text as characters, with the byte offset of every character position.
pub struct Text {
    chars: Vec<char>,
    offsets: Vec<usize>,
}

impl Text {
    /// Each position's offset is the UTF-8 length of the text before it.
    #[verifier::type_invariant]
    closed spec fn wf(self) -> bool {
        &&& self.offsets@.len() == self.chars@.len() + 1
        &&& self.chars@.len() < usize::MAX
        &&& forall|i: int|
            0 <= i <= self.chars@.len() ==> #[trigger] self.offsets@[i] == byte_offset(
                self.chars@,
                i,
            )
    }

    /// The characters of the text.
    pub closed spec fn view(self) -> Seq<char> {
        self.chars@
    }

    /// The length of the text in bytes: where every span of it ends at the latest.
    pub open spec fn limit(self) -> nat {
        byte_len(self.view())
    }

    /// Reads `input` into characters and offsets.
    pub fn new(input: &str) -> (r: Text)
        requires
            byte_len(input@) < usize::MAX,
        ensures
            r.view() == input@,
    {
        let chars = chars_of(input);
        let mut offsets: Vec<usize> = Vec::new();
        let mut total: usize = 0;
        let mut i: usize = 0;
        proof {
            assert(chars@.subrange(0, 0) =~= Seq::<char>::empty());
        }
        while i < chars.len()
            invariant
                i <= chars@.len(),
                chars@ == input@,
                byte_len(input@) < usize::MAX,
                offsets@.len() == i,
                total == byte_offset(chars@, i as int),
                forall|j: int| 0 <= j < i ==> #[trigger] offsets@[j] == byte_offset(chars@, j),
            decreases chars.len() - i,
        {
            offsets.push(total);
            proof {
                lemma_byte_offset_step(chars@, i as int);
                lemma_byte_offset_mono(chars@, i + 1, chars@.len() as int);
                assert(chars@.subrange(0, chars@.len() as int) =~= chars@);
            }
            total = total + char_width(chars[i]);
            i = i + 1;
        }
        offsets.push(total);
        proof {
            crate::text::lemma_byte_offset_ge_index(chars@, chars@.len() as int);
            assert(chars@.subrange(0, chars@.len() as int) =~= chars@);
        }
        Text { chars, offsets }
    }

    /// The number of characters.
    pub fn len(&self) -> (r: usize)
        ensures
            r == self.view().len(),
            r < usize::MAX,
    {
        proof {
            use_type_invariant(self);
        }
        self.chars.len()
    }

    /// The character at `i`, if `i` is within the text.
    pub fn peek(&self, i: usize) -> (r: Option<char>)
        ensures
            r is Some <==> i < self.view().len(),
            r matches Some(c) ==> c == self.view()[i as int],
            self.view().len() < usize::MAX,
    {
        proof {
            use_type_invariant(self);
        }
        if i < self.chars.len() {
            Some(self.chars[i])
        } else {
            None
        }
    }

    /// Whether the character at `i` is `c`.
    pub fn is(&self, i: usize, c: char) -> (r: bool)
        ensures
            r == (i < self.view().len() && self.view()[i as int] == c),
            self.view().len() < usize::MAX,
    {
        proof {
            use_type_invariant(self);
        }
        i < self.chars.len() && self.chars[i] == c
    }

    /// The characters at `i..j`.
    pub fn chars(&self, i: usize, j: usize) -> (r: &[char])
        requires
            i <= j <= self.view().len(),
        ensures
            r@ == self.view().subrange(i as int, j as int),
    {
        slice_of(self.chars.as_slice(), i, j)
    }

    /// The byte offset of position `i`.
    pub fn offset(&self, i: usize) -> (r: usize)
        requires
            i <= self.view().len(),
        ensures
            r == byte_offset(self.view(), i as int),
    {
        proof {
            use_type_invariant(self);
        }
        self.offsets[i]
    }

    /// The span of the characters at `i..j`.
    pub fn span(&self, i: usize, j: usize) -> (r: Span)
        requires
            i <= j <= self.view().len(),
        ensures
            r == text_span(self.view(), i as int, j as int),
            r.spec_start() == byte_offset(self.view(), i as int),
            r.spec_end() == byte_offset(self.view(), j as int),
            r.spec_start() <= r.spec_end() <= self.limit(),
    {
        proof {
            lemma_byte_offset_mono(self.view(), i as int, j as int);
            lemma_byte_offset_mono(self.view(), j as int, self.view().len() as int);
            assert(self.view().subrange(0, self.view().len() as int) =~= self.view());
        }
        Span::new(self.offset(i), self.offset(j))
    }
}

/// The span of the characters at `i..j` of `s`: their byte range.
pub open spec fn text_span(s: Seq<char>, i: int, j: int) -> Span {
    Span::spec_new(byte_offset(s, i), byte_offset(s, j))
}

/// The anchors of a document: each name with the node it stands for.
pub type Anchors = Map<Seq<char>, NodeV>;

/// The tag handles of a document: each handle with its prefix.
pub type Handles = Map<Seq<char>, Seq<char>>;

/// What a production of the grammar yields, read from a position with some anchors registered:
/// its value and the position after it, if it matches there, and the anchors registered once it
/// is done. A node's anchor stays registered even when a production around it fails, as the
/// parse state is not rolled back.
pub struct Parsed<X> {
    pub found: Option<(X, int)>,
    pub anchors: Anchors,
}

/// A node and the position after it, as the grammar's values.
pub open spec fn node_at(r: Option<(Node, usize)>) -> Option<(NodeV, int)> {
    match r {
        Some((n, q)) => Some((n@, q as int)),
        None => None,
    }
}

/// Content and the position after it, as the grammar's values.
pub open spec fn content_at(r: Option<(Content, usize)>) -> Option<(ContentV, int)> {
    match r {
        Some((c, q)) => Some((c@, q as int)),
        None => None,
    }
}

/// A mapping entry and the position after it, as the grammar's values.
pub open spec fn entry_at(r: Option<(MapEntry, usize)>) -> Option<((NodeV, NodeV), int)> {
    match r {
        Some((e, q)) => Some(((e.key@, e.value@), q as int)),
        None => None,
    }
}

/// Nodes and the position after them, as the grammar's values.
pub open spec fn nodes_at(r: Option<(Vec<Node>, usize)>) -> Option<(Seq<NodeV>, int)> {
    match r {
        Some((v, q)) => Some((nodes_view(v@), q as int)),
        None => None,
    }
}

/// Mapping entries and the position after them, as the grammar's values.
pub open spec fn entries_at(r: Option<(Vec<MapEntry>, usize)>) -> Option<
    (Seq<(NodeV, NodeV)>, int),
> {
    match r {
        Some((v, q)) => Some((entries_view(v@), q as int)),
        None => None,
    }
}

/// Parse-time mutable state threaded through a parse: the document's anchors and the tag-handle
/// map.
pub struct ParseState {
    pub anchors: AnchorStore,
    pub tag_handles: TagHandles,
}

impl ParseState {
    /// Every anchored node, and every node below it, records the span of a run of the
    /// characters of `s`.
    pub open spec fn anchors_within(self, s: Seq<char>) -> bool {
        forall|k: Seq<char>|
            self.anchors@.contains_key(k) ==> spans_in(#[trigger] self.anchors@[k], s)
    }

    /// The state a document starts in: no anchors, and just the two default tag handles.
    pub fn new() -> (r: ParseState)
        ensures
            r.anchors@ == Map::<Seq<char>, crate::value::NodeV>::empty(),
            forall|s: Seq<char>| r.anchors_within(s),
            r.tag_handles@ == crate::parse::tag_handles::default_handles(),
    {
        ParseState { anchors: AnchorStore::new(), tag_handles: TagHandles::new() }
    }
}

} // verus!
