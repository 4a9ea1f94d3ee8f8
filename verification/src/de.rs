//! The decisions behind deserializing a [`Node`]: what a node hands a visitor, how an enum is
//! read out of it, and where an error raised against it points.
use vstd::prelude::*;

use crate::error::{spec_excerpt, Error, Excerpt, ExcerptV};
use crate::resolve::{debug_quoted, debug_string};
use crate::text::{byte_len, chars_of};
use crate::resolve::spec_classify;
use crate::value::{
    bool_value, parse_core_int, parse_core_uint, spec_bool_value, spec_core_int, spec_core_uint,
    spec_digits_value, spec_has_radix_prefix, spec_signed, spec_split_sign, Content, Node, Scalar,
    Span, StandardTag, Tag,
};

verus! {

/// What deserializing a node hands its visitor.
#[derive(Debug, PartialEq)]
pub enum Visit {
    /// A unit: an empty node, or a scalar tagged null.
    Unit,
    /// The node's sequence items, one by one.
    Sequence,
    /// The node's mapping entries, one by one.
    Mapping,
    /// A bool.
    Bool(bool),
    /// An integer that fits `i64`.
    I64(i64),
    /// An integer that fits `u64` but not `i64`.
    U64(u64),
    /// A float, still to be read out of the scalar's text.
    Float,
    /// The scalar's text.
    Str,
    /// The node cannot be read as its tag says; the message of the error.
    Invalid(String),
}

/// The model of a [`Visit`].
pub enum VisitV {
    Unit,
    Sequence,
    Mapping,
    Bool(bool),
    Int(int),
    Float,
    Str,
    Invalid(Seq<char>),
}

impl View for Visit {
    type V = VisitV;

    open spec fn view(&self) -> VisitV {
        match self {
            Visit::Unit => VisitV::Unit,
            Visit::Sequence => VisitV::Sequence,
            Visit::Mapping => VisitV::Mapping,
            Visit::Bool(b) => VisitV::Bool(*b),
            Visit::I64(v) => VisitV::Int(*v as int),
            Visit::U64(v) => VisitV::Int(*v as int),
            Visit::Float => VisitV::Float,
            Visit::Str => VisitV::Str,
            Visit::Invalid(m) => VisitV::Invalid(m@),
        }
    }
}

/// What deserializing a node with content `c` and tag `tag` hands its visitor: collections and
/// empty nodes by their kind, a null-tagged scalar as a unit, a bool- or int-tagged scalar as
/// the value its text reads as (an int as `i64` where it fits, else as `u64`), a float-tagged
/// scalar as a float, and any other scalar as its text.
pub open spec fn spec_visit(c: Content, tag: Tag) -> VisitV {
    match c {
        Content::Empty => VisitV::Unit,
        Content::Sequence(_) => VisitV::Sequence,
        Content::Mapping(_) => VisitV::Mapping,
        Content::Scalar(s) => {
            let text = s.text();
            if tag == Tag::Standard(StandardTag::Null) {
                VisitV::Unit
            } else if tag == Tag::Standard(StandardTag::Bool) {
                match spec_bool_value(text) {
                    Some(b) => VisitV::Bool(b),
                    None => VisitV::Invalid("invalid bool lexeme: "@ + debug_string(text)),
                }
            } else if tag == Tag::Standard(StandardTag::Int) {
                match spec_core_int(text) {
                    Some(v) => VisitV::Int(v),
                    None => match spec_core_uint(text) {
                        Some(v) => VisitV::Int(v),
                        None => VisitV::Invalid("integer lexeme out of i64/u64 range: "@ + text),
                    },
                }
            } else if tag == Tag::Standard(StandardTag::Float) {
                VisitV::Float
            } else {
                VisitV::Str
            }
        },
    }
}

/// The text of a scalar.
fn scalar_str(s: &Scalar) -> (r: &str)
    ensures
        r@ == s.text(),
{
    match s {
        Scalar::Plain(t) => t.as_str(),
        Scalar::SingleStr(t) => t.as_str(),
        Scalar::DoubleStr(t) => t.as_str(),
        Scalar::Literal(t) => t.as_str(),
        Scalar::Folded(t) => t.as_str(),
    }
}

/// What deserializing `node` hands its visitor.
pub fn visit(node: &Node) -> (r: Visit)
    ensures
        r@ == spec_visit(node.value, node.tag),
        r matches Visit::U64(v) ==> spec_core_int(node.value->Scalar_0.text()) is None,
{
    match &node.value {
        Content::Empty => Visit::Unit,
        Content::Sequence(_) => Visit::Sequence,
        Content::Mapping(_) => Visit::Mapping,
        Content::Scalar(s) => {
            let text = scalar_str(s);
            match node.tag {
                Tag::Standard(StandardTag::Null) => Visit::Unit,
                Tag::Standard(StandardTag::Bool) => {
                    let cs = chars_of(text);
                    match bool_value(cs.as_slice()) {
                        Some(b) => Visit::Bool(b),
                        None => {
                            let mut m = String::from_str("invalid bool lexeme: ");
                            let q = debug_quoted(text);
                            m.append(q.as_str());
                            Visit::Invalid(m)
                        },
                    }
                },
                Tag::Standard(StandardTag::Int) => {
                    let cs = chars_of(text);
                    match parse_core_int(cs.as_slice()) {
                        Some(v) => Visit::I64(v),
                        None => match parse_core_uint(cs.as_slice()) {
                            Some(v) => Visit::U64(v),
                            None => {
                                let mut m = String::from_str(
                                    "integer lexeme out of i64/u64 range: ",
                                );
                                m.append(text);
                                Visit::Invalid(m)
                            },
                        },
                    }
                },
                Tag::Standard(StandardTag::Float) => Visit::Float,
                _ => Visit::Str,
            }
        },
    }
}

/// Whether an optional value is absent: the node is empty, or tagged null.
pub fn is_none(node: &Node) -> (r: bool)
    ensures
        r == (node.value == Content::Empty || node.tag == Tag::Standard(StandardTag::Null)),
{
    let empty = match node.value {
        Content::Empty => true,
        _ => false,
    };
    empty || node.is_null()
}

/// How an enum is written.
#[derive(Debug, PartialEq)]
pub enum EnumShape {
    /// A scalar naming a unit variant.
    Name,
    /// A single-entry mapping from the variant's name to its value.
    Entry,
    /// Neither; the message of the error.
    Invalid(String),
}

/// How content names what is expected of it in an error: `null`, `a scalar`, `a sequence`,
/// `a mapping`.
pub open spec fn spec_kind_phrase(c: Content) -> Seq<char> {
    match c {
        Content::Empty => "null"@,
        Content::Scalar(_) => "a scalar"@,
        Content::Sequence(_) => "a sequence"@,
        Content::Mapping(_) => "a mapping"@,
    }
}

fn kind_phrase(c: &Content) -> (r: &'static str)
    ensures
        r@ == spec_kind_phrase(*c),
{
    match c {
        Content::Empty => "null",
        Content::Scalar(_) => "a scalar",
        Content::Sequence(_) => "a sequence",
        Content::Mapping(_) => "a mapping",
    }
}

/// How `c` reads as an enum: a scalar names a unit variant, a mapping of exactly one entry
/// holds a variant and its value, and anything else is an error.
pub open spec fn spec_enum_shape(c: Content) -> Option<Seq<char>> {
    match c {
        Content::Scalar(_) => None,
        Content::Mapping(m) => if m.0@.len() == 1 {
            None
        } else if m.0@.len() == 0 {
            Some(
                "expected exactly one entry for an externally tagged enum, found an empty mapping"@,
            )
        } else {
            Some(
                "expected exactly one entry for an externally tagged enum, found more than one"@,
            )
        },
        _ => Some(
            "expected a string or a single-entry mapping for an enum, found "@
                + spec_kind_phrase(c),
        ),
    }
}

/// How `node` reads as an enum.
pub fn enum_shape(node: &Node) -> (r: EnumShape)
    ensures
        match r {
            EnumShape::Name => node.value is Scalar,
            EnumShape::Entry => node.value is Mapping && spec_enum_shape(node.value) is None,
            EnumShape::Invalid(m) => spec_enum_shape(node.value) == Some(m@),
        },
        spec_enum_shape(node.value) is None <==> !(r is Invalid),
{
    match &node.value {
        Content::Scalar(_) => EnumShape::Name,
        Content::Mapping(m) => {
            if m.0.len() == 1 {
                EnumShape::Entry
            } else if m.0.len() == 0 {
                EnumShape::Invalid(
                    String::from_str(
                        "expected exactly one entry for an externally tagged enum, found an empty mapping",
                    ),
                )
            } else {
                EnumShape::Invalid(
                    String::from_str(
                        "expected exactly one entry for an externally tagged enum, found more than one",
                    ),
                )
            }
        },
        other => {
            let mut m = String::from_str(
                "expected a string or a single-entry mapping for an enum, found ",
            );
            m.append(kind_phrase(other));
            EnumShape::Invalid(m)
        },
    }
}

/// The error for a unit variant whose value is not empty, if it is not.
pub fn unit_variant_error(value: &Node) -> (r: Option<String>)
    ensures
        match r {
            None => value.value == Content::Empty,
            Some(m) => value.value != Content::Empty && m@
                == "expected an empty value for a unit variant, found "@ + spec_kind_phrase(
                value.value,
            ),
        },
{
    match &value.value {
        Content::Empty => None,
        other => {
            let mut m = String::from_str("expected an empty value for a unit variant, found ");
            m.append(kind_phrase(other));
            Some(m)
        },
    }
}

/// Points `err` at the node with span `span` in `source`, unless it already points somewhere or
/// either is unknown: only a deserialization error without an excerpt is located.
pub fn locate(err: Error, span: Option<Span>, source: Option<&str>) -> (r: Error)
    requires
        source matches Some(s) ==> byte_len(s@) < usize::MAX,
    ensures
        match (err, span, source) {
            (Error::Deserialize { message, excerpt: None }, Some(sp), Some(s)) => r matches Error::Deserialize { message: m, excerpt: Some(e) } && m@ == message@ && e.spec_view() == spec_excerpt(
                s@,
                sp.spec_start() as int,
                sp.spec_end() as int,
            ),
            _ => r == err,
        },
{
    match (err, span, source) {
        (Error::Deserialize { message, excerpt: None }, Some(sp), Some(s)) => {
            Error::Deserialize { message, excerpt: Some(Excerpt::new(s, sp)) }
        },
        (err, _, _) => err,
    }
}

/// A deserializer over an owned [`Node`], and the input it was parsed from when that is
/// known, to locate its errors.
pub struct NodeDeserializer {
    pub node: Node,
    pub source: Option<String>,
}

impl NodeDeserializer {
    /// Creates a new instance wrapping `node`. Errors from it carry no source excerpt.
    pub fn new(node: Node) -> (r: NodeDeserializer)
        ensures
            r.node == node,
            r.source is None,
    {
        NodeDeserializer { node, source: None }
    }

    /// Like [`new`](Self::new), but able to render errors against the input `node` was parsed
    /// from.
    pub fn with_source(node: Node, source: &str) -> (r: NodeDeserializer)
        ensures
            r.node == node,
            r.source matches Some(s) && s@ == source@,
    {
        NodeDeserializer { node, source: Some(source.to_owned()) }
    }

    /// Points `err` at this deserializer's node, per [`locate`].
    pub fn locate(&self, err: Error) -> (r: Error)
        requires
            self.source matches Some(s) ==> byte_len(s@) < usize::MAX,
        ensures
            match (err, self.node.span.spec_get(), self.source) {
                (Error::Deserialize { message, excerpt: None }, Some(sp), Some(s)) => r matches Error::Deserialize { message: m, excerpt: Some(e) } && m@ == message@ && e.spec_view() == spec_excerpt(
                    s@,
                    sp.spec_start() as int,
                    sp.spec_end() as int,
                ),
                _ => r == err,
            },
    {
        match &self.source {
            Some(s) => locate(err, self.node.span(), Some(s.as_str())),
            None => locate(err, self.node.span(), None),
        }
    }
}

/// The integer a Core Schema int lexeme denotes: its sign applied to its `0x` hex, `0o` octal or
/// decimal digits.
pub open spec fn spec_int_lexeme_value(text: Seq<char>) -> int {
    let (negative, rest) = spec_split_sign(text);
    if spec_has_radix_prefix(rest, 'x') {
        spec_signed(negative, spec_digits_value(rest.skip(2), 16) as int)
    } else if spec_has_radix_prefix(rest, 'o') {
        spec_signed(negative, spec_digits_value(rest.skip(2), 8) as int)
    } else {
        spec_signed(negative, spec_digits_value(rest, 10) as int)
    }
}

/// What the Core Schema resolves to int is read as the integer it denotes: a scalar whose text
/// the schema classifies as an int, tagged int, hands its visitor that integer, whenever it lies
/// between `i64::MIN` and `u64::MAX`.
pub proof fn lemma_int_scalar_reads_as_its_value(c: Content)
    requires
        c is Scalar,
        spec_classify(c->Scalar_0.text()) == Some(StandardTag::Int),
        i64::MIN <= spec_int_lexeme_value(c->Scalar_0.text()) <= u64::MAX,
    ensures
        spec_visit(c, Tag::Standard(StandardTag::Int)) == VisitV::Int(
            spec_int_lexeme_value(c->Scalar_0.text()),
        ),
{
    let text = c->Scalar_0.text();
    let (negative, rest) = spec_split_sign(text);
    let v = spec_int_lexeme_value(text);
    assert(crate::resolve::spec_is_int(text));
    let (radix, digits) = if spec_has_radix_prefix(rest, 'x') {
        (16nat, rest.skip(2))
    } else if spec_has_radix_prefix(rest, 'o') {
        (8nat, rest.skip(2))
    } else {
        (10nat, rest)
    };
    // The digits are one or more digits of their radix, with no sign of their own.
    assert(digits.len() > 0 && crate::value::spec_all_digits(digits, radix));
    assert(crate::value::spec_radix_digit(digits[0], radix));
    assert(spec_split_sign(digits) == (false, digits));
    let m = spec_digits_value(digits, radix) as int;
    assert(v == spec_signed(negative, m));
    if negative || m <= i64::MAX {
        assert(spec_core_int(text) == Some(v));
    } else {
        assert(!negative);
        assert(spec_core_int(text) is None);
        if spec_has_radix_prefix(text, 'x') || spec_has_radix_prefix(text, 'o') {
            assert(text == rest);
        } else if text.len() > 0 && text[0] == '+' {
            assert(text.drop_first() == rest);
        } else {
            assert(text == rest);
        }
        assert(spec_core_uint(text) == Some(v));
    }
}

} // verus!
