//! Flow nodes and flow collections.
//!
//! Every production reads from a position and returns what it built with the position after
//! it, or `None` where it does not match. The productions call one another recursively; each
//! call either moves past at least one character or goes to a production of lower rank, which
//! is what the `decreases` clauses state.
use vstd::prelude::*;

use crate::parse::input::{
    content_at, entries_at, entry_at, node_at, nodes_at, text_span, Anchors, Handles, ParseState,
    Parsed, Text,
};
use crate::parse::properties::{
    alias_node, build_node, properties, spec_alias_node, spec_build_node, spec_properties_up_to,
    Properties, PropertiesV,
};
use crate::parse::scalar::{
    double_quoted, plain, plain_safe, single_quoted, spec_double_quoted, spec_plain,
    spec_plain_safe_at, spec_single_quoted,
};
use crate::parse::spaces::{
    in_flow, opt_separate, separate, separate_in_line, spec_is_key, spec_separate,
    spec_separate_in_line, Context, IndentLevel,
};
use crate::value::{
    content_spans_in, entries_within, lemma_empty_within, lemma_mapping_spans,
    lemma_push_entry_within, lemma_push_node_within, lemma_sequence_spans, nodes_within,
    entries_view, nodes_view, spans_in, Content, ContentV, MapEntry, Mapping, Node, NodeV,
    Scalar, ScalarStyle, SpanSlot, Tag, TagV,
};

verus! {

broadcast use vstd::std_specs::vec::group_vec_axioms;

// ---------------------------------------------------------------------------------------------
// The flow productions, as the grammar reads them
// ---------------------------------------------------------------------------------------------
/// The context flow collection entries are read in: flow-key within a key, flow-in otherwise.
pub open spec fn spec_in_flow(c: Context) -> Context {
    if spec_is_key(c) {
        Context::FlowKey
    } else {
        Context::FlowIn
    }
}

/// A node without properties covering `p..q` of `s`.
pub open spec fn bare_node(s: Seq<char>, p: int, q: int, content: ContentV) -> NodeV {
    NodeV { value: content, tag: TagV::Unspecified, span: Some(text_span(s, p, q)) }
}

/// `s-separate(n,c)?` at `p`: where the separation ends, or `p` when there is none.
pub open spec fn spec_opt_separate(s: Seq<char>, p: int, n: nat, c: Context) -> int {
    match spec_separate(s, p, n, c) {
        Some(q) => q,
        None => p,
    }
}

/// The same anchors and nothing found.
pub open spec fn no_match<X>(anchors: Anchors) -> Parsed<X> {
    Parsed { found: None, anchors }
}

/// `ns-flow-yaml-content(n,c)` at `p`: a plain scalar.
pub open spec fn spec_flow_yaml_content(s: Seq<char>, p: int, n: nat, c: Context) -> Option<
    (ContentV, int),
> {
    match spec_plain(s, p, n, c) {
        Some((text, q)) => Some((ContentV::Scalar(ScalarStyle::Plain, text), q)),
        None => None,
    }
}

/// Properties at `p`, then separated content (`ct` being what the content production gives at
/// a position) or else an empty node: the node they build and the anchors after it.
pub open spec fn spec_node_with_props(
    s: Seq<char>,
    p: int,
    props: PropertiesV,
    q: int,
    content: Option<(ContentV, int)>,
    anchors: Anchors,
    h: Handles,
) -> Parsed<NodeV> {
    let (ct, e) = match content {
        Some((ct, e)) => (ct, e),
        None => (ContentV::Empty, q),
    };
    let built = spec_build_node(s, p, e, Some(props), ct, anchors, h);
    Parsed {
        found: match built.0 {
            Some(node) => Some((node, e)),
            None => None,
        },
        anchors: built.1,
    }
}

/// `ns-flow-yaml-node(n,c)` at `p`: an alias, a plain scalar, or properties optionally followed
/// by a plain scalar.
pub open spec fn spec_flow_yaml_node(
    s: Seq<char>,
    p: int,
    n: nat,
    c: Context,
    a: Anchors,
    h: Handles,
) -> Parsed<NodeV> {
    match spec_alias_node(s, p, a) {
        Some(x) => Parsed { found: Some(x), anchors: a },
        None => match spec_flow_yaml_content(s, p, n, c) {
            Some((ct, q)) => Parsed { found: Some((bare_node(s, p, q, ct), q)), anchors: a },
            None => match spec_properties_up_to(s, p, n, c, true) {
                None => no_match(a),
                Some((props, q)) => spec_node_with_props(
                    s,
                    p,
                    props,
                    q,
                    match spec_separate(s, q, n, c) {
                        Some(x) => spec_flow_yaml_content(s, x, n, c),
                        None => None,
                    },
                    a,
                    h,
                ),
            },
        },
    }
}

/// `c-flow-json-content(n,c)` at `p`: a flow sequence, a flow mapping, or a single- or
/// double-quoted scalar, tried in that order.
pub open spec fn spec_flow_json_content(
    s: Seq<char>,
    p: int,
    n: nat,
    c: Context,
    a: Anchors,
    h: Handles,
) -> Parsed<ContentV>
    decreases s.len() - p, 3nat,
{
    let sq = spec_flow_sequence(s, p, n, c, a, h);
    match sq.found {
        Some((items, q)) => Parsed { found: Some((ContentV::Sequence(items), q)), anchors: sq.anchors },
        None => {
            let mp = spec_flow_mapping(s, p, n, c, sq.anchors, h);
            match mp.found {
                Some((entries, q)) => Parsed {
                    found: Some((ContentV::Mapping(entries), q)),
                    anchors: mp.anchors,
                },
                None => Parsed {
                    found: match spec_single_quoted(s, p, n, c) {
                        Some((text, q)) => Some((ContentV::Scalar(ScalarStyle::SingleStr, text), q)),
                        None => match spec_double_quoted(s, p, n, c) {
                            Some((text, q)) => Some(
                                (ContentV::Scalar(ScalarStyle::DoubleStr, text), q),
                            ),
                            None => None,
                        },
                    },
                    anchors: mp.anchors,
                },
            }
        },
    }
}

/// `ns-flow-content(n,c)` at `p`: plain content, else JSON-like content.
pub open spec fn spec_flow_content(
    s: Seq<char>,
    p: int,
    n: nat,
    c: Context,
    a: Anchors,
    h: Handles,
) -> Parsed<ContentV>
    decreases s.len() - p, 4nat,
{
    match spec_flow_yaml_content(s, p, n, c) {
        Some(x) => Parsed { found: Some(x), anchors: a },
        None => spec_flow_json_content(s, p, n, c, a, h),
    }
}

/// `ns-flow-node(n,c)` at `p`: an alias, flow content, or properties optionally followed by
/// separated flow content.
pub open spec fn spec_flow_node(
    s: Seq<char>,
    p: int,
    n: nat,
    c: Context,
    a: Anchors,
    h: Handles,
) -> Parsed<NodeV>
    decreases s.len() - p, 5nat,
{
    match spec_alias_node(s, p, a) {
        Some(x) => Parsed { found: Some(x), anchors: a },
        None => {
            let fc = spec_flow_content(s, p, n, c, a, h);
            match fc.found {
                Some((ct, q)) => Parsed { found: Some((bare_node(s, p, q, ct), q)), anchors: fc.anchors },
                None => match spec_properties_up_to(s, p, n, c, true) {
                    None => no_match(fc.anchors),
                    Some((props, q)) => match spec_separate(s, q, n, c) {
                        Some(x) => if p < x <= s.len() {
                            let inner = spec_flow_content(s, x, n, c, fc.anchors, h);
                            spec_node_with_props(s, p, props, q, inner.found, inner.anchors, h)
                        } else {
                            no_match(fc.anchors)
                        },
                        None => spec_node_with_props(s, p, props, q, None, fc.anchors, h),
                    },
                },
            }
        },
    }
}

/// `c-flow-json-node(n,c)` at `p`: optional properties and separation, then JSON-like content.
pub open spec fn spec_flow_json_node(
    s: Seq<char>,
    p: int,
    n: nat,
    c: Context,
    a: Anchors,
    h: Handles,
) -> Parsed<NodeV>
    decreases s.len() - p, 6nat,
{
    let (props, x) = match spec_properties_up_to(s, p, n, c, true) {
        Some((props, q)) => match spec_separate(s, q, n, c) {
            Some(x) => (Some(props), x),
            None => (None, p),
        },
        None => (None, p),
    };
    if !(p <= x <= s.len()) {
        no_match(a)
    } else {
        let jc = spec_flow_json_content(s, x, n, c, a, h);
        match jc.found {
            None => no_match(jc.anchors),
            Some((ct, e)) => {
                let built = spec_build_node(s, p, e, props, ct, jc.anchors, h);
                Parsed {
                    found: match built.0 {
                        Some(node) => Some((node, e)),
                        None => None,
                    },
                    anchors: built.1,
                }
            },
        }
    }
}

/// A key node ending at `q`, then optional white space: the key and where it ends, unless
/// the key reaches more than [`IMPLICIT_KEY_LIMIT`] characters past `p`.
pub open spec fn spec_one_line_key(s: Seq<char>, p: int, key: Parsed<NodeV>) -> Parsed<NodeV> {
    match key.found {
        None => key,
        Some((node, q)) => {
            let e = match spec_separate_in_line(s, q) {
                Some(e) => e,
                None => q,
            };
            Parsed {
                found: if e - p > IMPLICIT_KEY_LIMIT {
                    None
                } else {
                    Some((node, e))
                },
                anchors: key.anchors,
            }
        },
    }
}

/// `c-s-implicit-json-key(c)` at `p`.
pub open spec fn spec_implicit_json_key(
    s: Seq<char>,
    p: int,
    c: Context,
    a: Anchors,
    h: Handles,
) -> Parsed<NodeV>
    decreases s.len() - p, 7nat,
{
    spec_one_line_key(s, p, spec_flow_json_node(s, p, 0, c, a, h))
}

/// `ns-s-implicit-yaml-key(c)` at `p`.
pub open spec fn spec_implicit_yaml_key(
    s: Seq<char>,
    p: int,
    c: Context,
    a: Anchors,
    h: Handles,
) -> Parsed<NodeV> {
    spec_one_line_key(s, p, spec_flow_yaml_node(s, p, 0, c, a, h))
}

/// An empty node at `p`, found there.
pub open spec fn empty_at(s: Seq<char>, p: int, a: Anchors) -> Parsed<NodeV> {
    Parsed { found: Some((bare_node(s, p, p, ContentV::Empty), p)), anchors: a }
}

/// `c-ns-flow-map-separate-value(n,c)` at `p`: `:` not followed by a plain-safe character,
/// then a separated flow node, or else an empty node.
pub open spec fn spec_separate_value(
    s: Seq<char>,
    p: int,
    n: nat,
    c: Context,
    a: Anchors,
    h: Handles,
) -> Parsed<NodeV>
    decreases s.len() - p, 8nat,
{
    if !(0 <= p < s.len() && s[p] == ':') || spec_plain_safe_at(s, p + 1, c) {
        no_match(a)
    } else {
        match spec_separate(s, p + 1, n, c) {
            Some(x) => if p < x <= s.len() {
                let fnode = spec_flow_node(s, x, n, c, a, h);
                match fnode.found {
                    Some(_) => fnode,
                    None => empty_at(s, p + 1, fnode.anchors),
                }
            } else {
                no_match(a)
            },
            None => empty_at(s, p + 1, a),
        }
    }
}

/// `c-ns-flow-map-adjacent-value(n,c)` at `p`: `:`, then an optionally separated flow node, or
/// else an empty node.
pub open spec fn spec_adjacent_value(
    s: Seq<char>,
    p: int,
    n: nat,
    c: Context,
    a: Anchors,
    h: Handles,
) -> Parsed<NodeV>
    decreases s.len() - p, 8nat,
{
    if !(0 <= p < s.len() && s[p] == ':') {
        no_match(a)
    } else {
        let x = spec_opt_separate(s, p + 1, n, c);
        if p < x <= s.len() {
            let fnode = spec_flow_node(s, x, n, c, a, h);
            match fnode.found {
                Some(_) => fnode,
                None => empty_at(s, p + 1, fnode.anchors),
            }
        } else {
            no_match(a)
        }
    }
}

/// A key and what a value production gave after it: the entry, or the key with an empty value
/// at `q` when the value production does not match.
pub open spec fn entry_or_empty_value(
    s: Seq<char>,
    key: NodeV,
    q: int,
    value: Parsed<NodeV>,
) -> Parsed<(NodeV, NodeV)> {
    match value.found {
        Some((v, e)) => Parsed { found: Some(((key, v), e)), anchors: value.anchors },
        None => Parsed {
            found: Some(((key, bare_node(s, q, q, ContentV::Empty)), q)),
            anchors: value.anchors,
        },
    }
}

/// A key and what a value production gave after it: the entry, if the value matches.
pub open spec fn entry_with_value(key: NodeV, value: Parsed<NodeV>) -> Parsed<(NodeV, NodeV)> {
    match value.found {
        Some((v, e)) => Parsed { found: Some(((key, v), e)), anchors: value.anchors },
        None => no_match(value.anchors),
    }
}

/// `c-ns-flow-map-empty-key-entry(n,c)` at `p`: an empty key, then a separate value.
pub open spec fn spec_empty_key_entry(
    s: Seq<char>,
    p: int,
    n: nat,
    c: Context,
    a: Anchors,
    h: Handles,
) -> Parsed<(NodeV, NodeV)>
    decreases s.len() - p, 9nat,
{
    entry_with_value(bare_node(s, p, p, ContentV::Empty), spec_separate_value(s, p, n, c, a, h))
}

/// `ns-flow-map-yaml-key-entry(n,c)` at `p`: a YAML key, then an optionally separated separate
/// value, or else an empty value.
pub open spec fn spec_yaml_key_entry(
    s: Seq<char>,
    p: int,
    n: nat,
    c: Context,
    a: Anchors,
    h: Handles,
) -> Parsed<(NodeV, NodeV)>
    decreases s.len() - p, 10nat,
{
    let key = spec_flow_yaml_node(s, p, n, c, a, h);
    match key.found {
        None => no_match(key.anchors),
        Some((k, q)) => {
            let x = spec_opt_separate(s, q, n, c);
            if p <= x <= s.len() {
                entry_or_empty_value(s, k, q, spec_separate_value(s, x, n, c, key.anchors, h))
            } else {
                no_match(key.anchors)
            }
        },
    }
}

/// `c-ns-flow-map-json-key-entry(n,c)` at `p`: a JSON-like key, then an optionally separated
/// adjacent value, or else an empty value.
pub open spec fn spec_json_key_entry(
    s: Seq<char>,
    p: int,
    n: nat,
    c: Context,
    a: Anchors,
    h: Handles,
) -> Parsed<(NodeV, NodeV)>
    decreases s.len() - p, 10nat,
{
    let key = spec_flow_json_node(s, p, n, c, a, h);
    match key.found {
        None => no_match(key.anchors),
        Some((k, q)) => {
            let x = spec_opt_separate(s, q, n, c);
            if p <= x <= s.len() {
                entry_or_empty_value(s, k, q, spec_adjacent_value(s, x, n, c, key.anchors, h))
            } else {
                no_match(key.anchors)
            }
        },
    }
}

/// `ns-flow-map-implicit-entry(n,c)` at `p`: a YAML-key entry, else an empty-key entry, else a
/// JSON-key entry.
pub open spec fn spec_implicit_entry(
    s: Seq<char>,
    p: int,
    n: nat,
    c: Context,
    a: Anchors,
    h: Handles,
) -> Parsed<(NodeV, NodeV)>
    decreases s.len() - p, 11nat,
{
    let y = spec_yaml_key_entry(s, p, n, c, a, h);
    if y.found is Some {
        y
    } else {
        let e = spec_empty_key_entry(s, p, n, c, y.anchors, h);
        if e.found is Some {
            e
        } else {
            spec_json_key_entry(s, p, n, c, e.anchors, h)
        }
    }
}

/// `ns-flow-map-explicit-entry(n,c)` at `p`: an implicit entry, or else an empty key and
/// value; it always matches.
pub open spec fn spec_explicit_entry(
    s: Seq<char>,
    p: int,
    n: nat,
    c: Context,
    a: Anchors,
    h: Handles,
) -> Parsed<(NodeV, NodeV)>
    decreases s.len() - p, 12nat,
{
    let i = spec_implicit_entry(s, p, n, c, a, h);
    if i.found is Some {
        i
    } else {
        Parsed {
            found: Some(((bare_node(s, p, p, ContentV::Empty), bare_node(s, p, p, ContentV::Empty)), p)),
            anchors: i.anchors,
        }
    }
}

/// `?` at `p` and a separated explicit entry, if they are there.
pub open spec fn spec_question_entry(
    s: Seq<char>,
    p: int,
    n: nat,
    c: Context,
    a: Anchors,
    h: Handles,
) -> Option<Parsed<(NodeV, NodeV)>>
    decreases s.len() - p, 13nat,
{
    if 0 <= p < s.len() && s[p] == '?' {
        match spec_separate(s, p + 1, n, c) {
            Some(x) => if p < x <= s.len() {
                Some(spec_explicit_entry(s, x, n, c, a, h))
            } else {
                None
            },
            None => None,
        }
    } else {
        None
    }
}

/// `ns-flow-map-entry(n,c)` at `p`: `?` and an explicit entry, else an implicit entry.
#[verifier::opaque]
pub open spec fn spec_flow_map_entry(
    s: Seq<char>,
    p: int,
    n: nat,
    c: Context,
    a: Anchors,
    h: Handles,
) -> Parsed<(NodeV, NodeV)>
    decreases s.len() - p, 14nat,
{
    match spec_question_entry(s, p, n, c, a, h) {
        Some(x) => x,
        None => spec_implicit_entry(s, p, n, c, a, h),
    }
}

/// `ns-flow-pair-yaml-key-entry(n,c)` at `p`: an implicit YAML key, then a separate value.
pub open spec fn spec_flow_pair_yaml_key_entry(
    s: Seq<char>,
    p: int,
    n: nat,
    c: Context,
    a: Anchors,
    h: Handles,
) -> Parsed<(NodeV, NodeV)>
    decreases s.len() - p, 10nat,
{
    let yk = spec_implicit_yaml_key(s, p, Context::FlowKey, a, h);
    match yk.found {
        Some((k, q)) => if p <= q <= s.len() {
            entry_with_value(k, spec_separate_value(s, q, n, c, yk.anchors, h))
        } else {
            no_match(yk.anchors)
        },
        None => no_match(yk.anchors),
    }
}

/// `c-ns-flow-pair-json-key-entry(n,c)` at `p`: an implicit JSON key, then an adjacent value.
pub open spec fn spec_flow_pair_json_key_entry(
    s: Seq<char>,
    p: int,
    n: nat,
    c: Context,
    a: Anchors,
    h: Handles,
) -> Parsed<(NodeV, NodeV)>
    decreases s.len() - p, 10nat,
{
    let jk = spec_implicit_json_key(s, p, Context::FlowKey, a, h);
    match jk.found {
        Some((k, q)) => if p <= q <= s.len() {
            entry_with_value(k, spec_adjacent_value(s, q, n, c, jk.anchors, h))
        } else {
            no_match(jk.anchors)
        },
        None => no_match(jk.anchors),
    }
}

/// `ns-flow-pair-entry(n,c)` at `p`: a YAML-key pair, else an empty-key entry, else a JSON-key
/// pair.
pub open spec fn spec_flow_pair_entry(
    s: Seq<char>,
    p: int,
    n: nat,
    c: Context,
    a: Anchors,
    h: Handles,
) -> Parsed<(NodeV, NodeV)>
    decreases s.len() - p, 11nat,
{
    let yaml = spec_flow_pair_yaml_key_entry(s, p, n, c, a, h);
    if yaml.found is Some {
        yaml
    } else {
        let e = spec_empty_key_entry(s, p, n, c, yaml.anchors, h);
        if e.found is Some {
            e
        } else {
            spec_flow_pair_json_key_entry(s, p, n, c, e.anchors, h)
        }
    }
}

/// `ns-flow-pair(n,c)` at `p`: `?` and an explicit entry, else a pair entry.
pub open spec fn spec_flow_pair(
    s: Seq<char>,
    p: int,
    n: nat,
    c: Context,
    a: Anchors,
    h: Handles,
) -> Parsed<(NodeV, NodeV)>
    decreases s.len() - p, 14nat,
{
    match spec_question_entry(s, p, n, c, a, h) {
        Some(x) => x,
        None => spec_flow_pair_entry(s, p, n, c, a, h),
    }
}

/// `ns-flow-seq-entry(n,c)` at `p`: a pair, as a single-pair mapping, else a flow node.
#[verifier::opaque]
pub open spec fn spec_flow_seq_entry(
    s: Seq<char>,
    p: int,
    n: nat,
    c: Context,
    a: Anchors,
    h: Handles,
) -> Parsed<NodeV>
    decreases s.len() - p, 15nat,
{
    let pair = spec_flow_pair(s, p, n, c, a, h);
    match pair.found {
        Some((entry, q)) => Parsed {
            found: Some((bare_node(s, p, q, ContentV::Mapping(seq![entry])), q)),
            anchors: pair.anchors,
        },
        None => spec_flow_node(s, p, n, c, pair.anchors, h),
    }
}

/// The flow sequence entries from `q` on, after `items` from `p`: the entries, each but the
/// last followed by a comma, and where they end; nothing when there are none at all.
pub open spec fn spec_seq_entries_from(
    s: Seq<char>,
    p: int,
    q: int,
    n: nat,
    c: Context,
    a: Anchors,
    h: Handles,
    items: Seq<NodeV>,
) -> Parsed<Seq<NodeV>>
    decreases s.len() - q, 16nat,
{
    let entry = spec_flow_seq_entry(s, q, n, c, a, h);
    match entry.found {
        None => Parsed {
            found: if q > p {
                Some((items, q))
            } else {
                None
            },
            anchors: entry.anchors,
        },
        Some((node, e)) => {
            let x = spec_opt_separate(s, e, n, c);
            if 0 <= x < s.len() && s[x] == ',' {
                let q2 = spec_opt_separate(s, x + 1, n, c);
                if q < q2 <= s.len() {
                    spec_seq_entries_from(s, p, q2, n, c, entry.anchors, h, items.push(node))
                } else {
                    no_match(entry.anchors)
                }
            } else {
                Parsed { found: Some((items.push(node), x)), anchors: entry.anchors }
            }
        },
    }
}

/// The flow mapping entries from `q` on, after `entries` from `p`: the entries, each but the
/// last followed by a comma, and where they end; none at all is an empty list.
pub open spec fn spec_map_entries_from(
    s: Seq<char>,
    p: int,
    q: int,
    n: nat,
    c: Context,
    a: Anchors,
    h: Handles,
    entries: Seq<(NodeV, NodeV)>,
) -> Parsed<Seq<(NodeV, NodeV)>>
    decreases s.len() - q, 16nat,
{
    let entry = spec_flow_map_entry(s, q, n, c, a, h);
    match entry.found {
        None => Parsed { found: Some((entries, q)), anchors: entry.anchors },
        Some((kv, e)) => {
            let x = spec_opt_separate(s, e, n, c);
            if 0 <= x < s.len() && s[x] == ',' {
                let q2 = spec_opt_separate(s, x + 1, n, c);
                if q < q2 <= s.len() {
                    spec_map_entries_from(s, p, q2, n, c, entry.anchors, h, entries.push(kv))
                } else {
                    no_match(entry.anchors)
                }
            } else {
                Parsed { found: Some((entries.push(kv), x)), anchors: entry.anchors }
            }
        },
    }
}

/// `c-flow-sequence(n,c)` at `p`: `[`, optional entries, `]`.
pub open spec fn spec_flow_sequence(
    s: Seq<char>,
    p: int,
    n: nat,
    c: Context,
    a: Anchors,
    h: Handles,
) -> Parsed<Seq<NodeV>>
    decreases s.len() - p, 1nat,
{
    if !(0 <= p < s.len() && s[p] == '[') {
        no_match(a)
    } else {
        let x = spec_opt_separate(s, p + 1, n, c);
        if !(p < x <= s.len()) {
            no_match(a)
        } else {
            let entries = spec_seq_entries_from(s, x, x, n, spec_in_flow(c), a, h, Seq::empty());
            let (items, e) = match entries.found {
                Some((items, e)) => (items, e),
                None => (Seq::empty(), x),
            };
            Parsed {
                found: if 0 <= e < s.len() && s[e] == ']' {
                    Some((items, e + 1))
                } else {
                    None
                },
                anchors: entries.anchors,
            }
        }
    }
}

/// `c-flow-mapping(n,c)` at `p`: `{`, optional entries, `}`.
pub open spec fn spec_flow_mapping(
    s: Seq<char>,
    p: int,
    n: nat,
    c: Context,
    a: Anchors,
    h: Handles,
) -> Parsed<Seq<(NodeV, NodeV)>>
    decreases s.len() - p, 2nat,
{
    if !(0 <= p < s.len() && s[p] == '{') {
        no_match(a)
    } else {
        let x = spec_opt_separate(s, p + 1, n, c);
        if !(p < x <= s.len()) {
            no_match(a)
        } else {
            let entries = spec_map_entries_from(s, x, x, n, spec_in_flow(c), a, h, Seq::empty());
            let (kvs, e) = match entries.found {
                Some((kvs, e)) => (kvs, e),
                None => (Seq::empty(), x),
            };
            Parsed {
                found: if 0 <= e < s.len() && s[e] == '}' {
                    Some((kvs, e + 1))
                } else {
                    None
                },
                anchors: entries.anchors,
            }
        }
    }
}

/// A node without properties covering `p..q`.
pub fn plain_node(t: &Text, p: usize, q: usize, content: Content) -> (r: Node)
    requires
        p <= q <= t.view().len(),
        content_spans_in(content@, t.view()),
    ensures
        r@ == bare_node(t.view(), p as int, q as int, content@),
        spans_in(r@, t.view()),
        r.value == content,
        r.tag == Tag::Unspecified,
{
    Node { value: content, tag: Tag::Unspecified, span: SpanSlot::some(t.span(p, q)) }
}

/// `e-node` at `p`: an empty node with an empty span.
pub fn empty_node(t: &Text, p: usize) -> (r: Node)
    requires
        p <= t.view().len(),
    ensures
        r@ == bare_node(t.view(), p as int, p as int, ContentV::Empty),
        spans_in(r@, t.view()),
        r.value == Content::Empty,
{
    plain_node(t, p, p, Content::Empty)
}

/// `ns-flow-yaml-content(n,c)`: a plain scalar.
pub fn flow_yaml_content(t: &Text, p: usize, level: IndentLevel, c: Context) -> (r: Option<
    (Content, usize),
>)
    requires
        p <= t.view().len(),
    ensures
        content_at(r) == spec_flow_yaml_content(t.view(), p as int, level.spec_get(), c),
        r matches Some((_, q)) ==> p < q <= t.view().len(),
        r matches Some((c, _)) ==> content_spans_in(c@, t.view()),
{
    match plain(t, p, level, c) {
        Some((s, q)) => Some((Content::Scalar(Scalar::Plain(s)), q)),
        None => None,
    }
}

/// `ns-flow-yaml-node(n,c)`: an alias, a plain scalar, or properties optionally followed by a
/// plain scalar.
pub fn flow_yaml_node(t: &Text, st: &mut ParseState, p: usize, level: IndentLevel, c: Context) -> (r:
    Option<(Node, usize)>)
    requires
        p <= t.view().len(),
        old(st).anchors_within(t.view()),
    ensures
        final(st).anchors_within(t.view()),
        final(st).tag_handles == old(st).tag_handles,
        spec_flow_yaml_node(t.view(), p as int, level.spec_get(), c, old(st).anchors@, old(st).tag_handles@) == (Parsed {
            found: node_at(r),
            anchors: final(st).anchors@,
        }),
        r matches Some((n, _)) ==> spans_in(n@, t.view()),
        r matches Some((_, q)) ==> p < q <= t.view().len(),
{
    match alias_node(t, st, p) {
        Some(x) => return Some(x),
        None => {},
    }
    match flow_yaml_content(t, p, level, c) {
        Some((content, q)) => return Some((plain_node(t, p, q, content), q)),
        None => {},
    }
    let (props, q) = match properties(t, p, level, c) {
        Some(x) => x,
        None => return None,
    };
    let (content, e) = match separate(t, q, level, c) {
        Some(s) => match flow_yaml_content(t, s, level, c) {
            Some((content, e)) => (content, e),
            None => (Content::Empty, q),
        },
        None => (Content::Empty, q),
    };
    match build_node(t, st, p, e, Some(props), content) {
        Some(n) => Some((n, e)),
        None => None,
    }
}

/// `c-flow-json-content(n,c)`: a flow sequence, a flow mapping, or a quoted scalar.
pub fn flow_json_content(
    t: &Text,
    st: &mut ParseState,
    p: usize,
    level: IndentLevel,
    c: Context,
) -> (r: Option<(Content, usize)>)
    requires
        p <= t.view().len(),
        old(st).anchors_within(t.view()),
    ensures
        final(st).anchors_within(t.view()),
        final(st).tag_handles == old(st).tag_handles,
        spec_flow_json_content(t.view(), p as int, level.spec_get(), c, old(st).anchors@, old(st).tag_handles@) == (Parsed {
            found: content_at(r),
            anchors: final(st).anchors@,
        }),
        r matches Some((c, _)) ==> content_spans_in(c@, t.view()),
        r matches Some((_, q)) ==> p < q <= t.view().len(),
    decreases t.view().len() - p, 3nat,
{
    match flow_sequence(t, st, p, level, c) {
        Some((items, q)) => {
            proof {
                lemma_sequence_spans(items, t.view());
            }
            return Some((Content::Sequence(items), q));
        },
        None => {},
    }
    match flow_mapping(t, st, p, level, c) {
        Some((entries, q)) => {
            proof {
                lemma_mapping_spans(entries, t.view());
            }
            return Some((Content::Mapping(Mapping(entries)), q));
        },
        None => {},
    }
    match single_quoted(t, p, level, c) {
        Some((s, q)) => return Some((Content::Scalar(Scalar::SingleStr(s)), q)),
        None => {},
    }
    match double_quoted(t, p, level, c) {
        Some((s, q)) => Some((Content::Scalar(Scalar::DoubleStr(s)), q)),
        None => None,
    }
}

/// `ns-flow-content(n,c)`: YAML (plain) or JSON-like content.
pub fn flow_content(t: &Text, st: &mut ParseState, p: usize, level: IndentLevel, c: Context) -> (r:
    Option<(Content, usize)>)
    requires
        p <= t.view().len(),
        old(st).anchors_within(t.view()),
    ensures
        final(st).anchors_within(t.view()),
        final(st).tag_handles == old(st).tag_handles,
        spec_flow_content(t.view(), p as int, level.spec_get(), c, old(st).anchors@, old(st).tag_handles@) == (Parsed {
            found: content_at(r),
            anchors: final(st).anchors@,
        }),
        r matches Some((c, _)) ==> content_spans_in(c@, t.view()),
        r matches Some((_, q)) ==> p < q <= t.view().len(),
    decreases t.view().len() - p, 4nat,
{
    match flow_yaml_content(t, p, level, c) {
        Some(x) => Some(x),
        None => flow_json_content(t, st, p, level, c),
    }
}

/// `ns-flow-node(n,c)`: an alias, flow content, or properties optionally followed by flow
/// content.
pub fn flow_node(t: &Text, st: &mut ParseState, p: usize, level: IndentLevel, c: Context) -> (r:
    Option<(Node, usize)>)
    requires
        p <= t.view().len(),
        old(st).anchors_within(t.view()),
    ensures
        final(st).anchors_within(t.view()),
        final(st).tag_handles == old(st).tag_handles,
        spec_flow_node(t.view(), p as int, level.spec_get(), c, old(st).anchors@, old(st).tag_handles@) == (Parsed {
            found: node_at(r),
            anchors: final(st).anchors@,
        }),
        r matches Some((n, _)) ==> spans_in(n@, t.view()),
        r matches Some((_, q)) ==> p < q <= t.view().len(),
    decreases t.view().len() - p, 5nat,
{
    match alias_node(t, st, p) {
        Some(x) => return Some(x),
        None => {},
    }
    match flow_content(t, st, p, level, c) {
        Some((content, q)) => return Some((plain_node(t, p, q, content), q)),
        None => {},
    }
    let (props, q) = match properties(t, p, level, c) {
        Some(x) => x,
        None => return None,
    };
    let (content, e) = match separate(t, q, level, c) {
        Some(s) => match flow_content(t, st, s, level, c) {
            Some((content, e)) => (content, e),
            None => (Content::Empty, q),
        },
        None => (Content::Empty, q),
    };
    match build_node(t, st, p, e, Some(props), content) {
        Some(n) => Some((n, e)),
        None => None,
    }
}

/// `c-flow-json-node(n,c)`: optional properties, then JSON-like content.
pub fn flow_json_node(t: &Text, st: &mut ParseState, p: usize, level: IndentLevel, c: Context) -> (r:
    Option<(Node, usize)>)
    requires
        p <= t.view().len(),
        old(st).anchors_within(t.view()),
    ensures
        final(st).anchors_within(t.view()),
        final(st).tag_handles == old(st).tag_handles,
        spec_flow_json_node(t.view(), p as int, level.spec_get(), c, old(st).anchors@, old(st).tag_handles@) == (Parsed {
            found: node_at(r),
            anchors: final(st).anchors@,
        }),
        r matches Some((n, _)) ==> spans_in(n@, t.view()),
        r matches Some((_, q)) ==> p < q <= t.view().len(),
    decreases t.view().len() - p, 6nat,
{
    let (props, s) = match properties(t, p, level, c) {
        Some((props, q)) => match separate(t, q, level, c) {
            Some(s) => (Some(props), s),
            None => (None, p),
        },
        None => (None, p),
    };
    let (content, e) = match flow_json_content(t, st, s, level, c) {
        Some(x) => x,
        None => return None,
    };
    match build_node(t, st, p, e, props, content) {
        Some(n) => Some((n, e)),
        None => None,
    }
}

/// The longest an implicit key may be, in characters.
pub const IMPLICIT_KEY_LIMIT: usize = 1024;

/// `c-s-implicit-json-key(c)`: a JSON-like node on one line, with optional white space after
/// it, at most 1024 characters in all.
pub fn implicit_json_key(t: &Text, st: &mut ParseState, p: usize, c: Context) -> (r: Option<
    (Node, usize),
>)
    requires
        p <= t.view().len(),
        old(st).anchors_within(t.view()),
    ensures
        final(st).anchors_within(t.view()),
        final(st).tag_handles == old(st).tag_handles,
        spec_implicit_json_key(t.view(), p as int, c, old(st).anchors@, old(st).tag_handles@) == (Parsed {
            found: node_at(r),
            anchors: final(st).anchors@,
        }),
        r matches Some((n, _)) ==> spans_in(n@, t.view()),
        r matches Some((_, q)) ==> p < q <= t.view().len() && q - p <= IMPLICIT_KEY_LIMIT,
    decreases t.view().len() - p, 7nat,
{
    let (node, q) = match flow_json_node(t, st, p, IndentLevel::new(0), c) {
        Some(x) => x,
        None => return None,
    };
    let e = match separate_in_line(t, q) {
        Some(e) => e,
        None => q,
    };
    if e - p > IMPLICIT_KEY_LIMIT {
        None
    } else {
        Some((node, e))
    }
}

/// `ns-s-implicit-yaml-key(c)`: a YAML node on one line, with optional white space after it, at
/// most 1024 characters in all.
pub fn implicit_yaml_key(t: &Text, st: &mut ParseState, p: usize, c: Context) -> (r: Option<
    (Node, usize),
>)
    requires
        p <= t.view().len(),
        old(st).anchors_within(t.view()),
    ensures
        final(st).anchors_within(t.view()),
        final(st).tag_handles == old(st).tag_handles,
        spec_implicit_yaml_key(t.view(), p as int, c, old(st).anchors@, old(st).tag_handles@) == (Parsed {
            found: node_at(r),
            anchors: final(st).anchors@,
        }),
        r matches Some((n, _)) ==> spans_in(n@, t.view()),
        r matches Some((_, q)) ==> p < q <= t.view().len() && q - p <= IMPLICIT_KEY_LIMIT,
{
    let (node, q) = match flow_yaml_node(t, st, p, IndentLevel::new(0), c) {
        Some(x) => x,
        None => return None,
    };
    let e = match separate_in_line(t, q) {
        Some(e) => e,
        None => q,
    };
    if e - p > IMPLICIT_KEY_LIMIT {
        None
    } else {
        Some((node, e))
    }
}

/// `c-ns-flow-map-separate-value(n,c)`: `:` not followed by a plain-safe character, then a
/// separated flow node or an empty node.
pub fn flow_map_separate_value(t: &Text, st: &mut ParseState, p: usize, level: IndentLevel, c: Context) -> (r:
    Option<(Node, usize)>)
    requires
        p <= t.view().len(),
        old(st).anchors_within(t.view()),
    ensures
        final(st).anchors_within(t.view()),
        final(st).tag_handles == old(st).tag_handles,
        spec_separate_value(t.view(), p as int, level.spec_get(), c, old(st).anchors@, old(st).tag_handles@) == (Parsed {
            found: node_at(r),
            anchors: final(st).anchors@,
        }),
        r matches Some((n, _)) ==> spans_in(n@, t.view()),
        r matches Some((_, q)) ==> p < q <= t.view().len(),
    decreases t.view().len() - p, 8nat,
{
    if !t.is(p, ':') {
        return None;
    }
    match t.peek(p + 1) {
        Some(ch) => if plain_safe(ch, c) {
            return None;
        },
        None => {},
    }
    match separate(t, p + 1, level, c) {
        Some(s) => match flow_node(t, st, s, level, c) {
            Some(x) => return Some(x),
            None => {},
        },
        None => {},
    }
    Some((empty_node(t, p + 1), p + 1))
}

/// `c-ns-flow-map-adjacent-value(n,c)`: `:`, then an optionally separated flow node or an
/// empty node.
pub fn flow_map_adjacent_value(t: &Text, st: &mut ParseState, p: usize, level: IndentLevel, c: Context) -> (r:
    Option<(Node, usize)>)
    requires
        p <= t.view().len(),
        old(st).anchors_within(t.view()),
    ensures
        final(st).anchors_within(t.view()),
        final(st).tag_handles == old(st).tag_handles,
        spec_adjacent_value(t.view(), p as int, level.spec_get(), c, old(st).anchors@, old(st).tag_handles@) == (Parsed {
            found: node_at(r),
            anchors: final(st).anchors@,
        }),
        r matches Some((n, _)) ==> spans_in(n@, t.view()),
        r matches Some((_, q)) ==> p < q <= t.view().len(),
    decreases t.view().len() - p, 8nat,
{
    if !t.is(p, ':') {
        return None;
    }
    let s = opt_separate(t, p + 1, level, c);
    match flow_node(t, st, s, level, c) {
        Some(x) => Some(x),
        None => Some((empty_node(t, p + 1), p + 1)),
    }
}

/// `c-ns-flow-map-empty-key-entry(n,c)`: an empty key, then a separate value.
pub fn flow_map_empty_key_entry(t: &Text, st: &mut ParseState, p: usize, level: IndentLevel, c: Context) -> (r:
    Option<(MapEntry, usize)>)
    requires
        p <= t.view().len(),
        old(st).anchors_within(t.view()),
    ensures
        final(st).anchors_within(t.view()),
        final(st).tag_handles == old(st).tag_handles,
        spec_empty_key_entry(t.view(), p as int, level.spec_get(), c, old(st).anchors@, old(st).tag_handles@) == (Parsed {
            found: entry_at(r),
            anchors: final(st).anchors@,
        }),
        r matches Some((e, _)) ==> spans_in(e.key@, t.view()) && spans_in(e.value@, t.view()),
        r matches Some((_, q)) ==> p < q <= t.view().len(),
    decreases t.view().len() - p, 9nat,
{
    match flow_map_separate_value(t, st, p, level, c) {
        Some((value, q)) => Some((MapEntry { key: empty_node(t, p), value }, q)),
        None => None,
    }
}

/// `ns-flow-map-yaml-key-entry(n,c)`: a YAML key, then an optionally separated separate value,
/// or an empty value.
pub fn flow_map_yaml_key_entry(t: &Text, st: &mut ParseState, p: usize, level: IndentLevel, c: Context) -> (r:
    Option<(MapEntry, usize)>)
    requires
        p <= t.view().len(),
        old(st).anchors_within(t.view()),
    ensures
        final(st).anchors_within(t.view()),
        final(st).tag_handles == old(st).tag_handles,
        spec_yaml_key_entry(t.view(), p as int, level.spec_get(), c, old(st).anchors@, old(st).tag_handles@) == (Parsed {
            found: entry_at(r),
            anchors: final(st).anchors@,
        }),
        r matches Some((e, _)) ==> spans_in(e.key@, t.view()) && spans_in(e.value@, t.view()),
        r matches Some((_, q)) ==> p < q <= t.view().len(),
    decreases t.view().len() - p, 10nat,
{
    let (key, q) = match flow_yaml_node(t, st, p, level, c) {
        Some(x) => x,
        None => return None,
    };
    let s = opt_separate(t, q, level, c);
    match flow_map_separate_value(t, st, s, level, c) {
        Some((value, e)) => Some((MapEntry { key, value }, e)),
        None => Some((MapEntry { key, value: empty_node(t, q) }, q)),
    }
}

/// `c-ns-flow-map-json-key-entry(n,c)`: a JSON-like key, then an optionally separated adjacent
/// value, or an empty value.
pub fn flow_map_json_key_entry(t: &Text, st: &mut ParseState, p: usize, level: IndentLevel, c: Context) -> (r:
    Option<(MapEntry, usize)>)
    requires
        p <= t.view().len(),
        old(st).anchors_within(t.view()),
    ensures
        final(st).anchors_within(t.view()),
        final(st).tag_handles == old(st).tag_handles,
        spec_json_key_entry(t.view(), p as int, level.spec_get(), c, old(st).anchors@, old(st).tag_handles@) == (Parsed {
            found: entry_at(r),
            anchors: final(st).anchors@,
        }),
        r matches Some((e, _)) ==> spans_in(e.key@, t.view()) && spans_in(e.value@, t.view()),
        r matches Some((_, q)) ==> p < q <= t.view().len(),
    decreases t.view().len() - p, 10nat,
{
    let (key, q) = match flow_json_node(t, st, p, level, c) {
        Some(x) => x,
        None => return None,
    };
    let s = opt_separate(t, q, level, c);
    match flow_map_adjacent_value(t, st, s, level, c) {
        Some((value, e)) => Some((MapEntry { key, value }, e)),
        None => Some((MapEntry { key, value: empty_node(t, q) }, q)),
    }
}

/// `ns-flow-map-implicit-entry(n,c)`: a YAML-key entry, an empty-key entry, or a JSON-key
/// entry.
pub fn flow_map_implicit_entry(t: &Text, st: &mut ParseState, p: usize, level: IndentLevel, c: Context) -> (r:
    Option<(MapEntry, usize)>)
    requires
        p <= t.view().len(),
        old(st).anchors_within(t.view()),
    ensures
        final(st).anchors_within(t.view()),
        final(st).tag_handles == old(st).tag_handles,
        spec_implicit_entry(t.view(), p as int, level.spec_get(), c, old(st).anchors@, old(st).tag_handles@) == (Parsed {
            found: entry_at(r),
            anchors: final(st).anchors@,
        }),
        r matches Some((e, _)) ==> spans_in(e.key@, t.view()) && spans_in(e.value@, t.view()),
        r matches Some((_, q)) ==> p < q <= t.view().len(),
    decreases t.view().len() - p, 11nat,
{
    match flow_map_yaml_key_entry(t, st, p, level, c) {
        Some(x) => return Some(x),
        None => {},
    }
    match flow_map_empty_key_entry(t, st, p, level, c) {
        Some(x) => return Some(x),
        None => {},
    }
    flow_map_json_key_entry(t, st, p, level, c)
}

/// `ns-flow-map-explicit-entry(n,c)`: an implicit entry, or an empty key and value.
pub fn flow_map_explicit_entry(t: &Text, st: &mut ParseState, p: usize, level: IndentLevel, c: Context) -> (r:
    (MapEntry, usize))
    requires
        p <= t.view().len(),
        old(st).anchors_within(t.view()),
    ensures
        final(st).anchors_within(t.view()),
        final(st).tag_handles == old(st).tag_handles,
        spec_explicit_entry(t.view(), p as int, level.spec_get(), c, old(st).anchors@, old(st).tag_handles@) == (Parsed {
            found: Some(((r.0.key@, r.0.value@), r.1 as int)),
            anchors: final(st).anchors@,
        }),
        spans_in(r.0.key@, t.view()) && spans_in(r.0.value@, t.view()),
        p <= r.1 <= t.view().len(),
    decreases t.view().len() - p, 12nat,
{
    match flow_map_implicit_entry(t, st, p, level, c) {
        Some(x) => x,
        None => (MapEntry { key: empty_node(t, p), value: empty_node(t, p) }, p),
    }
}

/// `ns-flow-map-entry(n,c)`: `?` and an explicit entry, or an implicit entry.
pub fn flow_map_entry(t: &Text, st: &mut ParseState, p: usize, level: IndentLevel, c: Context) -> (r:
    Option<(MapEntry, usize)>)
    requires
        p <= t.view().len(),
        old(st).anchors_within(t.view()),
    ensures
        final(st).anchors_within(t.view()),
        final(st).tag_handles == old(st).tag_handles,
        spec_flow_map_entry(t.view(), p as int, level.spec_get(), c, old(st).anchors@, old(st).tag_handles@) == (Parsed {
            found: entry_at(r),
            anchors: final(st).anchors@,
        }),
        r matches Some((e, _)) ==> spans_in(e.key@, t.view()) && spans_in(e.value@, t.view()),
        r matches Some((_, q)) ==> p < q <= t.view().len(),
    decreases t.view().len() - p, 13nat,
{
    proof {
        reveal_with_fuel(spec_flow_map_entry, 1);
    }
    if t.is(p, '?') {
        match separate(t, p + 1, level, c) {
            Some(s) => {
                let (entry, q) = flow_map_explicit_entry(t, st, s, level, c);
                return Some((entry, q));
            },
            None => {},
        }
    }
    flow_map_implicit_entry(t, st, p, level, c)
}

/// `ns-flow-pair-yaml-key-entry(n,c)`: an implicit YAML key, then a separate value.
pub fn flow_pair_yaml_key_entry(t: &Text, st: &mut ParseState, p: usize, level: IndentLevel, c: Context) -> (r:
    Option<(MapEntry, usize)>)
    requires
        p <= t.view().len(),
        old(st).anchors_within(t.view()),
    ensures
        final(st).anchors_within(t.view()),
        final(st).tag_handles == old(st).tag_handles,
        spec_flow_pair_yaml_key_entry(t.view(), p as int, level.spec_get(), c, old(st).anchors@, old(st).tag_handles@) == (Parsed {
            found: entry_at(r),
            anchors: final(st).anchors@,
        }),
        r matches Some((e, _)) ==> spans_in(e.key@, t.view()) && spans_in(e.value@, t.view()),
        r matches Some((_, q)) ==> p < q <= t.view().len(),
    decreases t.view().len() - p, 10nat,
{
    match implicit_yaml_key(t, st, p, Context::FlowKey) {
        Some((key, q)) => match flow_map_separate_value(t, st, q, level, c) {
            Some((value, e)) => Some((MapEntry { key, value }, e)),
            None => None,
        },
        None => None,
    }
}

/// `c-ns-flow-pair-json-key-entry(n,c)`: an implicit JSON key, then an adjacent value.
pub fn flow_pair_json_key_entry(t: &Text, st: &mut ParseState, p: usize, level: IndentLevel, c: Context) -> (r:
    Option<(MapEntry, usize)>)
    requires
        p <= t.view().len(),
        old(st).anchors_within(t.view()),
    ensures
        final(st).anchors_within(t.view()),
        final(st).tag_handles == old(st).tag_handles,
        spec_flow_pair_json_key_entry(t.view(), p as int, level.spec_get(), c, old(st).anchors@, old(st).tag_handles@) == (Parsed {
            found: entry_at(r),
            anchors: final(st).anchors@,
        }),
        r matches Some((e, _)) ==> spans_in(e.key@, t.view()) && spans_in(e.value@, t.view()),
        r matches Some((_, q)) ==> p < q <= t.view().len(),
    decreases t.view().len() - p, 10nat,
{
    match implicit_json_key(t, st, p, Context::FlowKey) {
        Some((key, q)) => match flow_map_adjacent_value(t, st, q, level, c) {
            Some((value, e)) => Some((MapEntry { key, value }, e)),
            None => None,
        },
        None => None,
    }
}

/// `ns-flow-pair-entry(n,c)`: a YAML-key pair, an empty-key entry, or a JSON-key pair.
pub fn flow_pair_entry(t: &Text, st: &mut ParseState, p: usize, level: IndentLevel, c: Context) -> (r:
    Option<(MapEntry, usize)>)
    requires
        p <= t.view().len(),
        old(st).anchors_within(t.view()),
    ensures
        final(st).anchors_within(t.view()),
        final(st).tag_handles == old(st).tag_handles,
        spec_flow_pair_entry(t.view(), p as int, level.spec_get(), c, old(st).anchors@, old(st).tag_handles@) == (Parsed {
            found: entry_at(r),
            anchors: final(st).anchors@,
        }),
        r matches Some((e, _)) ==> spans_in(e.key@, t.view()) && spans_in(e.value@, t.view()),
        r matches Some((_, q)) ==> p < q <= t.view().len(),
    decreases t.view().len() - p, 11nat,
{
    match flow_pair_yaml_key_entry(t, st, p, level, c) {
        Some(x) => return Some(x),
        None => {},
    }
    match flow_map_empty_key_entry(t, st, p, level, c) {
        Some(x) => return Some(x),
        None => {},
    }
    flow_pair_json_key_entry(t, st, p, level, c)
}

/// `ns-flow-pair(n,c)`: `?` and an explicit entry, or a pair entry.
pub fn flow_pair(t: &Text, st: &mut ParseState, p: usize, level: IndentLevel, c: Context) -> (r:
    Option<(MapEntry, usize)>)
    requires
        p <= t.view().len(),
        old(st).anchors_within(t.view()),
    ensures
        final(st).anchors_within(t.view()),
        final(st).tag_handles == old(st).tag_handles,
        spec_flow_pair(t.view(), p as int, level.spec_get(), c, old(st).anchors@, old(st).tag_handles@) == (Parsed {
            found: entry_at(r),
            anchors: final(st).anchors@,
        }),
        r matches Some((e, _)) ==> spans_in(e.key@, t.view()) && spans_in(e.value@, t.view()),
        r matches Some((_, q)) ==> p < q <= t.view().len(),
    decreases t.view().len() - p, 13nat,
{
    if t.is(p, '?') {
        match separate(t, p + 1, level, c) {
            Some(s) => {
                let (entry, q) = flow_map_explicit_entry(t, st, s, level, c);
                return Some((entry, q));
            },
            None => {},
        }
    }
    flow_pair_entry(t, st, p, level, c)
}

/// `ns-flow-seq-entry(n,c)`: a single-pair mapping, or a flow node.
pub fn flow_seq_entry(t: &Text, st: &mut ParseState, p: usize, level: IndentLevel, c: Context) -> (r:
    Option<(Node, usize)>)
    requires
        p <= t.view().len(),
        old(st).anchors_within(t.view()),
    ensures
        final(st).anchors_within(t.view()),
        final(st).tag_handles == old(st).tag_handles,
        spec_flow_seq_entry(t.view(), p as int, level.spec_get(), c, old(st).anchors@, old(st).tag_handles@) == (Parsed {
            found: node_at(r),
            anchors: final(st).anchors@,
        }),
        r matches Some((n, _)) ==> spans_in(n@, t.view()),
        r matches Some((_, q)) ==> p < q <= t.view().len(),
    decreases t.view().len() - p, 14nat,
{
    proof {
        reveal_with_fuel(spec_flow_seq_entry, 1);
    }
    match flow_pair(t, st, p, level, c) {
        Some((entry, q)) => {
            let mut entries: Vec<MapEntry> = Vec::new();
            proof {
                lemma_empty_within(t.view());
            }
            let ghost before = entries@;
            entries.push(entry);
            proof {
                lemma_push_entry_within(before, entry, t.view());
                lemma_mapping_spans(entries, t.view());
            }
            return Some((plain_node(t, p, q, Content::Mapping(Mapping(entries))), q));
        },
        None => {},
    }
    flow_node(t, st, p, level, c)
}

/// `ns-s-flow-seq-entries(n,c)`: entries separated by commas, with an optional trailing comma.
#[verifier::rlimit(100)]
#[verifier::spinoff_prover]
pub fn flow_seq_entries(t: &Text, st: &mut ParseState, p: usize, level: IndentLevel, c: Context) -> (r:
    Option<(Vec<Node>, usize)>)
    requires
        p <= t.view().len(),
        old(st).anchors_within(t.view()),
    ensures
        final(st).anchors_within(t.view()),
        final(st).tag_handles == old(st).tag_handles,
        spec_seq_entries_from(
            t.view(),
            p as int,
            p as int,
            level.spec_get(),
            c,
            old(st).anchors@, old(st).tag_handles@,
            Seq::empty(),
        ) == (Parsed { found: nodes_at(r), anchors: final(st).anchors@ }),
        r matches Some((v, _)) ==> nodes_within(v@, t.view()),
        r matches Some((_, q)) ==> p < q <= t.view().len(),
    decreases t.view().len() - p, 15nat,
{
    let mut items: Vec<Node> = Vec::new();
    proof {
        lemma_empty_within(t.view());
    }
    let mut q = p;
    let ghost goal = spec_seq_entries_from(
        t.view(),
        p as int,
        p as int,
        level.spec_get(),
        c,
        old(st).anchors@,
        old(st).tag_handles@,
        Seq::empty(),
    );
    proof {
        assert(nodes_view(items@) =~= Seq::<NodeV>::empty());
    }
    loop
        invariant
            p <= q <= t.view().len(),
            q == p <==> items@.len() == 0,
            st.anchors_within(t.view()),
            st.tag_handles == old(st).tag_handles,
            nodes_within(items@, t.view()),
            goal == spec_seq_entries_from(
                t.view(),
                p as int,
                p as int,
                level.spec_get(),
                c,
                old(st).anchors@,
                old(st).tag_handles@,
                Seq::empty(),
            ),
            goal == spec_seq_entries_from(
                t.view(),
                p as int,
                q as int,
                level.spec_get(),
                c,
                st.anchors@,
                old(st).tag_handles@,
                nodes_view(items@),
            ),
        decreases t.view().len() - q,
    {
        let (node, e) = match flow_seq_entry(t, st, q, level, c) {
            Some(x) => x,
            None => return if q > p {
                Some((items, q))
            } else {
                None
            },
        };
        let ghost before = items@;
        items.push(node);
        proof {
            lemma_push_node_within(before, node, t.view());
            assert(items@.drop_last() =~= before);
            assert(nodes_view(items@) == nodes_view(before).push(node@));
        }
        let s = opt_separate(t, e, level, c);
        if t.is(s, ',') {
            q = opt_separate(t, s + 1, level, c);
        } else {
            return Some((items, s));
        }
    }
}

/// `c-flow-sequence(n,c)`: `[`, optional entries, `]`.
pub fn flow_sequence(t: &Text, st: &mut ParseState, p: usize, level: IndentLevel, c: Context) -> (r:
    Option<(Vec<Node>, usize)>)
    requires
        p <= t.view().len(),
        old(st).anchors_within(t.view()),
    ensures
        final(st).anchors_within(t.view()),
        final(st).tag_handles == old(st).tag_handles,
        spec_flow_sequence(t.view(), p as int, level.spec_get(), c, old(st).anchors@, old(st).tag_handles@) == (Parsed {
            found: nodes_at(r),
            anchors: final(st).anchors@,
        }),
        r matches Some((v, _)) ==> nodes_within(v@, t.view()),
        r matches Some((_, q)) ==> p < q <= t.view().len(),
    decreases t.view().len() - p, 1nat,
{
    if !t.is(p, '[') {
        return None;
    }
    let s = opt_separate(t, p + 1, level, c);
    let (items, e) = match flow_seq_entries(t, st, s, level, in_flow(c)) {
        Some(x) => x,
        None => {
            proof {
                lemma_empty_within(t.view());
            }
            (Vec::new(), s)
        },
    };
    if t.is(e, ']') {
        Some((items, e + 1))
    } else {
        None
    }
}

/// `ns-s-flow-map-entries(n,c)`: entries separated by commas, with an optional trailing comma;
/// no entry at all matches nothing.
#[verifier::rlimit(100)]
#[verifier::spinoff_prover]
pub fn flow_map_entries(t: &Text, st: &mut ParseState, p: usize, level: IndentLevel, c: Context) -> (r:
    Option<(Vec<MapEntry>, usize)>)
    requires
        p <= t.view().len(),
        old(st).anchors_within(t.view()),
    ensures
        final(st).anchors_within(t.view()),
        final(st).tag_handles == old(st).tag_handles,
        spec_map_entries_from(
            t.view(),
            p as int,
            p as int,
            level.spec_get(),
            c,
            old(st).anchors@, old(st).tag_handles@,
            Seq::empty(),
        ) == (Parsed { found: entries_at(r), anchors: final(st).anchors@ }),
        r matches Some((v, _)) ==> entries_within(v@, t.view()),
        r matches Some((_, q)) ==> p <= q <= t.view().len(),
    decreases t.view().len() - p, 15nat,
{
    let mut entries: Vec<MapEntry> = Vec::new();
    proof {
        lemma_empty_within(t.view());
    }
    let mut q = p;
    let ghost goal = spec_map_entries_from(
        t.view(),
        p as int,
        p as int,
        level.spec_get(),
        c,
        old(st).anchors@,
        old(st).tag_handles@,
        Seq::empty(),
    );
    proof {
        assert(entries_view(entries@) =~= Seq::<(NodeV, NodeV)>::empty());
    }
    loop
        invariant
            p <= q <= t.view().len(),
            q == p <==> entries@.len() == 0,
            st.anchors_within(t.view()),
            st.tag_handles == old(st).tag_handles,
            entries_within(entries@, t.view()),
            goal == spec_map_entries_from(
                t.view(),
                p as int,
                p as int,
                level.spec_get(),
                c,
                old(st).anchors@,
                old(st).tag_handles@,
                Seq::empty(),
            ),
            goal == spec_map_entries_from(
                t.view(),
                p as int,
                q as int,
                level.spec_get(),
                c,
                st.anchors@,
                old(st).tag_handles@,
                entries_view(entries@),
            ),
        decreases t.view().len() - q,
    {
        let (entry, e) = match flow_map_entry(t, st, q, level, c) {
            Some(x) => x,
            None => return Some((entries, q)),
        };
        let ghost before = entries@;
        entries.push(entry);
        proof {
            lemma_push_entry_within(before, entry, t.view());
            assert(entries@.drop_last() =~= before);
            assert(entries_view(entries@) == entries_view(before).push((entry.key@, entry.value@)));
        }
        let s = opt_separate(t, e, level, c);
        if t.is(s, ',') {
            q = opt_separate(t, s + 1, level, c);
        } else {
            return Some((entries, s));
        }
    }
}

/// `c-flow-mapping(n,c)`: `{`, optional entries, `}`.
pub fn flow_mapping(t: &Text, st: &mut ParseState, p: usize, level: IndentLevel, c: Context) -> (r:
    Option<(Vec<MapEntry>, usize)>)
    requires
        p <= t.view().len(),
        old(st).anchors_within(t.view()),
    ensures
        final(st).anchors_within(t.view()),
        final(st).tag_handles == old(st).tag_handles,
        spec_flow_mapping(t.view(), p as int, level.spec_get(), c, old(st).anchors@, old(st).tag_handles@) == (Parsed {
            found: entries_at(r),
            anchors: final(st).anchors@,
        }),
        r matches Some((v, _)) ==> entries_within(v@, t.view()),
        r matches Some((_, q)) ==> p < q <= t.view().len(),
    decreases t.view().len() - p, 2nat,
{
    if !t.is(p, '{') {
        return None;
    }
    let s = opt_separate(t, p + 1, level, c);
    let (entries, e) = match flow_map_entries(t, st, s, level, in_flow(c)) {
        Some(x) => x,
        None => {
            proof {
                lemma_empty_within(t.view());
            }
            (Vec::new(), s)
        },
    };
    if t.is(e, '}') {
        Some((entries, e + 1))
    } else {
        None
    }
}

} // verus!
