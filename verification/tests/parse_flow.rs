use ya::parse::flow::{
    flow_json_node, flow_map_entries, flow_node, flow_pair_json_key_entry, flow_pair_yaml_key_entry,
    flow_seq_entries, flow_sequence, flow_yaml_node,
};
use ya::parse::input::{ParseState, Text};
use ya::parse::properties::alias_node;
use ya::parse::spaces::{Context, IndentLevel};
use ya::value::{Content, MapEntry, Node, Scalar, Tag};

fn plain(s: &str) -> Node {
    Node::unspecified(Content::Scalar(Scalar::Plain(s.to_string())))
}

fn run<T>(
    input: &str,
    f: impl FnOnce(&Text, &mut ParseState, usize) -> Option<(T, usize)>,
) -> Option<(String, T)> {
    let t = Text::new(input);
    let mut st = ParseState::new();
    f(&t, &mut st, 0).map(|(v, q)| (input[t.offset(q)..].to_string(), v))
}

#[test]
fn trailing_comma_keeps_already_collected_entries() {
    let (rest, got) = run("one: two, three: four, }", |t, st, p| {
        flow_map_entries(t, st, p, IndentLevel::initial(), Context::FlowIn)
    })
    .unwrap();
    assert_eq!(rest, "}");
    assert_eq!(
        got,
        vec![
            MapEntry { key: plain("one"), value: plain("two") },
            MapEntry { key: plain("three"), value: plain("four") },
        ]
    );
}

#[test]
fn empty_entries() {
    let (rest, got) = run("}", |t, st, p| {
        flow_map_entries(t, st, p, IndentLevel::initial(), Context::FlowIn)
    })
    .unwrap();
    assert_eq!(rest, "}");
    assert_eq!(got, Vec::<MapEntry>::new());
}

#[test]
fn empty_sequence() {
    let (rest, got) = run("[]", |t, st, p| {
        flow_sequence(t, st, p, IndentLevel::initial(), Context::FlowOut)
    })
    .unwrap();
    assert_eq!(rest, "");
    assert_eq!(got, Vec::<Node>::new());
}

#[test]
fn empty_sequence_with_inner_separation() {
    let (rest, got) = run("[   ]", |t, st, p| {
        flow_sequence(t, st, p, IndentLevel::initial(), Context::FlowOut)
    })
    .unwrap();
    assert_eq!(rest, "");
    assert_eq!(got, Vec::<Node>::new());
}

#[test]
fn flow_seq_entries_need_at_least_one_entry() {
    assert!(run("]", |t, st, p| flow_seq_entries(t, st, p, IndentLevel::initial(), Context::FlowIn)).is_none());
}

#[test]
fn flow_yaml_node_with_tag_and_anchor_registers_anchor() {
    let t = Text::new("!!str &a1 foo,rest");
    let mut st = ParseState::new();
    let (node, _) = flow_yaml_node(&t, &mut st, 0, IndentLevel::initial(), Context::FlowIn).unwrap();
    assert_eq!(
        Node::new(
            Content::Scalar(Scalar::Plain("foo".to_string())),
            Tag::Global("tag:yaml.org,2002:str".to_string())
        ),
        node
    );
    assert_eq!(Some(&node), st.anchors.get("a1"));
}

#[test]
fn flow_node_anchor_only_defaults_to_unspecified_tag() {
    let (rest, node) = run("&a2 baz,rest", |t, st, p| {
        flow_node(t, st, p, IndentLevel::initial(), Context::FlowIn)
    })
    .unwrap();
    assert_eq!(rest, ",rest");
    assert_eq!(node, plain("baz"));
}

#[test]
fn flow_yaml_node_tag_only_is_empty_content() {
    let (rest, node) = run("!!str", |t, st, p| {
        flow_yaml_node(t, st, p, IndentLevel::initial(), Context::FlowOut)
    })
    .unwrap();
    assert_eq!(rest, "");
    assert_eq!(node, Node::new(Content::Empty, Tag::Global("tag:yaml.org,2002:str".to_string())));
}

#[test]
fn flow_json_node_with_tag() {
    let (rest, node) = run("!!str \"bar\"", |t, st, p| {
        flow_json_node(t, st, p, IndentLevel::initial(), Context::FlowOut)
    })
    .unwrap();
    assert_eq!(rest, "");
    assert_eq!(
        node,
        Node::new(
            Content::Scalar(Scalar::DoubleStr("bar".to_string())),
            Tag::Global("tag:yaml.org,2002:str".to_string())
        )
    );
}

#[test]
fn flow_node_non_specific_tag() {
    let (rest, node) = run("! 12", |t, st, p| {
        flow_node(t, st, p, IndentLevel::initial(), Context::FlowOut)
    })
    .unwrap();
    assert_eq!(rest, "");
    assert_eq!(node, Node::new(Content::Scalar(Scalar::Plain("12".to_string())), Tag::NonSpecific));
}

#[test]
fn flow_node_undeclared_handle_is_a_parse_error() {
    assert!(run("!h!bar", |t, st, p| flow_node(t, st, p, IndentLevel::initial(), Context::FlowOut)).is_none());
}

#[test]
fn alias_parses_on_registered_anchor() {
    let t = Text::new("*foo");
    let mut st = ParseState::new();
    let value = Node::unspecified(Content::Scalar(Scalar::SingleStr("value".to_string())));
    st.anchors.put("foo".to_string(), value.clone());
    assert_eq!(alias_node(&t, &st, 0), Some((value, 4)));
}

#[test]
fn alias_fails_on_unregistered_anchor() {
    let t = Text::new("*foo");
    let mut st = ParseState::new();
    st.anchors.put(
        "bar".to_string(),
        Node::unspecified(Content::Scalar(Scalar::SingleStr("value".to_string()))),
    );
    assert_eq!(alias_node(&t, &st, 0), None);
}

#[test]
fn flow_mapping_entries_of_every_kind() {
    let (rest, node) = run("{a: 1, b, ? c : 2, \"d\":3, : e, f: }", |t, st, p| {
        flow_node(t, st, p, IndentLevel::initial(), Context::FlowOut)
    })
    .unwrap();
    assert_eq!(rest, "");
    let Content::Mapping(m) = node.value else { panic!("mapping") };
    let keys: Vec<Option<&str>> = m.0.iter().map(|e| e.key.scalar_text()).collect();
    assert_eq!(keys, vec![Some("a"), Some("b"), Some("c"), Some("d"), Some(""), Some("f")]);
    assert_eq!(m.0[1].value.value, Content::Empty);
    assert_eq!(m.0[3].value.scalar_text(), Some("3"));
    assert_eq!(m.0[4].value.scalar_text(), Some("e"));
    assert_eq!(m.0[5].value.value, Content::Empty);
}

#[test]
fn implicit_keys_are_limited_to_1024_characters() {
    // Too long to be a key: the colon after it is then out of place.
    let long = "k".repeat(1025);
    let input = format!("[{long}: v]");
    assert!(run(&input, |t, st, p| flow_node(t, st, p, IndentLevel::initial(), Context::FlowOut)).is_none());
    let short = "k".repeat(1000);
    let input = format!("[{short}: v]");
    let (_, node) = run(&input, |t, st, p| flow_node(t, st, p, IndentLevel::initial(), Context::FlowOut)).unwrap();
    let Content::Sequence(items) = node.value else { panic!("sequence") };
    assert!(matches!(items[0].value, Content::Mapping(_)));
}

#[test]
fn flow_pair_yaml_key_entry_reads_a_plain_key_and_a_separate_value() {
    let (rest, got) = run("a: b]", |t, st, p| {
        flow_pair_yaml_key_entry(t, st, p, IndentLevel::initial(), Context::FlowIn)
    })
    .unwrap();
    assert_eq!(rest, "]");
    assert_eq!(got, MapEntry { key: plain("a"), value: plain("b") });
}

#[test]
fn flow_pair_yaml_key_entry_needs_a_value() {
    assert!(run("a]", |t, st, p| {
        flow_pair_yaml_key_entry(t, st, p, IndentLevel::initial(), Context::FlowIn)
    })
    .is_none());
}

#[test]
fn flow_pair_json_key_entry_takes_an_adjacent_value() {
    assert!(run("\"a\":b]", |t, st, p| {
        flow_pair_yaml_key_entry(t, st, p, IndentLevel::initial(), Context::FlowIn)
    })
    .is_none());
    let (rest, got) = run("\"a\":b]", |t, st, p| {
        flow_pair_json_key_entry(t, st, p, IndentLevel::initial(), Context::FlowIn)
    })
    .unwrap();
    assert_eq!(rest, "]");
    assert_eq!(got.key.value, Content::Scalar(Scalar::DoubleStr("a".to_string())));
    assert_eq!(got.value, plain("b"));
}
