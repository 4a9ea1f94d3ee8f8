use ya::parse::document::{directive_document, explicit_document, yaml_document, yaml_stream};
use ya::parse::input::{ParseState, Text};
use ya::value::{Content, Document, MapEntry, Mapping, Node, Scalar, Stream, Tag};

fn stream(input: &str) -> (String, Stream) {
    let t = Text::new(input);
    let mut st = ParseState::new();
    let (docs, q) = yaml_stream(&t, &mut st, 0);
    (input[t.offset(q)..].to_string(), Stream(docs))
}

fn run<T>(
    input: &str,
    f: impl FnOnce(&Text, &mut ParseState, usize) -> Option<(T, usize)>,
) -> Option<(String, T)> {
    let t = Text::new(input);
    let mut st = ParseState::new();
    f(&t, &mut st, 0).map(|(v, q)| (input[t.offset(q)..].to_string(), v))
}

fn plain(s: &str) -> Node {
    Node::unspecified(Content::Scalar(Scalar::Plain(s.to_string())))
}

fn single(s: &str) -> Node {
    Node::unspecified(Content::Scalar(Scalar::SingleStr(s.to_string())))
}

fn doc(n: Node) -> Document {
    Document(n)
}

fn map(entries: Vec<(Node, Node)>) -> Node {
    Node::unspecified(Content::Mapping(Mapping(
        entries.into_iter().map(|(key, value)| MapEntry { key, value }).collect(),
    )))
}

#[test]
fn single_document_stops_after_one_document() {
    let (rest, d) = run("'foo'\n---\n'bar'\n", yaml_document).unwrap();
    assert_eq!(d, doc(single("foo")));
    assert_eq!(rest, "---\n'bar'\n");
}

#[test]
fn simple_flow_seq() {
    assert_eq!(
        stream("['foo', 'bar', 'baz']"),
        (
            String::new(),
            Stream(vec![doc(Node::unspecified(Content::Sequence(vec![
                single("foo"),
                single("bar"),
                single("baz"),
            ])))])
        )
    );
}

#[test]
fn empty_input_parses_as_empty_stream() {
    assert_eq!(stream(""), (String::new(), Stream(vec![])));
}

#[test]
fn dots_only_parses_as_empty_stream() {
    assert_eq!(stream("..."), (String::new(), Stream(vec![])));
}

#[test]
fn simple_flow_map() {
    assert_eq!(
        stream("{'foo': 'bar'}\n"),
        (String::new(), Stream(vec![doc(map(vec![(single("foo"), single("bar"))]))]))
    );
}

#[test]
fn simple_flow_seq_of_plain_scalars() {
    assert_eq!(
        stream("[one, two]"),
        (
            String::new(),
            Stream(vec![doc(Node::unspecified(Content::Sequence(vec![plain("one"), plain("two")])))])
        )
    );
}

#[test]
fn anchor_and_alias_resolve_to_the_same_node() {
    let foo = plain("foo");
    assert_eq!(
        stream("[&a foo, *a]"),
        (
            String::new(),
            Stream(vec![doc(Node::unspecified(Content::Sequence(vec![foo.clone(), foo])))])
        )
    );
}

#[test]
fn anchor_on_implicit_block_mapping_key_corpus_zh7c() {
    assert_eq!(
        stream("&a a: b\nc: &d d\n"),
        (
            String::new(),
            Stream(vec![doc(map(vec![(plain("a"), plain("b")), (plain("c"), plain("d"))]))])
        )
    );
}

#[test]
fn tag_alone_on_its_line_does_not_swallow_next_lines_key_anchor_corpus_9kax() {
    let key8 = Node::new(
        Content::Scalar(Scalar::Plain("key8".to_string())),
        Tag::Global("tag:yaml.org,2002:str".to_string()),
    );
    let expected = Node::new(
        Content::Mapping(Mapping(vec![MapEntry { key: key8, value: plain("value7") }])),
        Tag::Global("tag:yaml.org,2002:map".to_string()),
    );
    assert_eq!(
        stream("!!map\n&a8 !!str key8: value7\n"),
        (String::new(), Stream(vec![doc(expected)]))
    );
}

#[test]
fn explicit_document_same_line_content() {
    assert_eq!(run("--- foo\n", explicit_document), Some((String::new(), doc(plain("foo")))));
}

#[test]
fn explicit_document_empty_content() {
    assert_eq!(
        run("---\n", explicit_document),
        Some((String::new(), doc(Node::unspecified(Content::Empty))))
    );
}

#[test]
fn duplicate_yaml_directive_is_an_error() {
    assert!(run("%YAML 1.2\n%YAML 1.2\n---\n", directive_document).is_none());
}

#[test]
fn duplicate_tag_directive_handle_spec_example_6_15() {
    let input =
        "%TAG ! tag:example.com,2000:app/\n%TAG ! tag:example.com,2000:different-app/\n---\n";
    assert!(run(input, directive_document).is_none());
}

#[test]
fn document_prefix_spec_example_9_1() {
    assert_eq!(
        stream("%YAML 1.2\n--- text\n"),
        (String::new(), Stream(vec![doc(plain("text"))]))
    );
}

#[test]
fn document_markers_spec_example_9_2() {
    let input =
        "---\n- Mark McGwire\n- Sammy Sosa\n- Ken Griffey\n\n---\n- Chicago Cubs\n- St Louis Cardinals\n";
    assert_eq!(
        stream(input),
        (
            String::new(),
            Stream(vec![
                doc(Node::unspecified(Content::Sequence(vec![
                    plain("Mark McGwire"),
                    plain("Sammy Sosa"),
                    plain("Ken Griffey"),
                ]))),
                doc(Node::unspecified(Content::Sequence(vec![
                    plain("Chicago Cubs"),
                    plain("St Louis Cardinals"),
                ]))),
            ])
        )
    );
}

#[test]
fn explicit_documents_spec_example_9_4() {
    assert_eq!(
        stream("---\n{foo: bar}\n...\n--- \n{baz: qux}\n"),
        (
            String::new(),
            Stream(vec![
                doc(map(vec![(plain("foo"), plain("bar"))])),
                doc(map(vec![(plain("baz"), plain("qux"))])),
            ])
        )
    );
}

#[test]
fn directives_document_spec_example_9_5() {
    let expected = Node::new(
        Content::Mapping(Mapping(vec![MapEntry { key: plain("bar"), value: plain("baz") }])),
        Tag::Global("tag:example.com,2000:Foo".to_string()),
    );
    assert_eq!(
        stream("%YAML 1.2\n%TAG ! tag:example.com,2000:\n---\n!Foo\nbar: baz\n"),
        (String::new(), Stream(vec![doc(expected)]))
    );
}

#[test]
fn stream_spec_example_9_6() {
    let input = "---\ntime: 20:03:20\nplayer: Sammy Sosa\naction: strike\n...\n---\ntime: 20:03:47\nplayer: Sammy Sosa\naction: grand slam\n...\n";
    fn game_event(time: &str, player: &str, action: &str) -> Node {
        map(vec![
            (plain("time"), plain(time)),
            (plain("player"), plain(player)),
            (plain("action"), plain(action)),
        ])
    }
    assert_eq!(
        stream(input),
        (
            String::new(),
            Stream(vec![
                doc(game_event("20:03:20", "Sammy Sosa", "strike")),
                doc(game_event("20:03:47", "Sammy Sosa", "grand slam")),
            ])
        )
    );
}

#[test]
fn stream_corpus_w4tn() {
    let input = "%YAML 1.2\n--- |\n%!PS-Adobe-2.0\n...\n%YAML 1.2\n---\n# Empty\n...\n";
    assert_eq!(
        stream(input),
        (
            String::new(),
            Stream(vec![
                doc(Node::unspecified(Content::Scalar(Scalar::Literal("%!PS-Adobe-2.0\n".to_string())))),
                doc(Node::unspecified(Content::Empty)),
            ])
        )
    );
}

#[test]
fn document_reserved_directive_spec_example_6_13() {
    let input = "%FOO  bar baz # Should be ignored\n               # with a warning.\n--- \"foo\"\n";
    assert_eq!(
        stream(input),
        (
            String::new(),
            Stream(vec![doc(Node::unspecified(Content::Scalar(Scalar::DoubleStr("foo".to_string()))))])
        )
    );
}

#[test]
fn tag_shorthands_spec_example_6_16() {
    let input = "%TAG !e! tag:example.com,2000:\n%TAG ! tag:example.com,2000:app/\n---\n- !e!foo \"bar\"\n- !bar \"baz\"\n";
    assert_eq!(
        stream(input),
        (
            String::new(),
            Stream(vec![doc(Node::unspecified(Content::Sequence(vec![
                Node::new(
                    Content::Scalar(Scalar::DoubleStr("bar".to_string())),
                    Tag::Global("tag:example.com,2000:foo".to_string()),
                ),
                Node::new(
                    Content::Scalar(Scalar::DoubleStr("baz".to_string())),
                    Tag::Global("tag:example.com,2000:app/bar".to_string()),
                ),
            ])))])
        )
    );
}

#[test]
fn block_sequence_spec_example_8_14() {
    assert_eq!(
        stream("block sequence:\n  - one\n  - two : three\n"),
        (
            String::new(),
            Stream(vec![doc(map(vec![(
                plain("block sequence"),
                Node::unspecified(Content::Sequence(vec![
                    plain("one"),
                    map(vec![(plain("two"), plain("three"))]),
                ])),
            )]))])
        )
    );
}

#[test]
fn allowed_characters_in_keys_corpus_2ebw() {
    let input = "a!\"#$%&'()*+,-./09:;<=>?@AZ[\\]^_`az{|}~: safe\n?foo: safe question mark\n:foo: safe colon\n-foo: safe dash\nthis is#not: a comment\n";
    assert_eq!(
        stream(input),
        (
            String::new(),
            Stream(vec![doc(map(vec![
                (plain("a!\"#$%&'()*+,-./09:;<=>?@AZ[\\]^_`az{|}~"), plain("safe")),
                (plain("?foo"), plain("safe question mark")),
                (plain(":foo"), plain("safe colon")),
                (plain("-foo"), plain("safe dash")),
                (plain("this is#not"), plain("a comment")),
            ]))])
        )
    );
}

#[test]
fn stream_stops_before_what_is_not_a_document() {
    let (rest, s) = stream("a\n---\nb\n...\n]\n");
    assert_eq!(rest, "]\n");
    assert_eq!(s.0.len(), 2);
}

#[test]
fn parsed_nodes_record_their_source_ranges() {
    let input = "key: [ab, 'c']\n";
    let (_, s) = stream(input);
    let root = &s.0[0].0;
    assert_eq!(&input[root.span().unwrap().range()], "key: [ab, 'c']\n");
    let Content::Mapping(m) = &root.value else { panic!("mapping") };
    assert_eq!(&input[m.0[0].key.span().unwrap().range()], "key");
    assert_eq!(&input[m.0[0].value.span().unwrap().range()], "[ab, 'c']");
    let Content::Sequence(items) = &m.0[0].value.value else { panic!("sequence") };
    assert_eq!(&input[items[1].span().unwrap().range()], "'c'");
}
