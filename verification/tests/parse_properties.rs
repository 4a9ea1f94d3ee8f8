use ya::parse::document::{directive, Directive};
use ya::parse::input::Text;
use ya::parse::properties::{properties, tag_property, TagProperty};
use ya::parse::spaces::{Context, IndentLevel};

fn props(input: &str) -> (String, Option<String>, Option<TagProperty>) {
    let t = Text::new(input);
    let (p, q) = properties(&t, 0, IndentLevel::initial(), Context::FlowOut).unwrap();
    (input[t.offset(q)..].to_string(), p.anchor, p.tag)
}

fn tag(input: &str) -> (String, TagProperty) {
    let t = Text::new(input);
    let (p, q) = tag_property(&t, 0).unwrap();
    (input[t.offset(q)..].to_string(), p)
}

fn shorthand(handle: &str, suffix: &str) -> TagProperty {
    TagProperty::Shorthand { handle: handle.to_string(), suffix: suffix.to_string() }
}

fn dir(input: &str) -> Option<(String, Directive)> {
    let t = Text::new(input);
    directive(&t, 0).map(|(d, q)| (input[t.offset(q)..].to_string(), d))
}

#[test]
fn tag_then_anchor() {
    assert_eq!(
        props("!!str &a1 rest"),
        (" rest".to_string(), Some("a1".to_string()), Some(shorthand("!!", "str")))
    );
}

#[test]
fn anchor_then_tag() {
    assert_eq!(
        props("&a2 !!str rest"),
        (" rest".to_string(), Some("a2".to_string()), Some(shorthand("!!", "str")))
    );
}

#[test]
fn anchor_only() {
    assert_eq!(props("&a1 rest"), (" rest".to_string(), Some("a1".to_string()), None));
}

#[test]
fn verbatim_tag_global() {
    assert_eq!(
        tag("!<tag:yaml.org,2002:str>"),
        (String::new(), TagProperty::Verbatim("tag:yaml.org,2002:str".to_string()))
    );
}

#[test]
fn verbatim_tag_local() {
    assert_eq!(tag("!<!bar>"), (String::new(), TagProperty::Verbatim("!bar".to_string())));
}

#[test]
fn verbatim_tag_rejects_bare_non_specific() {
    assert!(!matches!(tag("!<!>").1, TagProperty::Verbatim(_)));
}

#[test]
fn shorthand_primary() {
    assert_eq!(tag("!local"), (String::new(), shorthand("!", "local")));
}

#[test]
fn shorthand_secondary() {
    assert_eq!(tag("!!str"), (String::new(), shorthand("!!", "str")));
}

#[test]
fn shorthand_named_with_percent_escape() {
    assert_eq!(tag("!e!tag%21"), (String::new(), shorthand("!e!", "tag%21")));
}

#[test]
fn shorthand_requires_non_empty_suffix() {
    assert!(!matches!(tag("!e!").1, TagProperty::Shorthand { .. }));
}

#[test]
fn non_specific_tag_bare() {
    assert_eq!(tag("!"), (String::new(), TagProperty::NonSpecific));
}

#[test]
fn yaml_directive_1_2() {
    assert_eq!(dir("%YAML 1.2\n"), Some((String::new(), Directive::Yaml { major: 1, minor: 2 })));
}

#[test]
fn yaml_directive_accepts_other_minor_silently() {
    assert_eq!(dir("%YAML 1.1\n"), Some((String::new(), Directive::Yaml { major: 1, minor: 1 })));
}

#[test]
fn yaml_directive_rejects_major_version_2() {
    assert_eq!(dir("%YAML 2.0\n"), None);
}

#[test]
fn tag_directive_secondary_handle() {
    assert_eq!(
        dir("%TAG !! tag:example.com,2000:type/\n"),
        Some((
            String::new(),
            Directive::Tag { handle: "!!".to_string(), prefix: "tag:example.com,2000:type/".to_string() }
        ))
    );
}

#[test]
fn tag_directive_named_handle() {
    assert_eq!(
        dir("%TAG !e! tag:example.com,2000:\n"),
        Some((
            String::new(),
            Directive::Tag { handle: "!e!".to_string(), prefix: "tag:example.com,2000:".to_string() }
        ))
    );
}

#[test]
fn tag_directive_local_prefix() {
    assert_eq!(
        dir("%TAG ! !local:\n"),
        Some((String::new(), Directive::Tag { handle: "!".to_string(), prefix: "!local:".to_string() }))
    );
}

#[test]
fn reserved_directive_no_parameters() {
    assert_eq!(dir("%FOO\n"), Some((String::new(), Directive::Reserved)));
}

#[test]
fn directive_reserved_directive_spec_example_6_13() {
    assert_eq!(dir("%FOO  bar baz # Should be ignored\n"), Some((String::new(), Directive::Reserved)));
}
