use ya::parse::anchor::AnchorStore;
use ya::parse::properties::{resolve_tag, TagProperty};
use ya::parse::tag_handles::TagHandles;
use ya::value::{Content, Node, Scalar, Tag};

#[test]
fn resolve_tag_shorthand_uses_default_handles() {
    let handles = TagHandles::new();
    assert_eq!(
        Some(Tag::Global("tag:yaml.org,2002:str".to_string())),
        resolve_tag(
            &handles,
            TagProperty::Shorthand { handle: "!!".to_string(), suffix: "str".to_string() }
        )
    );
}

#[test]
fn resolve_tag_shorthand_undeclared_handle_fails() {
    let handles = TagHandles::new();
    assert_eq!(
        None,
        resolve_tag(
            &handles,
            TagProperty::Shorthand { handle: "!h!".to_string(), suffix: "bar".to_string() }
        )
    );
}

#[test]
fn resolve_tag_keeps_verbatim_and_non_specific_tags() {
    let handles = TagHandles::new();
    assert_eq!(
        Some(Tag::Global("!bar".to_string())),
        resolve_tag(&handles, TagProperty::Verbatim("!bar".to_string()))
    );
    assert_eq!(Some(Tag::NonSpecific), resolve_tag(&handles, TagProperty::NonSpecific));
}

#[test]
fn anchor_store_puts_gets_and_clears() {
    let mut store = AnchorStore::new();
    let foo = Node::unspecified(Content::Scalar(Scalar::Plain("foo".to_string())));
    let bar = Node::unspecified(Content::Scalar(Scalar::Plain("bar".to_string())));
    assert_eq!(None, store.get("a"));
    store.put("a".to_string(), foo.clone());
    assert_eq!(Some(&foo), store.get("a"));
    store.put("a".to_string(), bar.clone());
    assert_eq!(Some(&bar), store.get("a"));
    store.clear();
    assert_eq!(None, store.get("a"));
}
