use ya::parse::anchor::AnchorStore;
use ya::parse::tag_handles::TagHandles;
use ya::value::{Content, Node};

#[test]
fn default_handles_are_preregistered() {
    let handles = TagHandles::new();
    assert_eq!(Some(&"!".to_string()), handles.get("!"));
    assert_eq!(Some(&"tag:yaml.org,2002:".to_string()), handles.get("!!"));
    assert_eq!(None, handles.get("!e!"));
}

#[test]
fn put_registers_named_handle() {
    let mut handles = TagHandles::new();
    handles.put("!e!".to_string(), "tag:example.com,2000:app/".to_string());
    assert_eq!(
        Some(&"tag:example.com,2000:app/".to_string()),
        handles.get("!e!")
    );
}

#[test]
fn put_replaces_and_clear_restores_the_defaults() {
    let mut handles = TagHandles::new();
    handles.put("!".to_string(), "tag:example.com,2000:".to_string());
    assert_eq!(Some(&"tag:example.com,2000:".to_string()), handles.get("!"));
    handles.put("!e!".to_string(), "x".to_string());
    handles.clear();
    assert_eq!(Some(&"!".to_string()), handles.get("!"));
    assert_eq!(None, handles.get("!e!"));
}

#[test]
fn tag_handles_compare_by_what_they_map() {
    let mut a = TagHandles::new();
    let mut b = TagHandles::default();
    assert!(a == b);
    a.put("!e!".to_string(), "tag:e,2000:".to_string());
    assert!(a != b);
    b.put("!e!".to_string(), "tag:other,2000:".to_string());
    assert!(a != b);
    b.put("!e!".to_string(), "tag:e,2000:".to_string());
    assert!(a == b);
    let c = a.clone();
    assert!(c == a);
}

#[test]
fn anchor_store_default_is_empty_and_clones() {
    let mut store = AnchorStore::default();
    assert!(store.get("a").is_none());
    store.put("a".to_string(), Node::unspecified(Content::Empty));
    let copy = store.clone();
    assert!(copy.get("a").is_some());
}
