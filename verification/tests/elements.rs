use svd_parser::element::{new_element, Element};
use svd_parser::error::SVDError;

fn leaf(tag: &str, text: &str) -> Element {
    new_element(tag, Some(text.to_string()))
}

fn pair(k: &str, v: &str) -> (String, String) {
    (k.to_string(), v.to_string())
}

#[test]
fn new_elements_are_leaves() {
    let e = Element::new("device");
    assert_eq!(e.name, "device");
    assert_eq!(e.text, None);
    assert!(e.attributes.is_empty());
    assert!(e.children.is_empty());
    let l = new_element("name", Some("STM32".to_string()));
    assert_eq!(l.name, "name");
    assert_eq!(l.text, Some("STM32".to_string()));
}

#[test]
fn first_child_of_a_tag() {
    let mut e = Element::new("p");
    e.push_child(leaf("a", "1"));
    e.push_child(leaf("b", "2"));
    e.push_child(leaf("a", "3"));
    assert_eq!(e.get_child("a"), Some(&leaf("a", "1")));
    assert_eq!(e.get_child("b"), Some(&leaf("b", "2")));
    assert_eq!(e.get_child("c"), None);
    assert_eq!(e.get_child(""), None);
    assert_eq!(Element::new("p").get_child("a"), None);
}

#[test]
fn child_text() {
    let mut e = Element::new("p");
    e.push_child(leaf("a", "1"));
    e.push_child(new_element("b", None));
    assert_eq!(e.get_child_text("a"), Ok("1".to_string()));
    assert_eq!(e.get_child_text("b"), Err(SVDError::EmptyTag { element: "b".to_string() }));
    assert_eq!(
        e.get_child_text("c"),
        Err(SVDError::MissingTag { element: "p".to_string(), tag: "c".to_string() })
    );
    assert_eq!(e.get_child_text_opt("a"), Ok(Some("1".to_string())));
    assert_eq!(e.get_child_text_opt("c"), Ok(None));
    assert_eq!(e.get_child_text_opt("b"), Err(SVDError::EmptyTag { element: "b".to_string() }));
}

#[test]
fn attributes_keep_each_key_once() {
    let mut e = Element::new("p");
    assert_eq!(e.attribute("k"), None);
    e.set_attribute("k".to_string(), "1".to_string());
    e.set_attribute("l".to_string(), "2".to_string());
    assert_eq!(e.attribute("k"), Some(&"1".to_string()));
    assert_eq!(e.attribute("l"), Some(&"2".to_string()));
    e.set_attribute("k".to_string(), "3".to_string());
    assert_eq!(e.attribute("k"), Some(&"3".to_string()));
    assert_eq!(e.attributes, vec![pair("k", "3"), pair("l", "2")]);
}

#[test]
fn merging() {
    let mut base = Element::new("base");
    base.text = Some("t".to_string());
    base.push_child(leaf("a", "1"));
    base.set_attribute("k".to_string(), "base".to_string());
    base.set_attribute("only".to_string(), "base".to_string());

    let mut over = Element::new("over");
    over.text = Some("u".to_string());
    over.push_child(leaf("b", "2"));
    over.push_child(leaf("a", "3"));
    over.set_attribute("new".to_string(), "over".to_string());
    over.set_attribute("k".to_string(), "over".to_string());

    base.merge(over);
    assert_eq!(base.name, "base");
    assert_eq!(base.text, Some("t".to_string()));
    assert_eq!(base.children, vec![leaf("a", "1"), leaf("b", "2"), leaf("a", "3")]);
    assert_eq!(
        base.attributes,
        vec![pair("k", "over"), pair("only", "base"), pair("new", "over")]
    );
}
