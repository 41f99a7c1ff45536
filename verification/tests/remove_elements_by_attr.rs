use vexy_svgo_plugin_sdk::ast::{Document, Element, Node};
use vexy_svgo_plugin_sdk::plugins::remove_elements_by_attr::{
    RemoveElementsByAttrConfig, RemoveElementsByAttrPlugin,
};

fn element(name: &str, k: &str, v: &str) -> Element {
    let mut e = Element::new(name);
    e.set_attr(k, v);
    e
}

#[test]
fn remove_elements_by_attr_test_plugin_info() {
    let plugin = RemoveElementsByAttrPlugin::new();
    assert_eq!(plugin.name(), "removeElementsByAttr");
    assert_eq!(
        plugin.description(),
        "removes arbitrary elements by ID or className (disabled by default)"
    );
}

#[test]
fn test_should_remove_element_by_id() {
    let plugin = RemoveElementsByAttrPlugin::with_config(RemoveElementsByAttrConfig {
        id: vec!["removeMe".to_string()],
        class: vec![],
    });
    assert!(plugin.should_remove_element(&element("rect", "id", "removeMe")));
    assert!(!plugin.should_remove_element(&element("rect", "id", "keepMe")));
}

#[test]
fn test_should_remove_element_by_class() {
    let plugin = RemoveElementsByAttrPlugin::with_config(RemoveElementsByAttrConfig {
        id: vec![],
        class: vec!["removeMe".to_string()],
    });
    assert!(plugin.should_remove_element(&element("rect", "class", "someClass removeMe anotherClass")));
    assert!(!plugin.should_remove_element(&element("rect", "class", "someClass keepMe anotherClass")));
}

#[test]
fn test_apply_removes_by_id() {
    let plugin = RemoveElementsByAttrPlugin::with_config(RemoveElementsByAttrConfig {
        id: vec!["elementToRemove".to_string()],
        class: vec![],
    });
    let mut doc = Document::new();
    doc.root.children.push(Node::Element(element("rect", "id", "elementToRemove")));
    doc.root.children.push(Node::Element(element("circle", "id", "elementToKeep")));
    assert!(plugin.apply(&mut doc).is_ok());
    assert_eq!(doc.root.children.len(), 1);
    if let Node::Element(element) = &doc.root.children[0] {
        assert_eq!(element.name, "circle");
        assert_eq!(element.attr("id"), Some("elementToKeep".to_string()));
    } else {
        panic!("Expected element");
    }
}

#[test]
fn test_apply_removes_by_class() {
    let plugin = RemoveElementsByAttrPlugin::with_config(RemoveElementsByAttrConfig {
        id: vec![],
        class: vec!["removeMe".to_string()],
    });
    let mut doc = Document::new();
    doc.root.children.push(Node::Element(element("rect", "class", "some-class removeMe another-class")));
    doc.root.children.push(Node::Element(element("circle", "class", "some-class keep-me another-class")));
    assert!(plugin.apply(&mut doc).is_ok());
    assert_eq!(doc.root.children.len(), 1);
    if let Node::Element(element) = &doc.root.children[0] {
        assert_eq!(element.name, "circle");
        assert_eq!(element.attr("class"), Some("some-class keep-me another-class".to_string()));
    } else {
        panic!("Expected element");
    }
}

#[test]
fn test_apply_no_config_does_nothing() {
    let plugin = RemoveElementsByAttrPlugin::new();
    let mut doc = Document::new();
    doc.root.children.push(Node::Element(element("rect", "id", "someId")));
    assert!(plugin.apply(&mut doc).is_ok());
    assert_eq!(doc.root.children.len(), 1);
}

#[test]
fn test_apply_recursive() {
    let plugin = RemoveElementsByAttrPlugin::with_config(RemoveElementsByAttrConfig {
        id: vec!["removeMe".to_string()],
        class: vec![],
    });
    let mut doc = Document::new();
    let mut group = element("g", "id", "group");
    group.children.push(Node::Element(element("rect", "id", "removeMe")));
    doc.root.children.push(Node::Element(group));
    assert!(plugin.apply(&mut doc).is_ok());
    assert_eq!(doc.root.children.len(), 1);
    if let Node::Element(group) = &doc.root.children[0] {
        assert_eq!(group.name, "g");
        assert_eq!(group.children.len(), 0);
    } else {
        panic!("Expected group element");
    }
}
