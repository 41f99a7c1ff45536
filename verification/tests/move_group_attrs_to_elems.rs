use vexy_svgo_plugin_sdk::ast::{Document, Element, Node};
use vexy_svgo_plugin_sdk::plugins::move_group_attrs_to_elems::MoveGroupAttrsToElemsPlugin;

#[test]
fn move_group_attrs_to_elems_test_plugin_info() {
    let plugin = MoveGroupAttrsToElemsPlugin::new();
    assert_eq!(plugin.name(), "moveGroupAttrsToElems");
    assert_eq!(
        plugin.description(),
        "Move group attributes to children when group has single child"
    );
}

#[test]
fn test_move_attrs_to_single_child() {
    let plugin = MoveGroupAttrsToElemsPlugin::new();
    let mut doc = Document::new();
    let mut group = Element::new("g");
    group.set_attr("fill", "red");
    group.set_attr("stroke", "blue");
    group.set_attr("id", "group1");
    group.children.push(Node::Element(Element::new("rect")));
    doc.root = group;
    plugin.apply(&mut doc).unwrap();
    match &doc.root.children[0] {
        Node::Element(child) => {
            assert_eq!(child.attr("fill"), Some("red".to_string()));
            assert_eq!(child.attr("stroke"), Some("blue".to_string()));
        }
        _ => panic!("Expected element child"),
    }
    assert!(!doc.root.has_attr("fill"));
    assert!(!doc.root.has_attr("stroke"));
    assert_eq!(doc.root.attr("id"), Some("group1".to_string()));
}

#[test]
fn test_no_move_when_child_has_attr() {
    let plugin = MoveGroupAttrsToElemsPlugin::new();
    let mut doc = Document::new();
    let mut group = Element::new("g");
    group.set_attr("fill", "red");
    group.set_attr("stroke", "blue");
    let mut child = Element::new("rect");
    child.set_attr("fill", "green");
    group.children.push(Node::Element(child));
    doc.root = group;
    plugin.apply(&mut doc).unwrap();
    match &doc.root.children[0] {
        Node::Element(child) => {
            assert_eq!(child.attr("fill"), Some("green".to_string()));
            assert_eq!(child.attr("stroke"), Some("blue".to_string()));
        }
        _ => panic!("Expected element child"),
    }
    assert_eq!(doc.root.attr("fill"), Some("red".to_string()));
    assert!(!doc.root.has_attr("stroke"));
}

#[test]
fn test_no_move_with_multiple_children() {
    let plugin = MoveGroupAttrsToElemsPlugin::new();
    let mut doc = Document::new();
    let mut group = Element::new("g");
    group.set_attr("fill", "red");
    group.children.push(Node::Element(Element::new("rect")));
    group.children.push(Node::Element(Element::new("circle")));
    doc.root = group;
    plugin.apply(&mut doc).unwrap();
    assert_eq!(doc.root.attr("fill"), Some("red".to_string()));
}

#[test]
fn nested_groups_move_bottom_up_past_text() {
    let plugin = MoveGroupAttrsToElemsPlugin::new();
    let mut doc = Document::new();
    let mut outer = Element::new("g");
    outer.set_attr("opacity", "0.5");
    let mut inner = Element::new("g");
    inner.set_attr("fill", "red");
    inner.children.push(Node::Text("x".to_string()));
    inner.children.push(Node::Element(Element::new("rect")));
    outer.children.push(Node::Element(inner));
    doc.root.children.push(Node::Element(outer));
    plugin.apply(&mut doc).unwrap();
    let outer = match &doc.root.children[0] {
        Node::Element(e) => e,
        _ => panic!(),
    };
    assert!(!outer.has_attr("opacity"));
    let inner = match &outer.children[0] {
        Node::Element(e) => e,
        _ => panic!(),
    };
    assert_eq!(inner.attr("opacity"), Some("0.5".to_string()));
    assert!(!inner.has_attr("fill"));
    match &inner.children[1] {
        Node::Element(r) => assert_eq!(r.attr("fill"), Some("red".to_string())),
        _ => panic!(),
    }
}
