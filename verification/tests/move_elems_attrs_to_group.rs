use vexy_svgo_plugin_sdk::ast::{Document, Element, Node};
use vexy_svgo_plugin_sdk::plugins::move_elems_attrs_to_group::MoveElemsAttrsToGroupPlugin;

fn create_test_element(tag: &str, attrs: Vec<(&str, &str)>) -> Element {
    let mut element = Element::new(tag);
    for (name, value) in attrs {
        element.set_attr(name, value);
    }
    element
}

#[test]
fn move_elems_attrs_to_group_test_plugin_info() {
    let plugin = MoveElemsAttrsToGroupPlugin::new();
    assert_eq!(plugin.name(), "moveElemsAttrsToGroup");
    assert_eq!(plugin.description(), "move common attributes from elements to their group");
}

#[test]
fn test_move_common_fill_attribute() {
    let plugin = MoveElemsAttrsToGroupPlugin::new();
    let mut group = create_test_element("g", vec![]);
    group.children = vec![
        Node::Element(create_test_element("rect", vec![("fill", "red"), ("x", "0")])),
        Node::Element(create_test_element("circle", vec![("fill", "red"), ("r", "5")])),
    ];
    let mut document = Document::new();
    document.root.children = vec![Node::Element(group)];
    assert!(plugin.apply(&mut document).is_ok());
    if let Node::Element(ref group) = document.root.children[0] {
        assert_eq!(group.attr("fill"), Some("red".to_string()));
        for child in &group.children {
            if let Node::Element(elem) = child {
                assert!(!elem.has_attr("fill"));
            }
        }
    }
}

#[test]
fn test_no_change_when_attributes_differ() {
    let plugin = MoveElemsAttrsToGroupPlugin::new();
    let mut group = create_test_element("g", vec![]);
    group.children = vec![
        Node::Element(create_test_element("rect", vec![("fill", "red")])),
        Node::Element(create_test_element("circle", vec![("fill", "blue")])),
    ];
    let mut document = Document::new();
    document.root.children = vec![Node::Element(group)];
    assert!(plugin.apply(&mut document).is_ok());
    if let Node::Element(ref result_group) = document.root.children[0] {
        assert!(!result_group.has_attr("fill"));
        if let Node::Element(ref rect) = result_group.children[0] {
            assert_eq!(rect.attr("fill"), Some("red".to_string()));
        }
        if let Node::Element(ref circle) = result_group.children[1] {
            assert_eq!(circle.attr("fill"), Some("blue".to_string()));
        }
    }
}

#[test]
fn test_multiple_common_attributes() {
    let plugin = MoveElemsAttrsToGroupPlugin::new();
    let mut group = create_test_element("g", vec![]);
    group.children = vec![
        Node::Element(create_test_element(
            "rect",
            vec![("fill", "red"), ("stroke", "blue"), ("opacity", "0.5")],
        )),
        Node::Element(create_test_element(
            "circle",
            vec![("fill", "red"), ("stroke", "blue"), ("opacity", "0.5")],
        )),
    ];
    let mut document = Document::new();
    document.root.children = vec![Node::Element(group)];
    assert!(plugin.apply(&mut document).is_ok());
    if let Node::Element(ref group) = document.root.children[0] {
        assert_eq!(group.attr("fill"), Some("red".to_string()));
        assert_eq!(group.attr("stroke"), Some("blue".to_string()));
        assert_eq!(group.attr("opacity"), Some("0.5".to_string()));
        for child in &group.children {
            if let Node::Element(elem) = child {
                assert!(!elem.has_attr("fill"));
                assert!(!elem.has_attr("stroke"));
                assert!(!elem.has_attr("opacity"));
            }
        }
    }
}

#[test]
fn test_group_already_has_attribute() {
    let plugin = MoveElemsAttrsToGroupPlugin::new();
    let mut group = create_test_element("g", vec![("fill", "green")]);
    group.children = vec![
        Node::Element(create_test_element("rect", vec![("fill", "red")])),
        Node::Element(create_test_element("circle", vec![("fill", "red")])),
    ];
    let mut document = Document::new();
    document.root.children = vec![Node::Element(group)];
    assert!(plugin.apply(&mut document).is_ok());
    if let Node::Element(ref group) = document.root.children[0] {
        assert_eq!(group.attr("fill"), Some("green".to_string()));
        for child in &group.children {
            if let Node::Element(elem) = child {
                assert!(!elem.has_attr("fill"));
            }
        }
    }
}

#[test]
fn test_single_child_no_change() {
    let plugin = MoveElemsAttrsToGroupPlugin::new();
    let mut group = create_test_element("g", vec![]);
    group.children = vec![Node::Element(create_test_element("rect", vec![("fill", "red")]))];
    let mut document = Document::new();
    document.root.children = vec![Node::Element(group)];
    assert!(plugin.apply(&mut document).is_ok());
    if let Node::Element(ref result_group) = document.root.children[0] {
        assert!(!result_group.has_attr("fill"));
        if let Node::Element(ref rect) = result_group.children[0] {
            assert_eq!(rect.attr("fill"), Some("red".to_string()));
        }
    }
}

#[test]
fn common_attributes_follow_first_child_order_and_skip_unmovable() {
    let plugin = MoveElemsAttrsToGroupPlugin::new();
    let mut group = create_test_element("g", vec![]);
    group.children = vec![
        Node::Element(create_test_element("a", vec![("x", "1"), ("stroke", "b"), ("fill", "r")])),
        Node::Text("t".to_string()),
        Node::Element(create_test_element("b", vec![("fill", "r"), ("x", "1"), ("stroke", "b")])),
    ];
    let mut document = Document::new();
    document.root.children = vec![Node::Element(group)];
    plugin.apply(&mut document).unwrap();
    if let Node::Element(ref group) = document.root.children[0] {
        let names: Vec<&str> = group.attributes.entries.iter().map(|(k, _)| k.as_str()).collect();
        assert_eq!(names, vec!["stroke", "fill"]);
        if let Node::Element(ref a) = group.children[0] {
            assert_eq!(a.attr("x"), Some("1".to_string()));
        }
    }
}
