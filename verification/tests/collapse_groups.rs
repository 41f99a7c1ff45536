use vexy_svgo_plugin_sdk::ast::{Document, Element, Node};
use vexy_svgo_plugin_sdk::plugins::collapse_groups::CollapseGroupsPlugin;

fn create_element(name: &str) -> Element {
    Element::new(name)
}

fn create_element_with_attrs(name: &str, attrs: &[(&str, &str)]) -> Element {
    let mut element = create_element(name);
    for (key, value) in attrs {
        element.set_attr(key, value);
    }
    element
}

#[test]
fn collapse_groups_test_plugin_creation() {
    let plugin = CollapseGroupsPlugin::new();
    assert_eq!(plugin.name(), "collapseGroups");
}

#[test]
fn test_animation_elements() {
    assert!(CollapseGroupsPlugin::animation_elements().contains(&"animate"));
    assert!(CollapseGroupsPlugin::animation_elements().contains(&"animateTransform"));
    assert!(!CollapseGroupsPlugin::animation_elements().contains(&"rect"));
}

#[test]
fn test_has_animation_children() {
    let mut group = create_element("g");
    assert!(!CollapseGroupsPlugin::has_animation_children(&group));
    group.children.push(Node::Element(create_element("animate")));
    assert!(CollapseGroupsPlugin::has_animation_children(&group));
    let mut group2 = create_element("g");
    group2.children.push(Node::Element(create_element("rect")));
    assert!(!CollapseGroupsPlugin::has_animation_children(&group2));
}

#[test]
fn test_can_move_attributes() {
    let group = create_element("g");
    let child = create_element("rect");
    assert!(CollapseGroupsPlugin::can_move_attributes(&group, &child));
    let child_with_id = create_element_with_attrs("rect", &[("id", "test")]);
    assert!(!CollapseGroupsPlugin::can_move_attributes(&group, &child_with_id));
    let group_with_filter = create_element_with_attrs("g", &[("filter", "url(#filter)")]);
    assert!(!CollapseGroupsPlugin::can_move_attributes(&group_with_filter, &child));
    let group_with_class = create_element_with_attrs("g", &[("class", "group-class")]);
    let child_with_class = create_element_with_attrs("rect", &[("class", "child-class")]);
    assert!(!CollapseGroupsPlugin::can_move_attributes(&group_with_class, &child_with_class));
}

#[test]
fn test_move_attributes_basic() {
    let group = create_element_with_attrs("g", &[("fill", "red"), ("stroke", "blue")]);
    let mut child = create_element("rect");
    CollapseGroupsPlugin::move_attributes(&group, &mut child);
    assert_eq!(child.attributes.get("fill"), Some(&"red".to_string()));
    assert_eq!(child.attributes.get("stroke"), Some(&"blue".to_string()));
}

#[test]
fn test_move_attributes_transform_concatenation() {
    let group = create_element_with_attrs("g", &[("transform", "translate(10,10)")]);
    let mut child = create_element_with_attrs("rect", &[("transform", "scale(2)")]);
    CollapseGroupsPlugin::move_attributes(&group, &mut child);
    assert_eq!(
        child.attributes.get("transform"),
        Some(&"translate(10,10) scale(2)".to_string())
    );
}

#[test]
fn test_move_attributes_inheritance() {
    let group = create_element_with_attrs("g", &[("fill", "red")]);
    let mut child = create_element_with_attrs("rect", &[("fill", "inherit")]);
    CollapseGroupsPlugin::move_attributes(&group, &mut child);
    assert_eq!(child.attributes.get("fill"), Some(&"red".to_string()));
}

#[test]
fn move_attributes_keeps_child_values() {
    let group = create_element_with_attrs("g", &[("fill", "red"), ("id", "g1")]);
    let mut child = create_element_with_attrs("rect", &[("fill", "blue"), ("x", "inherit")]);
    CollapseGroupsPlugin::move_attributes(&group, &mut child);
    assert_eq!(child.attributes.get("fill"), Some(&"blue".to_string()));
    assert_eq!(child.attributes.get("id"), Some(&"g1".to_string()));
}

#[test]
fn test_can_remove_group() {
    let group = create_element("g");
    assert!(CollapseGroupsPlugin::can_remove_group(&group, None));
    let group_with_attrs = create_element_with_attrs("g", &[("fill", "red")]);
    assert!(!CollapseGroupsPlugin::can_remove_group(&group_with_attrs, None));
    assert!(!CollapseGroupsPlugin::can_remove_group(&group, Some("switch")));
    let mut group_with_animation = create_element("g");
    group_with_animation.children.push(Node::Element(create_element("animate")));
    assert!(!CollapseGroupsPlugin::can_remove_group(&group_with_animation, None));
}

#[test]
fn test_plugin_apply_empty_group_removal() {
    let plugin = CollapseGroupsPlugin::new();
    let mut doc = Document::new();
    let rect = create_element("rect");
    let mut inner_group = create_element("g");
    inner_group.children.push(Node::Element(rect));
    let mut outer_group = create_element("g");
    outer_group.children.push(Node::Element(inner_group));
    doc.root.children.push(Node::Element(outer_group));
    plugin.apply(&mut doc).unwrap();
    assert_eq!(doc.root.children.len(), 1);
    if let Node::Element(element) = &doc.root.children[0] {
        assert_eq!(element.name.as_str(), "rect");
    }
}

#[test]
fn test_plugin_apply_attribute_movement() {
    let plugin = CollapseGroupsPlugin::new();
    let mut doc = Document::new();
    let child = create_element("rect");
    let mut group = create_element_with_attrs("g", &[("fill", "red"), ("stroke", "blue")]);
    group.children.push(Node::Element(child));
    doc.root.children.push(Node::Element(group));
    plugin.apply(&mut doc).unwrap();
    assert_eq!(doc.root.children.len(), 1);
    if let Node::Element(element) = &doc.root.children[0] {
        assert_eq!(element.name.as_str(), "rect");
        assert_eq!(element.attributes.get("fill"), Some(&"red".to_string()));
        assert_eq!(element.attributes.get("stroke"), Some(&"blue".to_string()));
    }
}

#[test]
fn test_plugin_apply_preservation() {
    let plugin = CollapseGroupsPlugin::new();
    let mut doc = Document::new();
    let mut group = create_element_with_attrs("g", &[("fill", "red")]);
    group.children.push(Node::Element(create_element("rect")));
    group.children.push(Node::Element(create_element("circle")));
    doc.root.children.push(Node::Element(group));
    plugin.apply(&mut doc).unwrap();
    assert_eq!(doc.root.children.len(), 1);
    if let Node::Element(element) = &doc.root.children[0] {
        assert_eq!(element.name.as_str(), "g");
        assert_eq!(element.children.len(), 2);
        assert_eq!(element.attributes.get("fill"), Some(&"red".to_string()));
    }
}

#[test]
fn groups_under_switch_stay() {
    let plugin = CollapseGroupsPlugin::new();
    let mut doc = Document::new();
    let mut sw = create_element("switch");
    let mut g = create_element("g");
    g.children.push(Node::Text("a".to_string()));
    g.children.push(Node::Element(create_element("rect")));
    sw.children.push(Node::Element(g));
    doc.root.children.push(Node::Element(sw));
    plugin.apply(&mut doc).unwrap();
    if let Node::Element(sw) = &doc.root.children[0] {
        assert_eq!(sw.children.len(), 1);
        if let Node::Element(g) = &sw.children[0] {
            assert_eq!(g.name.as_str(), "g");
        }
    }
}
