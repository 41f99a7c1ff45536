use vexy_svgo_plugin_sdk::ast::{Document, Element, Node};
use vexy_svgo_plugin_sdk::plugins::remove_attrs::{RemoveAttrsConfig, RemoveAttrsPlugin};

fn rect_doc(attrs: &[(&str, &str)]) -> Document {
    let mut document = Document::new();
    let mut rect = Element::new("rect");
    for (k, v) in attrs {
        rect.set_attr(k, v);
    }
    document.root.children.push(Node::Element(rect));
    document
}

fn config(attrs: &[&str]) -> RemoveAttrsConfig {
    RemoveAttrsConfig { attrs: attrs.iter().map(|s| s.to_string()).collect(), ..Default::default() }
}

fn first(document: &Document) -> &Element {
    match &document.root.children[0] {
        Node::Element(e) => e,
        _ => panic!("not an element"),
    }
}

#[test]
fn remove_attrs_test_plugin_info() {
    let plugin = RemoveAttrsPlugin::new();
    assert_eq!(plugin.name(), "removeAttrs");
    assert_eq!(plugin.description(), "removes specified attributes");
}

#[test]
fn test_simple_attribute_removal() {
    let mut document = rect_doc(&[("fill", "red"), ("stroke", "blue"), ("width", "100")]);
    let plugin = RemoveAttrsPlugin::with_config(config(&["fill"]));
    plugin.apply(&mut document).unwrap();
    let rect = first(&document);
    assert!(!rect.has_attr("fill"));
    assert!(rect.has_attr("stroke"));
    assert!(rect.has_attr("width"));
}

#[test]
fn test_multiple_attribute_removal() {
    let mut document = rect_doc(&[("fill", "red"), ("stroke", "blue"), ("width", "100")]);
    let plugin = RemoveAttrsPlugin::with_config(config(&["fill", "stroke"]));
    plugin.apply(&mut document).unwrap();
    let rect = first(&document);
    assert!(!rect.has_attr("fill"));
    assert!(!rect.has_attr("stroke"));
    assert!(rect.has_attr("width"));
}

#[test]
fn test_regex_pattern_removal() {
    let mut document = rect_doc(&[
        ("fill", "red"),
        ("stroke", "blue"),
        ("stroke-width", "2"),
        ("stroke-opacity", "0.5"),
    ]);
    let plugin = RemoveAttrsPlugin::with_config(config(&["stroke.*"]));
    plugin.apply(&mut document).unwrap();
    let rect = first(&document);
    assert!(rect.has_attr("fill"));
    assert!(!rect.has_attr("stroke"));
    assert!(!rect.has_attr("stroke-width"));
    assert!(!rect.has_attr("stroke-opacity"));
}

#[test]
fn test_element_specific_removal() {
    let mut document = Document::new();
    let mut circle = Element::new("circle");
    circle.set_attr("fill", "red");
    let mut rect = Element::new("rect");
    rect.set_attr("fill", "blue");
    document.root.children.push(Node::Element(circle));
    document.root.children.push(Node::Element(rect));

    let plugin = RemoveAttrsPlugin::with_config(config(&["circle:fill"]));
    plugin.apply(&mut document).unwrap();

    if let Node::Element(circle_elem) = &document.root.children[0] {
        assert!(!circle_elem.has_attr("fill"));
    }
    if let Node::Element(rect_elem) = &document.root.children[1] {
        assert!(rect_elem.has_attr("fill"));
    }
}

#[test]
fn test_value_specific_removal() {
    let mut document = rect_doc(&[("fill", "red"), ("stroke", "blue")]);
    let plugin = RemoveAttrsPlugin::with_config(config(&["*:fill:red"]));
    plugin.apply(&mut document).unwrap();
    let rect = first(&document);
    assert!(!rect.has_attr("fill"));
    assert!(rect.has_attr("stroke"));
}

#[test]
fn test_preserve_current_color() {
    let mut document = rect_doc(&[("fill", "currentColor"), ("stroke", "red")]);
    let plugin = RemoveAttrsPlugin::with_config(RemoveAttrsConfig {
        attrs: vec!["(fill|stroke)".to_string()],
        preserve_current_color: true,
        ..Default::default()
    });
    plugin.apply(&mut document).unwrap();
    let rect = first(&document);
    assert!(rect.has_attr("fill"));
    assert!(!rect.has_attr("stroke"));
}

#[test]
fn test_preserve_current_color_case_insensitive() {
    let mut document = rect_doc(&[("fill", "currentcolor"), ("stroke", "CURRENTCOLOR")]);
    let plugin = RemoveAttrsPlugin::with_config(RemoveAttrsConfig {
        attrs: vec!["(fill|stroke)".to_string()],
        preserve_current_color: true,
        ..Default::default()
    });
    plugin.apply(&mut document).unwrap();
    let rect = first(&document);
    assert!(rect.has_attr("fill"));
    assert!(rect.has_attr("stroke"));
}

#[test]
fn test_custom_separator() {
    let mut document = rect_doc(&[("fill", "red"), ("stroke", "blue")]);
    let plugin = RemoveAttrsPlugin::with_config(RemoveAttrsConfig {
        attrs: vec!["rect|fill".to_string()],
        elem_separator: "|".to_string(),
        ..Default::default()
    });
    plugin.apply(&mut document).unwrap();
    let rect = first(&document);
    assert!(!rect.has_attr("fill"));
    assert!(rect.has_attr("stroke"));
}

#[test]
fn remove_attrs_test_nested_elements() {
    let mut document = Document::new();
    let mut group = Element::new("g");
    group.set_attr("fill", "red");
    let mut rect = Element::new("rect");
    rect.set_attr("fill", "blue");
    rect.set_attr("stroke", "green");
    group.children.push(Node::Element(rect));
    document.root.children.push(Node::Element(group));

    let plugin = RemoveAttrsPlugin::with_config(config(&["fill"]));
    plugin.apply(&mut document).unwrap();

    if let Node::Element(group_elem) = &document.root.children[0] {
        assert!(!group_elem.has_attr("fill"));
        if let Node::Element(rect_elem) = &group_elem.children[0] {
            assert!(!rect_elem.has_attr("fill"));
            assert!(rect_elem.has_attr("stroke"));
        }
    }
}

#[test]
fn remove_attrs_refuses_bad_configurations() {
    let mut document = rect_doc(&[("fill", "red")]);
    assert!(RemoveAttrsPlugin::new().apply(&mut document).is_err());
    assert!(RemoveAttrsPlugin::with_config(config(&["a:b:c:d"])).apply(&mut document).is_err());
    assert!(RemoveAttrsPlugin::with_config(config(&["fill", "("])).apply(&mut document).is_err());
    // nothing was removed on refusal
    assert!(first(&document).has_attr("fill"));
    // the pattern is anchored: "fil" does not match "fill"
    RemoveAttrsPlugin::with_config(config(&["fil"])).apply(&mut document).unwrap();
    assert!(first(&document).has_attr("fill"));
}
