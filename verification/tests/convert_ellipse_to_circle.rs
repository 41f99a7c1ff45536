use vexy_svgo_plugin_sdk::ast::{Document, Element, Node};
use vexy_svgo_plugin_sdk::plugins::convert_ellipse_to_circle::ConvertEllipseToCirclePlugin;

fn ellipse(attrs: &[(&str, &str)]) -> Element {
    let mut e = Element::new("ellipse");
    for (k, v) in attrs {
        e.attributes.insert(k.to_string(), v.to_string());
    }
    e
}

fn count_elements_by_name(element: &Element, name: &str) -> usize {
    let mut count = 0;
    for child in &element.children {
        if let Node::Element(elem) = child {
            if elem.name == name {
                count += 1;
            }
            count += count_elements_by_name(elem, name);
        }
    }
    count
}

#[test]
fn convert_ellipse_to_circle_test_plugin_creation() {
    let plugin = ConvertEllipseToCirclePlugin::new();
    assert_eq!(plugin.name(), "convertEllipseToCircle");
    assert_eq!(plugin.description(), "converts non-eccentric <ellipse>s to <circle>s");
}

#[test]
fn test_convert_ellipse_equal_radii() {
    let plugin = ConvertEllipseToCirclePlugin::new();
    let mut doc = Document::new();
    doc.root.children.push(Node::Element(ellipse(&[("rx", "10"), ("ry", "10"), ("cx", "50"), ("cy", "50")])));
    plugin.apply(&mut doc).unwrap();
    assert_eq!(count_elements_by_name(&doc.root, "ellipse"), 0);
    assert_eq!(count_elements_by_name(&doc.root, "circle"), 1);
    if let Node::Element(elem) = &doc.root.children[0] {
        assert_eq!(elem.name, "circle");
        assert_eq!(elem.attributes.get("r"), Some(&"10".to_string()));
        assert_eq!(elem.attributes.get("cx"), Some(&"50".to_string()));
        assert_eq!(elem.attributes.get("cy"), Some(&"50".to_string()));
        assert!(!elem.attributes.contains_key("rx"));
        assert!(!elem.attributes.contains_key("ry"));
    }
}

#[test]
fn test_convert_ellipse_auto_rx() {
    let plugin = ConvertEllipseToCirclePlugin::new();
    let mut doc = Document::new();
    doc.root.children.push(Node::Element(ellipse(&[("rx", "auto"), ("ry", "15")])));
    plugin.apply(&mut doc).unwrap();
    assert_eq!(count_elements_by_name(&doc.root, "ellipse"), 0);
    assert_eq!(count_elements_by_name(&doc.root, "circle"), 1);
    if let Node::Element(elem) = &doc.root.children[0] {
        assert_eq!(elem.name, "circle");
        assert_eq!(elem.attributes.get("r"), Some(&"15".to_string()));
        assert!(!elem.attributes.contains_key("rx"));
        assert!(!elem.attributes.contains_key("ry"));
    }
}

#[test]
fn test_convert_ellipse_auto_ry() {
    let plugin = ConvertEllipseToCirclePlugin::new();
    let mut doc = Document::new();
    doc.root.children.push(Node::Element(ellipse(&[("rx", "20"), ("ry", "auto")])));
    plugin.apply(&mut doc).unwrap();
    assert_eq!(count_elements_by_name(&doc.root, "ellipse"), 0);
    assert_eq!(count_elements_by_name(&doc.root, "circle"), 1);
    if let Node::Element(elem) = &doc.root.children[0] {
        assert_eq!(elem.name, "circle");
        assert_eq!(elem.attributes.get("r"), Some(&"20".to_string()));
        assert!(!elem.attributes.contains_key("rx"));
        assert!(!elem.attributes.contains_key("ry"));
    }
}

#[test]
fn test_keep_ellipse_different_radii() {
    let plugin = ConvertEllipseToCirclePlugin::new();
    let mut doc = Document::new();
    doc.root.children.push(Node::Element(ellipse(&[("rx", "10"), ("ry", "20")])));
    plugin.apply(&mut doc).unwrap();
    assert_eq!(count_elements_by_name(&doc.root, "ellipse"), 1);
    assert_eq!(count_elements_by_name(&doc.root, "circle"), 0);
    if let Node::Element(elem) = &doc.root.children[0] {
        assert_eq!(elem.name, "ellipse");
        assert_eq!(elem.attributes.get("rx"), Some(&"10".to_string()));
        assert_eq!(elem.attributes.get("ry"), Some(&"20".to_string()));
    }
}

#[test]
fn test_ellipse_default_attributes() {
    let plugin = ConvertEllipseToCirclePlugin::new();
    let mut doc = Document::new();
    doc.root.children.push(Node::Element(ellipse(&[])));
    plugin.apply(&mut doc).unwrap();
    assert_eq!(count_elements_by_name(&doc.root, "ellipse"), 0);
    assert_eq!(count_elements_by_name(&doc.root, "circle"), 1);
    if let Node::Element(elem) = &doc.root.children[0] {
        assert_eq!(elem.name, "circle");
        assert_eq!(elem.attributes.get("r"), Some(&"0".to_string()));
    }
}

#[test]
fn test_ellipse_with_only_rx() {
    let plugin = ConvertEllipseToCirclePlugin::new();
    let mut doc = Document::new();
    doc.root.children.push(Node::Element(ellipse(&[("rx", "0")])));
    plugin.apply(&mut doc).unwrap();
    assert_eq!(count_elements_by_name(&doc.root, "ellipse"), 0);
    assert_eq!(count_elements_by_name(&doc.root, "circle"), 1);
    if let Node::Element(elem) = &doc.root.children[0] {
        assert_eq!(elem.name, "circle");
        assert_eq!(elem.attributes.get("r"), Some(&"0".to_string()));
    }
}

#[test]
fn test_nested_ellipses() {
    let plugin = ConvertEllipseToCirclePlugin::new();
    let mut doc = Document::new();
    let mut group = Element::new("g");
    group.children.push(Node::Element(ellipse(&[("rx", "5"), ("ry", "5")])));
    group.children.push(Node::Element(ellipse(&[("rx", "5"), ("ry", "10")])));
    doc.root.children.push(Node::Element(group));
    plugin.apply(&mut doc).unwrap();
    assert_eq!(count_elements_by_name(&doc.root, "ellipse"), 1);
    assert_eq!(count_elements_by_name(&doc.root, "circle"), 1);
}

#[test]
fn test_no_ellipses() {
    let plugin = ConvertEllipseToCirclePlugin::new();
    let mut doc = Document::new();
    doc.root.children.push(Node::Element(Element::new("rect")));
    doc.root.children.push(Node::Element(Element::new("circle")));
    plugin.apply(&mut doc).unwrap();
    assert_eq!(count_elements_by_name(&doc.root, "ellipse"), 0);
    assert_eq!(count_elements_by_name(&doc.root, "circle"), 1);
    assert_eq!(count_elements_by_name(&doc.root, "rect"), 1);
}
