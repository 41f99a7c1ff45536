use vexy_svgo_plugin_sdk::ast::{Document, Element, Node, PluginError};
use vexy_svgo_plugin_sdk::plugins::remove_dimensions::{RemoveDimensionsPlugin, ViewBoxTable};

fn create_test_document() -> Document {
    Document::new()
}

/// Reads the dimensions as numbers and writes the viewBox, as the application does.
fn apply(plugin: &RemoveDimensionsPlugin, doc: &mut Document) -> Result<(), PluginError> {
    let mut table = ViewBoxTable { entries: Vec::new() };
    for (w, h) in plugin.dimension_pairs(doc) {
        if let (Ok(width), Ok(height)) = (w.parse::<f64>(), h.parse::<f64>()) {
            if !width.is_nan() && !height.is_nan() {
                let v = format!("0 0 {} {}", width, height);
                table.entries.push((w, h, v));
            }
        }
    }
    plugin.apply(doc, &table)
}

#[test]
fn remove_dimensions_test_plugin_info() {
    let plugin = RemoveDimensionsPlugin::new();
    assert_eq!(plugin.name(), "removeDimensions");
    assert_eq!(
        plugin.description(),
        "removes width and height in presence of viewBox (opposite to removeViewBox)"
    );
}

#[test]
fn test_remove_dimensions_with_existing_viewbox() {
    let plugin = RemoveDimensionsPlugin::new();
    let mut doc = create_test_document();
    doc.root.set_attr("width", "100");
    doc.root.set_attr("height", "50");
    doc.root.set_attr("viewBox", "0 0 200 100");
    assert!(apply(&plugin, &mut doc).is_ok());
    assert!(!doc.root.has_attr("width"));
    assert!(!doc.root.has_attr("height"));
    assert_eq!(doc.root.attr("viewBox").as_deref(), Some("0 0 200 100"));
}

#[test]
fn test_create_viewbox_from_dimensions() {
    let plugin = RemoveDimensionsPlugin::new();
    let mut doc = create_test_document();
    doc.root.set_attr("width", "100");
    doc.root.set_attr("height", "50");
    assert!(apply(&plugin, &mut doc).is_ok());
    assert!(!doc.root.has_attr("width"));
    assert!(!doc.root.has_attr("height"));
    assert_eq!(doc.root.attr("viewBox").as_deref(), Some("0 0 100 50"));
}

#[test]
fn test_decimal_dimensions() {
    let plugin = RemoveDimensionsPlugin::new();
    let mut doc = create_test_document();
    doc.root.set_attr("width", "100.5");
    doc.root.set_attr("height", "50.25");
    assert!(apply(&plugin, &mut doc).is_ok());
    assert!(!doc.root.has_attr("width"));
    assert!(!doc.root.has_attr("height"));
    assert_eq!(doc.root.attr("viewBox").as_deref(), Some("0 0 100.5 50.25"));
}

#[test]
fn test_invalid_dimensions_ignored() {
    let plugin = RemoveDimensionsPlugin::new();
    let mut doc = create_test_document();
    doc.root.set_attr("width", "invalid");
    doc.root.set_attr("height", "50");
    assert!(apply(&plugin, &mut doc).is_ok());
    assert_eq!(doc.root.attr("width").as_deref(), Some("invalid"));
    assert_eq!(doc.root.attr("height").as_deref(), Some("50"));
    assert!(!doc.root.has_attr("viewBox"));
}

#[test]
fn test_missing_dimension_ignored() {
    let plugin = RemoveDimensionsPlugin::new();
    let mut doc = create_test_document();
    doc.root.set_attr("width", "100");
    assert!(apply(&plugin, &mut doc).is_ok());
    assert_eq!(doc.root.attr("width").as_deref(), Some("100"));
    assert!(!doc.root.has_attr("viewBox"));
}

#[test]
fn test_only_processes_svg_elements() {
    let plugin = RemoveDimensionsPlugin::new();
    let mut doc = create_test_document();
    let mut rect = Element::new("rect");
    rect.set_attr("width", "100");
    rect.set_attr("height", "50");
    rect.set_attr("x", "10");
    rect.set_attr("y", "10");
    doc.root.children.push(Node::Element(rect));
    assert!(apply(&plugin, &mut doc).is_ok());
    if let Node::Element(rect) = &doc.root.children[0] {
        assert_eq!(rect.attr("width").as_deref(), Some("100"));
        assert_eq!(rect.attr("height").as_deref(), Some("50"));
        assert!(!rect.has_attr("viewBox"));
    } else {
        panic!("Expected rect element");
    }
}

#[test]
fn test_nested_svg_elements() {
    let plugin = RemoveDimensionsPlugin::new();
    let mut doc = create_test_document();
    doc.root.set_attr("width", "200");
    doc.root.set_attr("height", "100");
    let mut nested_svg = Element::new("svg");
    nested_svg.set_attr("width", "100");
    nested_svg.set_attr("height", "50");
    doc.root.children.push(Node::Element(nested_svg));
    assert!(apply(&plugin, &mut doc).is_ok());
    assert!(!doc.root.has_attr("width"));
    assert!(!doc.root.has_attr("height"));
    assert_eq!(doc.root.attr("viewBox").as_deref(), Some("0 0 200 100"));
    if let Node::Element(nested_svg) = &doc.root.children[0] {
        assert!(!nested_svg.has_attr("width"));
        assert!(!nested_svg.has_attr("height"));
        assert_eq!(nested_svg.attr("viewBox").as_deref(), Some("0 0 100 50"));
    } else {
        panic!("Expected nested SVG element");
    }
}

#[test]
fn test_zero_dimensions() {
    let plugin = RemoveDimensionsPlugin::new();
    let mut doc = create_test_document();
    doc.root.set_attr("width", "0");
    doc.root.set_attr("height", "0");
    assert!(apply(&plugin, &mut doc).is_ok());
    assert!(!doc.root.has_attr("width"));
    assert!(!doc.root.has_attr("height"));
    assert_eq!(doc.root.attr("viewBox").as_deref(), Some("0 0 0 0"));
}

#[test]
fn test_no_dimensions_no_change() {
    let plugin = RemoveDimensionsPlugin::new();
    let mut doc = create_test_document();
    let count_before = doc.root.attributes.len();
    assert!(apply(&plugin, &mut doc).is_ok());
    assert_eq!(doc.root.attributes.len(), count_before);
    assert!(!doc.root.has_attr("width"));
    assert!(!doc.root.has_attr("height"));
    assert!(!doc.root.has_attr("viewBox"));
}

#[test]
fn remove_dimensions_lists_pairs_in_document_order() {
    let plugin = RemoveDimensionsPlugin::new();
    let mut doc = create_test_document();
    doc.root.set_attr("width", "1");
    doc.root.set_attr("height", "2");
    let mut inner = Element::new("svg");
    inner.set_attr("width", "3");
    inner.set_attr("height", "4");
    inner.set_attr("viewBox", "0 0 3 4");
    doc.root.children.push(Node::Element(inner));
    let mut other = Element::new("svg");
    other.set_attr("width", "5");
    other.set_attr("height", "x");
    doc.root.children.push(Node::Element(other));
    assert_eq!(
        plugin.dimension_pairs(&doc),
        vec![("1".to_string(), "2".to_string()), ("5".to_string(), "x".to_string())]
    );
}
