use vexy_svgo_plugin_sdk::ast::{Document, Element, Node};
use vexy_svgo_plugin_sdk::plugins::cleanup_enable_background::{
    CleanupEnableBackgroundPlugin, CleanupEnableBackgroundVisitor, EnableBackground,
};

#[test]
fn cleanup_enable_background_test_plugin_creation() {
    let plugin = CleanupEnableBackgroundPlugin::new();
    assert_eq!(plugin.name(), "cleanupEnableBackground");
}

#[test]
fn test_parse_enable_background() {
    let visitor = CleanupEnableBackgroundVisitor::new();
    assert_eq!(visitor.parse_enable_background("new"), Some(EnableBackground::New));
    assert_eq!(
        visitor.parse_enable_background("accumulate"),
        Some(EnableBackground::Accumulate)
    );
    assert_eq!(
        visitor.parse_enable_background("new 0 0 100 100"),
        Some(EnableBackground::NewWithCoords)
    );
    assert_eq!(visitor.parse_enable_background("invalid"), None);
}

#[test]
fn parse_enable_background_number_forms() {
    let visitor = CleanupEnableBackgroundVisitor::new();
    assert_eq!(
        visitor.parse_enable_background("  new -1.5 .5 1e3 INF "),
        Some(EnableBackground::NewWithCoords)
    );
    assert_eq!(
        visitor.parse_enable_background("new 1. +2E-3 NaN infinity"),
        Some(EnableBackground::NewWithCoords)
    );
    assert_eq!(visitor.parse_enable_background("new 1 2 3"), None);
    assert_eq!(visitor.parse_enable_background("new 1 2 3 4px"), None);
    assert_eq!(visitor.parse_enable_background("new 1 2 3 ."), None);
    assert_eq!(visitor.parse_enable_background("new 1 2 3 1e"), None);
}

#[test]
fn test_remove_default_new() {
    let plugin = CleanupEnableBackgroundPlugin::new();
    let mut doc = Document::new();
    doc.root.set_attr("enable-background", "new");
    assert!(plugin.apply(&mut doc).is_ok());
    assert!(!doc.root.has_attr("enable-background"));
}

#[test]
fn test_keep_with_coords() {
    let plugin = CleanupEnableBackgroundPlugin::new();
    let mut doc = Document::new();
    doc.root.name = "svg".to_string();
    doc.root.set_attr("enable-background", "new 0 0 100 100");
    assert!(plugin.apply(&mut doc).is_ok());
    assert!(doc.root.has_attr("enable-background"));
}

#[test]
fn test_remove_from_non_viewport_element() {
    let plugin = CleanupEnableBackgroundPlugin::new();
    let mut doc = Document::new();
    let mut g = Element::new("g");
    g.set_attr("enable-background", "new 0 0 100 100");
    doc.root.children.push(Node::Element(g));
    assert!(plugin.apply(&mut doc).is_ok());
    if let Node::Element(ref g) = doc.root.children[0] {
        assert!(!g.has_attr("enable-background"));
    }
}

#[test]
fn test_background_image_filter_detection() {
    let mut visitor = CleanupEnableBackgroundVisitor::new();
    let mut element = Element::new("feBlend");
    element.set_attr("in", "BackgroundImage");
    visitor.check_for_background_image_filter(&element);
    assert!(visitor.has_background_image_filter);

    let mut visitor2 = CleanupEnableBackgroundVisitor::new();
    let mut element2 = Element::new("feImage");
    element2.set_attr("in2", "BackgroundAlpha");
    visitor2.check_for_background_image_filter(&element2);
    assert!(visitor2.has_background_image_filter);
}

#[test]
fn background_filter_seen_anywhere_before_keeps_later_values() {
    let plugin = CleanupEnableBackgroundPlugin::new();
    let mut doc = Document::new();
    let mut g = Element::new("g");
    g.set_attr("enable-background", "new");
    let mut blend = Element::new("feBlend");
    blend.set_attr("in", "BackgroundAlpha");
    g.children.push(Node::Element(blend));
    doc.root.children.push(Node::Element(g));
    let mut g2 = Element::new("g");
    g2.set_attr("enable-background", "new");
    doc.root.children.push(Node::Element(g2));
    plugin.apply(&mut doc).unwrap();
    for i in 0..2 {
        if let Node::Element(ref g) = doc.root.children[i] {
            assert!(g.has_attr("enable-background"));
        }
    }
}

#[test]
fn filter_keeps_value_on_non_viewport() {
    let plugin = CleanupEnableBackgroundPlugin::new();
    let mut doc = Document::new();
    let mut g = Element::new("g");
    g.set_attr("enable-background", "new 0 0 1 1");
    g.set_attr("style", "filter: url(#f)");
    doc.root.children.push(Node::Element(g));
    plugin.apply(&mut doc).unwrap();
    if let Node::Element(ref g) = doc.root.children[0] {
        assert!(g.has_attr("enable-background"));
    }
}

#[test]
fn test_keep_with_filter() {
    let plugin = CleanupEnableBackgroundPlugin::new();
    let mut doc = Document::new();
    doc.root.set_attr("enable-background", "new");
    doc.root.set_attr("filter", "url(#myFilter)");
    let result = plugin.apply(&mut doc);
    assert!(result.is_ok());
    assert!(doc.root.has_attr("enable-background"));
}

#[test]
fn filter_is_looked_at_before_the_new_value() {
    let v = CleanupEnableBackgroundVisitor::new();
    let mut e = Element::new("g");
    e.set_attr("filter", "url(#f)");
    assert!(!v.should_remove_enable_background("new", &e));
    let plain = Element::new("svg");
    assert!(v.should_remove_enable_background("new", &plain));
    assert!(!v.should_remove_enable_background("new 0 0 1 1", &plain));
}
