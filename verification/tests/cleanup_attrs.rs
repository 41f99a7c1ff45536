use vexy_svgo_plugin_sdk::ast::Document;
use vexy_svgo_plugin_sdk::plugins::cleanup_attrs::{
    CleanupAttrsParams, CleanupAttrsPlugin, CleanupAttrsVisitor,
};

#[test]
fn cleanup_attrs_test_plugin_creation() {
    let plugin = CleanupAttrsPlugin::new();
    assert_eq!(plugin.name(), "cleanupAttrs");
    assert!(plugin.params.newlines);
    assert!(plugin.params.trim);
    assert!(plugin.params.spaces);
}

#[test]
fn test_attribute_value_cleaning() {
    let params = CleanupAttrsParams::default();
    let visitor = CleanupAttrsVisitor::new(params);
    assert_eq!(visitor.clean_attribute_value("value\nwith\nnewlines"), "value with newlines");
    assert_eq!(visitor.clean_attribute_value("  value  "), "value");
    assert_eq!(visitor.clean_attribute_value("value    with    spaces"), "value with spaces");
    assert_eq!(
        visitor.clean_attribute_value("  value\n  with  \n  all   issues  "),
        "value with all issues"
    );
    assert_eq!(visitor.clean_attribute_value(""), "");
    assert_eq!(visitor.clean_attribute_value("   "), "");
}

#[test]
fn test_selective_params() {
    let params = CleanupAttrsParams { newlines: true, trim: false, spaces: false };
    let visitor = CleanupAttrsVisitor::new(params);
    assert_eq!(visitor.clean_attribute_value("  value\nwith\nnewlines  "), "value with newlines");

    let params = CleanupAttrsParams { newlines: false, trim: true, spaces: false };
    let visitor = CleanupAttrsVisitor::new(params);
    assert_eq!(visitor.clean_attribute_value("  value  "), "value");

    let params = CleanupAttrsParams { newlines: false, trim: false, spaces: true };
    let visitor = CleanupAttrsVisitor::new(params);
    assert_eq!(visitor.clean_attribute_value("value    with    spaces"), "value with spaces");
}

#[test]
fn cleanup_attrs_test_plugin_apply() {
    let plugin = CleanupAttrsPlugin::new();
    let mut doc = Document::new();
    doc.root.attributes.insert("class".to_string(), "  my-class  ".to_string());
    doc.root.attributes.insert("title".to_string(), "Title\nwith\nnewlines".to_string());
    doc.root
        .attributes
        .insert("style".to_string(), "color:    red;    font-size:    14px".to_string());
    let result = plugin.apply(&mut doc);
    assert!(result.is_ok());
    assert_eq!(doc.root.attributes.get("class").unwrap(), "my-class");
    assert_eq!(doc.root.attributes.get("title").unwrap(), "Title with newlines");
    assert_eq!(doc.root.attributes.get("style").unwrap(), "color: red; font-size: 14px");
}

#[test]
fn test_skip_certain_attributes() {
    let visitor = CleanupAttrsVisitor::new(CleanupAttrsParams::default());
    assert!(!visitor.should_cleanup_attribute("xml:space"));
    assert!(!visitor.should_cleanup_attribute("preserveAspectRatio"));
    assert!(!visitor.should_cleanup_attribute("viewBox"));
    assert!(!visitor.should_cleanup_attribute("points"));
    assert!(!visitor.should_cleanup_attribute("d"));
    assert!(visitor.should_cleanup_attribute("class"));
    assert!(visitor.should_cleanup_attribute("style"));
    assert!(visitor.should_cleanup_attribute("title"));
}

#[test]
fn cleanup_attrs_keeps_viewbox_and_cleans_nested() {
    let plugin = CleanupAttrsPlugin::new();
    let mut doc = Document::new();
    doc.root.attributes.insert("viewBox".to_string(), " 0  0 10 10 ".to_string());
    let mut child = vexy_svgo_plugin_sdk::ast::Element::new("g");
    child.attributes.insert("class".to_string(), "a\r\nb".to_string());
    doc.root.children.push(vexy_svgo_plugin_sdk::ast::Node::Element(child));
    plugin.apply(&mut doc).unwrap();
    assert_eq!(doc.root.attributes.get("viewBox").unwrap(), " 0  0 10 10 ");
    match &doc.root.children[0] {
        vexy_svgo_plugin_sdk::ast::Node::Element(c) => {
            assert_eq!(c.attributes.get("class").unwrap(), "a b")
        }
        _ => panic!("expected an element"),
    }
}

#[test]
fn cleaned_values_are_single_spaced_and_trimmed() {
    let visitor = CleanupAttrsVisitor::new(CleanupAttrsParams::default());
    let out = visitor.clean_attribute_value("\r\n  a \t\n b   c\u{3000} ");
    assert_eq!(out, "a b c");
    assert!(!out.contains('\n') && !out.contains('\r') && !out.contains("  "));
}
