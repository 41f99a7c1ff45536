use vexy_svgo_plugin_sdk::ast::{Document, Element};
use vexy_svgo_plugin_sdk::plugins::add_attributes_to_svg_element::{
    AddAttributesToSVGElementConfig, AddAttributesToSVGElementPlugin, AttributeValue,
};

fn pairs(p: &[(&str, &str)]) -> Vec<(String, String)> {
    p.iter().map(|(k, v)| (k.to_string(), v.to_string())).collect()
}

#[test]
fn add_attributes_to_svg_element_test_plugin_creation() {
    let plugin = AddAttributesToSVGElementPlugin::new();
    assert_eq!(plugin.name(), "addAttributesToSVGElement");
    assert_eq!(plugin.description(), "adds attributes to an outer <svg> element");
}

#[test]
fn test_add_single_string_attribute() {
    let plugin = AddAttributesToSVGElementPlugin::with_config(AddAttributesToSVGElementConfig {
        attribute: Some(AttributeValue::String("myAttribute".to_string())),
        attributes: None,
    });
    let mut doc = Document::new();
    doc.root = Element::new("svg");
    plugin.apply(&mut doc).unwrap();
    assert_eq!(doc.root.attributes.get("myAttribute"), Some(&String::new()));
}

#[test]
fn test_add_single_object_attribute() {
    let plugin = AddAttributesToSVGElementPlugin::with_config(AddAttributesToSVGElementConfig {
        attribute: Some(AttributeValue::Object(pairs(&[("data-name", "myValue"), ("data-id", "123")]))),
        attributes: None,
    });
    let mut doc = Document::new();
    doc.root = Element::new("svg");
    plugin.apply(&mut doc).unwrap();
    assert_eq!(doc.root.attributes.get("data-name"), Some(&"myValue".to_string()));
    assert_eq!(doc.root.attributes.get("data-id"), Some(&"123".to_string()));
}

#[test]
fn test_add_multiple_attributes() {
    let plugin = AddAttributesToSVGElementPlugin::with_config(AddAttributesToSVGElementConfig {
        attribute: None,
        attributes: Some(vec![
            AttributeValue::String("class".to_string()),
            AttributeValue::Object(pairs(&[("data-test", "value")])),
            AttributeValue::String("id".to_string()),
        ]),
    });
    let mut doc = Document::new();
    doc.root = Element::new("svg");
    plugin.apply(&mut doc).unwrap();
    assert_eq!(doc.root.attributes.get("class"), Some(&String::new()));
    assert_eq!(doc.root.attributes.get("id"), Some(&String::new()));
    assert_eq!(doc.root.attributes.get("data-test"), Some(&"value".to_string()));
}

#[test]
fn test_does_not_override_existing_attributes() {
    let plugin = AddAttributesToSVGElementPlugin::with_config(AddAttributesToSVGElementConfig {
        attribute: Some(AttributeValue::String("class".to_string())),
        attributes: None,
    });
    let mut doc = Document::new();
    doc.root = Element::new("svg");
    doc.root.attributes.insert("class".to_string(), "existing-class".to_string());
    plugin.apply(&mut doc).unwrap();
    assert_eq!(doc.root.attributes.get("class"), Some(&"existing-class".to_string()));
}

#[test]
fn test_only_applies_to_svg_element() {
    let plugin = AddAttributesToSVGElementPlugin::with_config(AddAttributesToSVGElementConfig {
        attribute: Some(AttributeValue::String("myAttr".to_string())),
        attributes: None,
    });
    let mut doc = Document::new();
    doc.root = Element::new("div");
    plugin.apply(&mut doc).unwrap();
    assert_eq!(doc.root.attributes.len(), 0);
}

#[test]
fn test_both_attribute_and_attributes() {
    let plugin = AddAttributesToSVGElementPlugin::with_config(AddAttributesToSVGElementConfig {
        attribute: Some(AttributeValue::String("single".to_string())),
        attributes: Some(vec![
            AttributeValue::String("multiple".to_string()),
            AttributeValue::Object(pairs(&[("data-value", "test")])),
        ]),
    });
    let mut doc = Document::new();
    doc.root = Element::new("svg");
    plugin.apply(&mut doc).unwrap();
    assert_eq!(doc.root.attributes.get("single"), Some(&String::new()));
    assert_eq!(doc.root.attributes.get("multiple"), Some(&String::new()));
    assert_eq!(doc.root.attributes.get("data-value"), Some(&"test".to_string()));
}
