use vexy_svgo_plugin_sdk::ast::{Document, Element, Node};
use vexy_svgo_plugin_sdk::plugins::remove_desc::{RemoveDescConfig, RemoveDescPlugin};

fn document_with_desc(desc_text: Option<&str>) -> Document {
    let mut doc = Document::new();
    doc.root.set_attr("xmlns", "http://www.w3.org/2000/svg");
    let mut desc = Element::new("desc");
    if let Some(t) = desc_text {
        desc.children.push(Node::Text(t.to_string()));
    }
    let mut rect = Element::new("rect");
    rect.set_attr("width", "100");
    rect.set_attr("height", "100");
    doc.root.children.push(Node::Element(desc));
    doc.root.children.push(Node::Element(rect));
    doc
}

fn has_desc_element(element: &Element) -> bool {
    for child in &element.children {
        if let Node::Element(child_element) = child {
            if child_element.name == "desc" {
                return true;
            }
            if has_desc_element(child_element) {
                return true;
            }
        }
    }
    false
}

#[test]
fn remove_desc_test_plugin_info() {
    let plugin = RemoveDescPlugin::new();
    assert_eq!(plugin.name(), "removeDesc");
    assert_eq!(plugin.description(), "removes <desc> element");
}

#[test]
fn test_remove_empty_desc() {
    let mut document = document_with_desc(None);
    RemoveDescPlugin::new().apply(&mut document).unwrap();
    assert!(!has_desc_element(&document.root));
}

#[test]
fn test_remove_standard_desc() {
    let mut document = document_with_desc(Some("Created with Sketch."));
    RemoveDescPlugin::new().apply(&mut document).unwrap();
    assert!(!has_desc_element(&document.root));
}

#[test]
fn test_preserve_custom_desc() {
    let mut document = document_with_desc(Some("This is a custom description for accessibility"));
    RemoveDescPlugin::new().apply(&mut document).unwrap();
    assert!(has_desc_element(&document.root));
}

#[test]
fn test_remove_any() {
    let mut document = document_with_desc(Some("This is a custom description for accessibility"));
    let plugin = RemoveDescPlugin::with_config(RemoveDescConfig { remove_any: true });
    plugin.apply(&mut document).unwrap();
    assert!(!has_desc_element(&document.root));
}
