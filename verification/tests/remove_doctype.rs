use vexy_svgo_plugin_sdk::ast::{Document, Element, Node};
use vexy_svgo_plugin_sdk::plugins::remove_doctype::RemoveDoctypePlugin;

#[test]
fn remove_doctype_test_plugin_creation() {
    let plugin = RemoveDoctypePlugin::new();
    assert_eq!(plugin.name(), "removeDoctype");
    assert_eq!(plugin.description(), "removes doctype declaration");
}

#[test]
fn test_remove_doctype() {
    let plugin = RemoveDoctypePlugin::new();
    let mut doc = Document::new();
    doc.root.children.push(Node::DocType("svg PUBLIC \"-//W3C//DTD SVG 1.1//EN\" \"http://www.w3.org/Graphics/SVG/1.1/DTD/svg11.dtd\"".to_string()));
    doc.root.children.push(Node::Element(Element::new("svg")));
    plugin.apply(&mut doc).unwrap();
    assert_eq!(doc.root.children.len(), 1);
    assert!(matches!(doc.root.children[0], Node::Element(_)));
}

#[test]
fn test_multiple_doctypes() {
    let plugin = RemoveDoctypePlugin::new();
    let mut doc = Document::new();
    doc.root.children.push(Node::DocType("svg PUBLIC \"-//W3C//DTD SVG 1.1//EN\" \"http://www.w3.org/Graphics/SVG/1.1/DTD/svg11.dtd\"".to_string()));
    doc.root.children.push(Node::DocType("html PUBLIC \"-//W3C//DTD XHTML 1.0 Transitional//EN\" \"http://www.w3.org/TR/xhtml1/DTD/xhtml1-transitional.dtd\"".to_string()));
    doc.root.children.push(Node::Element(Element::new("svg")));
    plugin.apply(&mut doc).unwrap();
    assert_eq!(doc.root.children.len(), 1);
    assert!(matches!(doc.root.children[0], Node::Element(_)));
}

#[test]
fn test_no_doctype() {
    let plugin = RemoveDoctypePlugin::new();
    let mut doc = Document::new();
    doc.root.children.push(Node::Element(Element::new("svg")));
    plugin.apply(&mut doc).unwrap();
    assert_eq!(doc.root.children.len(), 1);
    assert!(matches!(doc.root.children[0], Node::Element(_)));
}

#[test]
fn test_doctype_with_text() {
    let plugin = RemoveDoctypePlugin::new();
    let mut doc = Document::new();
    doc.root.children.push(Node::DocType("svg PUBLIC \"-//W3C//DTD SVG 1.1//EN\"".to_string()));
    doc.root.children.push(Node::Text("Some text".to_string()));
    doc.root.children.push(Node::Element(Element::new("svg")));
    plugin.apply(&mut doc).unwrap();
    assert_eq!(doc.root.children.len(), 2);
    assert!(matches!(doc.root.children[0], Node::Text(_)));
    assert!(matches!(doc.root.children[1], Node::Element(_)));
}

#[test]
fn prologue_doctype_goes_too() {
    let plugin = RemoveDoctypePlugin::new();
    let mut doc = Document::new();
    doc.prologue.push(Node::Comment("c".to_string()));
    doc.prologue.push(Node::DocType("svg".to_string()));
    plugin.apply(&mut doc).unwrap();
    assert_eq!(doc.prologue.len(), 1);
    assert!(matches!(doc.prologue[0], Node::Comment(_)));
}
