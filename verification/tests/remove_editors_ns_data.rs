use vexy_svgo_plugin_sdk::ast::{Document, Element, Node};
use vexy_svgo_plugin_sdk::plugins::remove_editors_ns_data::{
    RemoveEditorsNSDataConfig, RemoveEditorsNSDataPlugin,
};

fn create_element(name: &str) -> Element {
    Element::new(name)
}

#[test]
fn remove_editors_ns_data_test_plugin_creation() {
    let plugin = RemoveEditorsNSDataPlugin::new();
    assert_eq!(plugin.name(), "removeEditorsNSData");
}

#[test]
fn test_remove_inkscape_namespace() {
    let plugin = RemoveEditorsNSDataPlugin::new();
    let mut doc = Document::new();

    doc.root.attributes.insert(
        "xmlns:inkscape".to_string(),
        "http://www.inkscape.org/namespaces/inkscape".to_string(),
    );

    let mut rect = create_element("rect");
    rect.attributes.insert("inkscape:label".to_string(), "Layer 1".to_string());
    rect.attributes.insert("width".to_string(), "100".to_string());

    doc.root.children.push(Node::Element(rect));

    plugin.apply(&mut doc).unwrap();

    assert!(!doc.root.attributes.contains_key("xmlns:inkscape"));

    if let Some(Node::Element(rect)) = doc.root.children.get(0) {
        assert!(!rect.attributes.contains_key("inkscape:label"));
        assert_eq!(rect.attributes.get("width"), Some(&"100".to_string()));
    } else {
        panic!("rect missing");
    }
}

#[test]
fn test_remove_illustrator_namespace() {
    let plugin = RemoveEditorsNSDataPlugin::new();
    let mut doc = Document::new();

    doc.root.attributes.insert(
        "xmlns:i".to_string(),
        "http://ns.adobe.com/AdobeIllustrator/10.0/".to_string(),
    );

    let mut ai_element = create_element("i:pgf");
    ai_element.attributes.insert("id".to_string(), "adobe_illustrator".to_string());

    doc.root.children.push(Node::Element(ai_element));

    plugin.apply(&mut doc).unwrap();

    assert!(!doc.root.attributes.contains_key("xmlns:i"));
    assert!(doc.root.children.is_empty());
}

#[test]
fn test_remove_multiple_namespaces() {
    let plugin = RemoveEditorsNSDataPlugin::new();
    let mut doc = Document::new();

    doc.root.attributes.insert(
        "xmlns:inkscape".to_string(),
        "http://www.inkscape.org/namespaces/inkscape".to_string(),
    );
    doc.root.attributes.insert(
        "xmlns:sodipodi".to_string(),
        "http://sodipodi.sourceforge.net/DTD/sodipodi-0.dtd".to_string(),
    );
    doc.root.attributes.insert(
        "xmlns:sketch".to_string(),
        "http://www.bohemiancoding.com/sketch/ns".to_string(),
    );

    plugin.apply(&mut doc).unwrap();

    assert!(!doc.root.attributes.contains_key("xmlns:inkscape"));
    assert!(!doc.root.attributes.contains_key("xmlns:sodipodi"));
    assert!(!doc.root.attributes.contains_key("xmlns:sketch"));
}

#[test]
fn test_additional_namespaces() {
    let config = RemoveEditorsNSDataConfig {
        additional_namespaces: vec!["http://custom.editor/ns".to_string()],
    };
    let plugin = RemoveEditorsNSDataPlugin::with_config(config);
    let mut doc = Document::new();

    doc.root.attributes.insert("xmlns:custom".to_string(), "http://custom.editor/ns".to_string());

    let mut elem = create_element("custom:data");
    elem.attributes.insert("value".to_string(), "test".to_string());

    doc.root.children.push(Node::Element(elem));

    plugin.apply(&mut doc).unwrap();

    assert!(!doc.root.attributes.contains_key("xmlns:custom"));
    assert!(doc.root.children.is_empty());
}

#[test]
fn test_preserve_standard_namespaces() {
    let plugin = RemoveEditorsNSDataPlugin::new();
    let mut doc = Document::new();

    doc.root.attributes.insert("xmlns".to_string(), "http://www.w3.org/2000/svg".to_string());
    doc.root.attributes.insert("xmlns:xlink".to_string(), "http://www.w3.org/1999/xlink".to_string());
    doc.root.attributes.insert(
        "xmlns:inkscape".to_string(),
        "http://www.inkscape.org/namespaces/inkscape".to_string(),
    );

    plugin.apply(&mut doc).unwrap();

    assert_eq!(doc.root.attributes.get("xmlns"), Some(&"http://www.w3.org/2000/svg".to_string()));
    assert_eq!(
        doc.root.attributes.get("xmlns:xlink"),
        Some(&"http://www.w3.org/1999/xlink".to_string())
    );
    assert!(!doc.root.attributes.contains_key("xmlns:inkscape"));
}

#[test]
fn remove_editors_ns_data_test_nested_elements() {
    let plugin = RemoveEditorsNSDataPlugin::new();
    let mut doc = Document::new();

    doc.root.attributes.insert(
        "xmlns:inkscape".to_string(),
        "http://www.inkscape.org/namespaces/inkscape".to_string(),
    );

    let mut g = create_element("g");
    g.children.push(Node::Element(create_element("rect")));
    g.children.push(Node::Element(create_element("inkscape:perspective")));
    g.children.push(Node::Element(create_element("circle")));
    doc.root.children.push(Node::Element(g));

    plugin.apply(&mut doc).unwrap();

    if let Some(Node::Element(g)) = doc.root.children.get(0) {
        assert_eq!(g.children.len(), 2);
        if let Some(Node::Element(elem1)) = g.children.get(0) {
            assert_eq!(elem1.name, "rect");
        }
        if let Some(Node::Element(elem2)) = g.children.get(1) {
            assert_eq!(elem2.name, "circle");
        }
    } else {
        panic!("group missing");
    }
}

#[test]
fn remove_editors_ns_data_default_namespace_and_nested_svg() {
    let plugin = RemoveEditorsNSDataPlugin::new();
    let mut doc = Document::new();
    doc.root.attributes.insert("xmlns".to_string(), "http://www.figma.com/figma/ns".to_string());

    // a nested svg declares a prefix; it applies to what comes after it
    let mut inner = create_element("svg");
    inner.attributes.insert("xmlns:sk".to_string(), "http://www.bohemiancoding.com/sketch/ns".to_string());
    inner.attributes.insert("sk:type".to_string(), "x".to_string());
    doc.root.children.push(Node::Element(inner));
    let mut after = create_element("rect");
    after.attributes.insert("sk:id".to_string(), "1".to_string());
    after.attributes.insert("fill".to_string(), "red".to_string());
    doc.root.children.push(Node::Element(after));
    doc.root.children.push(Node::Element(create_element("sk:page")));
    doc.root.children.push(Node::Text("keep".to_string()));

    plugin.apply(&mut doc).unwrap();

    assert!(!doc.root.attributes.contains_key("xmlns"));
    assert_eq!(doc.root.children.len(), 3);
    if let Some(Node::Element(inner)) = doc.root.children.get(0) {
        assert_eq!(inner.attributes.len(), 0);
    }
    if let Some(Node::Element(rect)) = doc.root.children.get(1) {
        assert_eq!(rect.attributes.len(), 1);
        assert_eq!(rect.attributes.get("fill"), Some(&"red".to_string()));
    }
}
