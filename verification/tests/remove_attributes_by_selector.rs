use vexy_svgo_plugin_sdk::ast::{Document, Element, Node};
use vexy_svgo_plugin_sdk::plugins::remove_attributes_by_selector::{
    RemoveAttributesBySelectorConfig, RemoveAttributesBySelectorPlugin, SelectorConfig,
};

fn create_test_document() -> Document {
    let mut doc = Document::new();
    let mut rect = Element::new("rect");
    rect.set_attr("x", "0");
    rect.set_attr("y", "0");
    rect.set_attr("width", "100");
    rect.set_attr("height", "100");
    rect.set_attr("fill", "#00ff00");
    rect.set_attr("stroke", "#00ff00");
    doc.root.children.push(Node::Element(rect));
    doc
}

fn single(selector: &str, attributes: &[&str]) -> RemoveAttributesBySelectorConfig {
    RemoveAttributesBySelectorConfig::Single {
        selector: selector.to_string(),
        attributes: attributes.iter().map(|s| s.to_string()).collect(),
    }
}

#[test]
fn remove_attributes_by_selector_test_plugin_info() {
    let plugin = RemoveAttributesBySelectorPlugin::new();
    assert_eq!(plugin.name(), "removeAttributesBySelector");
    assert_eq!(plugin.description(), "removes attributes of elements that match a css selector");
}

#[test]
fn test_single_attribute_removal() {
    let mut doc = create_test_document();
    let plugin = RemoveAttributesBySelectorPlugin::with_config(single("[fill='#00ff00']", &["fill"]));
    plugin.apply(&mut doc).unwrap();
    if let Some(Node::Element(ref rect)) = doc.root.children.first() {
        assert_eq!(rect.attr("fill"), None);
        assert_eq!(rect.attr("stroke").as_deref(), Some("#00ff00"));
    } else {
        panic!("rect missing");
    }
}

#[test]
fn test_multiple_attributes_removal() {
    let mut doc = create_test_document();
    let plugin =
        RemoveAttributesBySelectorPlugin::with_config(single("[fill='#00ff00']", &["fill", "stroke"]));
    plugin.apply(&mut doc).unwrap();
    if let Some(Node::Element(ref rect)) = doc.root.children.first() {
        assert_eq!(rect.attr("fill"), None);
        assert_eq!(rect.attr("stroke"), None);
        assert_eq!(rect.attr("width").as_deref(), Some("100"));
    } else {
        panic!("rect missing");
    }
}

#[test]
fn test_multiple_selectors() {
    let mut doc = create_test_document();
    let mut circle = Element::new("circle");
    circle.set_attr("id", "remove");
    circle.set_attr("cx", "50");
    circle.set_attr("cy", "50");
    circle.set_attr("r", "25");
    circle.set_attr("stroke", "black");
    doc.root.children.push(Node::Element(circle));

    let config = RemoveAttributesBySelectorConfig::Multiple {
        selectors: vec![
            SelectorConfig { selector: "[fill='#00ff00']".to_string(), attributes: vec!["fill".to_string()] },
            SelectorConfig {
                selector: "#remove".to_string(),
                attributes: vec!["stroke".to_string(), "id".to_string()],
            },
        ],
    };
    let plugin = RemoveAttributesBySelectorPlugin::with_config(config);
    plugin.apply(&mut doc).unwrap();

    if let Some(Node::Element(ref rect)) = doc.root.children.first() {
        assert_eq!(rect.attr("fill"), None);
        assert_eq!(rect.attr("stroke").as_deref(), Some("#00ff00"));
    }
    if let Some(Node::Element(ref circle)) = doc.root.children.get(1) {
        assert_eq!(circle.attr("id"), None);
        assert_eq!(circle.attr("stroke"), None);
        assert_eq!(circle.attr("cx").as_deref(), Some("50"));
    } else {
        panic!("circle missing");
    }
}

#[test]
fn test_element_name_selector() {
    let mut doc = create_test_document();
    let plugin = RemoveAttributesBySelectorPlugin::with_config(single("rect", &["fill"]));
    plugin.apply(&mut doc).unwrap();
    if let Some(Node::Element(ref rect)) = doc.root.children.first() {
        assert_eq!(rect.attr("fill"), None);
    }
}

#[test]
fn test_class_selector() {
    let mut doc = create_test_document();
    if let Some(Node::Element(ref mut rect)) = doc.root.children.get_mut(0) {
        rect.set_attr("class", "remove-me another-class");
    }
    let plugin = RemoveAttributesBySelectorPlugin::with_config(single(".remove-me", &["fill"]));
    plugin.apply(&mut doc).unwrap();
    if let Some(Node::Element(ref rect)) = doc.root.children.first() {
        assert_eq!(rect.attr("fill"), None);
        assert_eq!(rect.attr("class").as_deref(), Some("remove-me another-class"));
    }
}

#[test]
fn test_invalid_selector() {
    let mut doc = create_test_document();
    let plugin = RemoveAttributesBySelectorPlugin::with_config(single("[invalid selector", &["fill"]));
    let result = plugin.apply(&mut doc);
    assert!(result.is_err());
}

#[test]
fn remove_attributes_by_selector_stops_at_matching_element() {
    // a matching group keeps its matching children untouched
    let mut doc = Document::new();
    let mut g = Element::new("g");
    g.set_attr("fill", "red");
    let mut inner = Element::new("g");
    inner.set_attr("fill", "blue");
    g.children.push(Node::Element(inner));
    doc.root.children.push(Node::Element(g));
    RemoveAttributesBySelectorPlugin::with_config(single("g", &["fill"])).apply(&mut doc).unwrap();
    if let Some(Node::Element(g)) = doc.root.children.first() {
        assert_eq!(g.attr("fill"), None);
        if let Some(Node::Element(inner)) = g.children.first() {
            assert_eq!(inner.attr("fill").as_deref(), Some("blue"));
        }
    }
    // an attribute presence selector, and unquoted values
    let mut doc = create_test_document();
    RemoveAttributesBySelectorPlugin::with_config(single("[ width ]", &["x"])).apply(&mut doc).unwrap();
    RemoveAttributesBySelectorPlugin::with_config(single("[height=100]", &["y"])).apply(&mut doc).unwrap();
    if let Some(Node::Element(rect)) = doc.root.children.first() {
        assert_eq!(rect.attr("x"), None);
        assert_eq!(rect.attr("y"), None);
    }
}

#[test]
fn lone_quote_value_is_read_as_it_stands() {
    let plugin = RemoveAttributesBySelectorPlugin::with_config(single("[fill=']", &["fill"]));
    let mut doc = Document::new();
    let mut a = Element::new("rect");
    a.set_attr("fill", "'");
    let mut b = Element::new("rect");
    b.set_attr("fill", "red");
    doc.root.children.push(Node::Element(a));
    doc.root.children.push(Node::Element(b));
    assert!(plugin.apply(&mut doc).is_ok());
    if let Node::Element(a) = &doc.root.children[0] {
        assert_eq!(a.attr("fill"), None);
    }
    if let Node::Element(b) = &doc.root.children[1] {
        assert_eq!(b.attr("fill"), Some("red".to_string()));
    }
    // a selector after a malformed one is never read
    let multi = RemoveAttributesBySelectorConfig::Multiple {
        selectors: vec![
            SelectorConfig { selector: "a[b".to_string(), attributes: vec!["x".to_string()] },
            SelectorConfig { selector: "[fill=\"]".to_string(), attributes: vec!["x".to_string()] },
        ],
    };
    let plugin = RemoveAttributesBySelectorPlugin::with_config(multi);
    let mut doc = create_test_document();
    assert!(plugin.apply(&mut doc).is_err());
}
