use vexy_svgo_plugin_sdk::ast::{Document, Element, Node};
use vexy_svgo_plugin_sdk::plugins::convert_one_stop_gradients::ConvertOneStopGradientsPlugin;

fn create_test_document() -> Document {
    Document::new()
}

fn elem(name: &str, attrs: &[(&str, &str)]) -> Element {
    let mut e = Element::new(name);
    for (k, v) in attrs {
        e.attributes.insert(k.to_string(), v.to_string());
    }
    e
}

fn one_stop_gradient(id: &str, stop_attrs: &[(&str, &str)]) -> Element {
    let mut g = elem("linearGradient", &[("id", id)]);
    g.children.push(Node::Element(elem("stop", stop_attrs)));
    g
}

#[test]
fn convert_one_stop_gradients_test_plugin_info() {
    let plugin = ConvertOneStopGradientsPlugin::new();
    assert_eq!(plugin.name(), "convertOneStopGradients");
    assert_eq!(plugin.description(), "converts one-stop (single color) gradients to a plain color");
}

#[test]
fn test_extract_gradient_id() {
    let plugin = ConvertOneStopGradientsPlugin::new();

    assert_eq!(plugin.extract_gradient_id("url(#myGradient)"), Some("myGradient".to_string()));
    assert_eq!(plugin.extract_gradient_id("url(#grad1)"), Some("grad1".to_string()));

    assert_eq!(plugin.extract_gradient_id("red"), None);
    assert_eq!(plugin.extract_gradient_id("url(myGradient)"), None);
    assert_eq!(plugin.extract_gradient_id("#myGradient"), None);
}

#[test]
fn test_apply_with_empty_document() {
    let plugin = ConvertOneStopGradientsPlugin::new();
    let mut doc = create_test_document();
    let result = plugin.apply(&mut doc);
    assert!(result.is_ok());
}

#[test]
fn test_apply_with_no_gradients() {
    let plugin = ConvertOneStopGradientsPlugin::new();
    let mut doc = create_test_document();

    doc.root
        .children
        .push(Node::Element(elem("rect", &[("fill", "red"), ("width", "100"), ("height", "100")])));

    let result = plugin.apply(&mut doc);
    assert!(result.is_ok());

    assert_eq!(doc.root.children.len(), 1);
    if let Node::Element(rect) = &doc.root.children[0] {
        assert_eq!(rect.name, "rect");
        assert_eq!(rect.attributes.get("fill").map(|s| s.as_str()), Some("red"));
    }
}

#[test]
fn test_one_stop_gradient_conversion() {
    let plugin = ConvertOneStopGradientsPlugin::new();
    let mut doc = create_test_document();

    let mut defs_elem = elem("defs", &[]);
    defs_elem.children.push(Node::Element(one_stop_gradient("grad1", &[("stop-color", "#ff0000")])));
    doc.root.children.push(Node::Element(defs_elem));

    doc.root.children.push(Node::Element(elem(
        "rect",
        &[("fill", "url(#grad1)"), ("width", "100"), ("height", "100")],
    )));

    let result = plugin.apply(&mut doc);
    assert!(result.is_ok());

    let has_gradient = doc.root.children.iter().any(|child| {
        if let Node::Element(elem) = child {
            elem.children.iter().any(|child| {
                if let Node::Element(e) = child {
                    e.name == "linearGradient" || e.name == "radialGradient"
                } else {
                    false
                }
            })
        } else {
            false
        }
    });
    assert!(!has_gradient);

    let rect = doc.root.children.iter().find_map(|child| {
        if let Node::Element(elem) = child {
            if elem.name == "rect" {
                Some(elem)
            } else {
                None
            }
        } else {
            None
        }
    });

    assert!(rect.is_some());
    let rect = rect.unwrap();
    assert_eq!(rect.attributes.get("fill").map(|s| s.as_str()), Some("#ff0000"));
}

#[test]
fn convert_one_stop_gradients_style_colour_and_references() {
    let plugin = ConvertOneStopGradientsPlugin::new();
    let mut doc = create_test_document();
    doc.root.attributes.insert("xmlns:xlink".to_string(), "http://www.w3.org/1999/xlink".to_string());
    doc.root.namespaces.insert("xlink".to_string(), "http://www.w3.org/1999/xlink".to_string());

    let mut defs = elem("defs", &[]);
    defs.children.push(Node::Element(one_stop_gradient(
        "g",
        &[("style", "opacity:1; stop-color:  blue ; x:y")],
    )));
    doc.root.children.push(Node::Element(defs));
    doc.root.children.push(Node::Element(elem(
        "path",
        &[("stroke", "url(#g)"), ("style", "fill:url(#g);stroke-width:2")],
    )));

    plugin.apply(&mut doc).unwrap();

    // the defs became empty and went away
    assert_eq!(doc.root.children.len(), 1);
    if let Node::Element(p) = &doc.root.children[0] {
        assert_eq!(p.attributes.get("stroke"), Some(&"blue".to_string()));
        assert_eq!(p.attributes.get("style"), Some(&"fill:blue;stroke-width:2".to_string()));
    }
    // no xlink:href is left, so the namespace goes
    assert!(!doc.root.attributes.contains_key("xmlns:xlink"));
    assert!(!doc.root.namespaces.contains_key("xlink"));
}

#[test]
fn convert_one_stop_gradients_keeps_other_gradients() {
    let plugin = ConvertOneStopGradientsPlugin::new();
    let mut doc = create_test_document();

    // two stops: kept
    let mut two = elem("radialGradient", &[("id", "two")]);
    two.children.push(Node::Element(elem("stop", &[("stop-color", "red")])));
    two.children.push(Node::Element(elem("stop", &[("stop-color", "blue")])));
    doc.root.children.push(Node::Element(two));
    // no stop but a reference: its subtree is not searched
    let mut refd = elem("linearGradient", &[("id", "ref"), ("xlink:href", "#two")]);
    refd.children.push(Node::Element(one_stop_gradient("inner", &[])));
    doc.root.children.push(Node::Element(refd));
    // one stop without colour: black
    doc.root.children.push(Node::Element(one_stop_gradient("plain", &[])));
    doc.root.children.push(Node::Element(elem("rect", &[("fill", "url(#plain)")])));

    plugin.apply(&mut doc).unwrap();

    assert_eq!(doc.root.children.len(), 3);
    if let Node::Element(r) = &doc.root.children[2] {
        assert_eq!(r.attributes.get("fill"), Some(&"black".to_string()));
    }
    if let Node::Element(refd) = &doc.root.children[1] {
        assert_eq!(refd.children.len(), 1);
    }
}
