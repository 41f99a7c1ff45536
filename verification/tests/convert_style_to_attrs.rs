use vexy_svgo_plugin_sdk::ast::{Document, Element, Node};
use vexy_svgo_plugin_sdk::plugins::convert_style_to_attrs::{
    strip_css_comments, ConvertStyleToAttrsConfig, ConvertStyleToAttrsPlugin, CSS_DECLARATION_PATTERN,
};

fn create_element(name: &str) -> Element {
    Element::new(name)
}

fn styled(name: &str, style: &str) -> Document {
    let mut doc = Document::new();
    let mut e = create_element(name);
    e.attributes.insert("style".to_string(), style.to_string());
    doc.root.children.push(Node::Element(e));
    doc
}

#[test]
fn convert_style_to_attrs_test_plugin_creation() {
    let plugin = ConvertStyleToAttrsPlugin::new();
    assert_eq!(plugin.name(), "convertStyleToAttrs");
}

#[test]
fn test_strip_css_comments() {
    assert_eq!(strip_css_comments("red /* comment */").unwrap(), "red ");
    assert_eq!(strip_css_comments("/* start */ blue /* end */").unwrap(), " blue ");
    assert_eq!(strip_css_comments("green").unwrap(), "green");
}

#[test]
fn test_css_declaration_regex() {
    let re = regex::Regex::new(CSS_DECLARATION_PATTERN).unwrap();
    let style = "fill: red !important; stroke: blue";
    let mut captures = Vec::new();
    for cap in re.captures_iter(style) {
        let prop = cap.get(1).map(|m| m.as_str()).unwrap_or("");
        let val = cap.get(2).map(|m| m.as_str()).unwrap_or("");
        let imp = cap.get(3).is_some();
        captures.push((prop, val, imp));
    }
    assert_eq!(captures.len(), 2);
    assert_eq!(captures[0], ("fill", "red", true));
    assert_eq!(captures[1], ("stroke", "blue", false));
}

#[test]
fn test_convert_basic_styles() {
    let plugin = ConvertStyleToAttrsPlugin::new();
    let mut doc = Document::new();
    let mut rect = create_element("rect");
    rect.attributes.insert("style".to_string(), "fill: red; stroke: blue; opacity: 0.5".to_string());
    rect.attributes.insert("width".to_string(), "100".to_string());
    doc.root.children.push(Node::Element(rect));

    plugin.apply(&mut doc).unwrap();

    if let Some(Node::Element(rect)) = doc.root.children.get(0) {
        assert_eq!(rect.attributes.get("fill"), Some(&"red".to_string()));
        assert_eq!(rect.attributes.get("stroke"), Some(&"blue".to_string()));
        assert_eq!(rect.attributes.get("opacity"), Some(&"0.5".to_string()));
        assert!(!rect.attributes.contains_key("style"));
    }
}

#[test]
fn test_preserve_existing_attributes() {
    let plugin = ConvertStyleToAttrsPlugin::new();
    let mut doc = Document::new();
    let mut rect = create_element("rect");
    rect.attributes.insert("style".to_string(), "fill: red; stroke: blue".to_string());
    rect.attributes.insert("fill".to_string(), "green".to_string());
    doc.root.children.push(Node::Element(rect));

    plugin.apply(&mut doc).unwrap();

    if let Some(Node::Element(rect)) = doc.root.children.get(0) {
        assert_eq!(rect.attributes.get("fill"), Some(&"green".to_string()));
        assert_eq!(rect.attributes.get("stroke"), Some(&"blue".to_string()));
        assert_eq!(rect.attributes.get("style"), Some(&"fill: red".to_string()));
    }
}

#[test]
fn test_non_presentation_attributes() {
    let plugin = ConvertStyleToAttrsPlugin::new();
    let mut doc = styled("circle", "fill: green; custom-prop: value; -webkit-something: test");

    plugin.apply(&mut doc).unwrap();

    if let Some(Node::Element(circle)) = doc.root.children.get(0) {
        assert_eq!(circle.attributes.get("fill"), Some(&"green".to_string()));
        assert_eq!(
            circle.attributes.get("style"),
            Some(&"custom-prop: value; -webkit-something: test".to_string())
        );
    }
}

#[test]
fn test_important_declarations() {
    let plugin = ConvertStyleToAttrsPlugin::new();
    let mut doc = styled("rect", "fill: red !important; stroke: blue");

    plugin.apply(&mut doc).unwrap();

    if let Some(Node::Element(rect)) = doc.root.children.get(0) {
        assert!(!rect.attributes.contains_key("fill"));
        assert_eq!(rect.attributes.get("stroke"), Some(&"blue".to_string()));
        assert!(!rect.attributes.contains_key("style"));
    }
}

#[test]
fn test_keep_important() {
    let plugin = ConvertStyleToAttrsPlugin::with_config(ConvertStyleToAttrsConfig { keep_important: true });
    let mut doc = styled("rect", "fill: red !important; stroke: blue");

    plugin.apply(&mut doc).unwrap();

    if let Some(Node::Element(rect)) = doc.root.children.get(0) {
        assert!(!rect.attributes.contains_key("fill"));
        assert_eq!(rect.attributes.get("stroke"), Some(&"blue".to_string()));
        assert_eq!(rect.attributes.get("style"), Some(&"fill: red !important".to_string()));
    }
}

#[test]
fn test_css_comments() {
    let plugin = ConvertStyleToAttrsPlugin::new();
    let mut doc = styled("rect", "fill: /* comment */ red; stroke: blue /* another comment */");

    plugin.apply(&mut doc).unwrap();

    if let Some(Node::Element(rect)) = doc.root.children.get(0) {
        assert_eq!(rect.attributes.get("fill"), Some(&"red".to_string()));
        assert_eq!(rect.attributes.get("stroke"), Some(&"blue".to_string()));
        assert!(!rect.attributes.contains_key("style"));
    }
}

#[test]
fn convert_style_to_attrs_leaves_elements_without_style() {
    let plugin = ConvertStyleToAttrsPlugin::new();
    let mut doc = Document::new();
    let mut rect = create_element("rect");
    rect.attributes.insert("fill".to_string(), "red".to_string());
    doc.root.children.push(Node::Element(rect));
    plugin.apply(&mut doc).unwrap();
    if let Some(Node::Element(rect)) = doc.root.children.get(0) {
        assert_eq!(rect.attributes.len(), 1);
        assert_eq!(rect.attributes.get("fill"), Some(&"red".to_string()));
    }
}
