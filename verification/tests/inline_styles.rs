use vexy_svgo_plugin_sdk::ast::{Document, Element, Node};
use vexy_svgo_plugin_sdk::plugins::inline_styles::{
    calculate_specificity, checked_specificity, extract_declarations, is_presentation_attribute,
    merge_styles, selector_contains_pseudo, InlineStylesConfig, InlineStylesPlugin,
};

fn create_element(name: &str) -> Element {
    Element::new(name)
}

fn create_style_element(css: &str) -> Element {
    let mut style = create_element("style");
    style.children.push(Node::Text(css.to_string()));
    style
}

fn child(doc: &Document, i: usize) -> &Element {
    match &doc.root.children[i] {
        Node::Element(e) => e,
        _ => panic!("not an element"),
    }
}

#[test]
fn inline_styles_test_plugin_creation() {
    let plugin = InlineStylesPlugin::new();
    assert_eq!(plugin.name(), "inlineStyles");
}

#[test]
fn test_is_presentation_attribute() {
    assert!(is_presentation_attribute("fill"));
    assert!(is_presentation_attribute("stroke"));
    assert!(is_presentation_attribute("opacity"));
    assert!(!is_presentation_attribute("transform"));
    assert!(!is_presentation_attribute("x"));
    assert!(!is_presentation_attribute("width"));
}

#[test]
fn test_merge_styles() {
    let existing = "fill: red; stroke: blue";
    let new_styles = vec![
        ("fill".to_string(), "green".to_string()),
        ("opacity".to_string(), "0.5".to_string()),
    ];

    let result = merge_styles(existing, &new_styles);
    assert!(result.contains("fill: green"));
    assert!(result.contains("stroke: blue"));
    assert!(result.contains("opacity: 0.5"));
}

#[test]
fn test_basic_inline_styles() {
    let plugin = InlineStylesPlugin::new();
    let mut doc = Document::new();

    let style = create_style_element(".test { fill: red; }");
    doc.root.children.push(Node::Element(style));

    let mut rect = create_element("rect");
    rect.attributes.insert("class".to_string(), "test".to_string());
    doc.root.children.push(Node::Element(rect));

    plugin.apply(&mut doc).unwrap();

    assert_eq!(child(&doc, 1).attributes.get("style"), Some(&"fill: red".to_string()));
}

#[test]
fn test_id_selector() {
    let plugin = InlineStylesPlugin::new();
    let mut doc = Document::new();

    let style = create_style_element("#myid { stroke: blue; }");
    doc.root.children.push(Node::Element(style));

    let mut circle = create_element("circle");
    circle.attributes.insert("id".to_string(), "myid".to_string());
    doc.root.children.push(Node::Element(circle));

    plugin.apply(&mut doc).unwrap();

    assert_eq!(child(&doc, 1).attributes.get("style"), Some(&"stroke: #00f".to_string()));
}

#[test]
fn test_element_selector() {
    let plugin = InlineStylesPlugin::new();
    let mut doc = Document::new();

    let style = create_style_element("rect { fill: green; opacity: 0.5; }");
    doc.root.children.push(Node::Element(style));
    doc.root.children.push(Node::Element(create_element("rect")));
    doc.root.children.push(Node::Element(create_element("circle")));

    plugin.apply(&mut doc).unwrap();

    assert!(child(&doc, 1).attributes.contains_key("style"));
    assert!(!child(&doc, 2).attributes.contains_key("style"));
}

#[test]
fn inline_styles_merges_into_existing_style() {
    let existing = "fill: red; stroke: blue";
    let new_styles = vec![
        ("fill".to_string(), "green".to_string()),
        ("opacity".to_string(), "0.5".to_string()),
    ];
    assert_eq!(merge_styles(existing, &new_styles), "fill: green; stroke: blue; opacity: 0.5");
    assert_eq!(merge_styles("", &new_styles), "fill: green; opacity: 0.5");
    assert_eq!(merge_styles("a:b:c; d : e ;", &Vec::new()), "d: e");
}

#[test]
fn inline_styles_specificity() {
    assert_eq!(calculate_specificity("#a .b c"), 1001001);
    assert_eq!(calculate_specificity("rect"), 1);
    assert_eq!(calculate_specificity("a[href] .x.y"), 3001);
    assert_eq!(checked_specificity(&"#".repeat(4294)), Some(4294000000));
    assert_eq!(checked_specificity(&"#".repeat(4295)), None);
}

#[test]
fn inline_styles_pseudo_detection() {
    assert!(selector_contains_pseudo("a:hover"));
    assert!(selector_contains_pseudo("p::after"));
    assert!(!selector_contains_pseudo("a:not(.b)"));
    assert!(!selector_contains_pseudo("rect"));
}

#[test]
fn inline_styles_extract_declarations_keeps_presentation_only() {
    let d = extract_declarations("fill: red; width: 10px; stroke:blue;bad");
    assert_eq!(
        d,
        vec![
            ("fill".to_string(), "red".to_string()),
            ("stroke".to_string(), "blue".to_string()),
        ]
    );
}

#[test]
fn inline_styles_cascade_and_cleanup() {
    let plugin = InlineStylesPlugin::new();
    let mut doc = Document::new();
    doc.root.children.push(Node::Element(create_style_element(
        "#r { fill: blue } rect { fill: red; stroke: green }",
    )));
    let mut rect = create_element("rect");
    rect.attributes.insert("id".to_string(), "r".to_string());
    doc.root.children.push(Node::Element(rect));

    assert!(plugin.try_apply(&mut doc));

    // the element rule comes first, the id rule (more specific) overrides it
    assert_eq!(child(&doc, 1).attributes.get("style"), Some(&"fill: #00f; stroke: green".to_string()));
    // the sheet is emptied
    assert!(child(&doc, 0).children.is_empty());
}

#[test]
fn inline_styles_media_and_pseudo_settings() {
    let css = "@media screen { rect { fill: red } } a:hover { fill: blue }";

    let mut doc = Document::new();
    doc.root.children.push(Node::Element(create_style_element(css)));
    doc.root.children.push(Node::Element(create_element("rect")));
    let plugin = InlineStylesPlugin::with_config(InlineStylesConfig {
        only_matched_once: true,
        remove_matched_selectors: false,
        use_mqs: false,
        use_pseudos: true,
    });
    plugin.apply(&mut doc).unwrap();
    assert!(!child(&doc, 1).attributes.contains_key("style"));
    assert_eq!(child(&doc, 0).children.len(), 1);

    let mut doc = Document::new();
    doc.root.children.push(Node::Element(create_style_element(css)));
    doc.root.children.push(Node::Element(create_element("rect")));
    InlineStylesPlugin::new().apply(&mut doc).unwrap();
    assert_eq!(child(&doc, 1).attributes.get("style"), Some(&"fill: red".to_string()));
}
