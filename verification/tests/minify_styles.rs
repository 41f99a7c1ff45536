use vexy_svgo_plugin_sdk::ast::{Document, Element, Node};
use vexy_svgo_plugin_sdk::plugins::minify_styles::{
    collect_usage, has_scripts, is_deoptimized, MinifyStylesPlugin,
};

fn create_element(name: &str) -> Element {
    Element::new(name)
}

fn create_text_node(content: &str) -> Node {
    Node::Text(content.to_string())
}

#[test]
fn minify_styles_test_plugin_creation() {
    let plugin = MinifyStylesPlugin::new();
    assert_eq!(plugin.name(), "minifyStyles");
    assert_eq!(plugin.description(), "minifies styles and removes unused styles");
}

#[test]
fn test_has_scripts() {
    let script = create_element("script");
    assert_eq!(script.name, "script");

    let mut button = create_element("button");
    button.attributes.insert("onclick".to_string(), "alert('test')".to_string());
    assert!(has_scripts(&button));

    let div = create_element("div");
    assert!(!has_scripts(&div));
}

#[test]
fn test_collect_usage() {
    let mut doc = Document::new();
    let mut div = create_element("div");
    div.attributes.insert("id".to_string(), "main".to_string());
    div.attributes.insert("class".to_string(), "container wrapper".to_string());
    let mut span = create_element("span");
    span.attributes.insert("id".to_string(), "text".to_string());
    span.attributes.insert("class".to_string(), "highlight".to_string());
    div.children.push(Node::Element(span));
    doc.root.children.push(Node::Element(div));

    let (tags, ids, classes) = collect_usage(&doc.root);

    assert!(tags.iter().any(|t| t == "div"));
    assert!(tags.iter().any(|t| t == "span"));
    assert!(ids.iter().any(|t| t == "main"));
    assert!(ids.iter().any(|t| t == "text"));
    assert!(classes.iter().any(|t| t == "container"));
    assert!(classes.iter().any(|t| t == "wrapper"));
    assert!(classes.iter().any(|t| t == "highlight"));
}

#[test]
fn test_style_element_minification() {
    let plugin = MinifyStylesPlugin::new();
    let mut doc = Document::new();
    let mut style = create_element("style");
    style.children.push(create_text_node("  .test  {  color:  red;  }  "));
    doc.root.children.push(Node::Element(style));

    plugin.apply(&mut doc).unwrap();

    if let Node::Element(style_elem) = &doc.root.children[0] {
        if let Node::Text(text_content) = &style_elem.children[0] {
            assert!(text_content.len() < "  .test  {  color:  red;  }  ".len());
            assert!(text_content.contains("red"));
        }
    }
}

#[test]
fn test_style_attribute_minification() {
    let plugin = MinifyStylesPlugin::new();
    let mut doc = Document::new();
    let mut div = create_element("div");
    div.attributes.insert("style".to_string(), "  color:  red;  margin:  10px;  ".to_string());
    doc.root.children.push(Node::Element(div));

    plugin.apply(&mut doc).unwrap();

    if let Node::Element(div_elem) = &doc.root.children[0] {
        let style_attr = div_elem.attributes.get("style").unwrap();
        assert!(style_attr.len() < "  color:  red;  margin:  10px;  ".len());
        assert!(style_attr.contains("red"));
        assert!(style_attr.contains("10px"));
        assert!(!style_attr.starts_with("  "));
    }
}

#[test]
fn test_empty_style_removal() {
    let plugin = MinifyStylesPlugin::new();
    let mut doc = Document::new();
    let mut style = create_element("style");
    style.children.push(create_text_node("   "));
    doc.root.children.push(Node::Element(style));
    doc.root.children.push(Node::Element(create_element("div")));

    plugin.apply(&mut doc).unwrap();

    assert_eq!(doc.root.children.len(), 1);
    if let Node::Element(elem) = &doc.root.children[0] {
        assert_eq!(elem.name, "div");
    }
}

#[test]
fn minify_styles_test_nested_elements() {
    let plugin = MinifyStylesPlugin::new();
    let mut doc = Document::new();
    let mut group = create_element("g");
    let mut style = create_element("style");
    style.children.push(create_text_node(".test { color: blue; }"));
    group.children.push(Node::Element(style));
    let mut rect = create_element("rect");
    rect.attributes.insert("style".to_string(), "fill: green;".to_string());
    group.children.push(Node::Element(rect));
    doc.root.children.push(Node::Element(group));

    plugin.apply(&mut doc).unwrap();

    if let Node::Element(group_elem) = &doc.root.children[0] {
        if let Node::Element(style_elem) = &group_elem.children[0] {
            assert_eq!(style_elem.name, "style");
            if let Node::Text(text_content) = &style_elem.children[0] {
                assert!(!text_content.is_empty(), "CSS should not be empty after minification");
                assert!(
                    text_content.contains("blue")
                        || text_content.contains("#00f")
                        || text_content.contains("#0000ff")
                );
            }
        }
        if let Node::Element(rect_elem) = &group_elem.children[1] {
            let style_attr = rect_elem.attributes.get("style").unwrap();
            assert!(style_attr.contains("green"));
        }
    }
}

#[test]
fn test_invalid_css_handling() {
    let plugin = MinifyStylesPlugin::new();
    let mut doc = Document::new();
    let mut style = create_element("style");
    let invalid_css = "this is not valid css { }}}";
    style.children.push(create_text_node(invalid_css));
    doc.root.children.push(Node::Element(style));

    let result = plugin.apply(&mut doc);
    assert!(result.is_ok());

    if let Node::Element(style_elem) = &doc.root.children[0] {
        if let Node::Text(text_content) = &style_elem.children[0] {
            assert_eq!(text_content, invalid_css);
        }
    }
}

#[test]
fn minify_styles_scripts_in_tree() {
    let mut a = create_element("a");
    a.attributes.insert("xlink:href".to_string(), "  javascript:void(0)".to_string());
    assert!(has_scripts(&a));
    let mut root = create_element("svg");
    let mut g = create_element("g");
    g.children.push(Node::Element(a));
    root.children.push(Node::Element(g));
    assert!(is_deoptimized(&root));
    assert!(!is_deoptimized(&create_element("svg")));
    let mut s = create_element("script");
    assert!(!has_scripts(&s));
    s.children.push(create_text_node("x"));
    assert!(has_scripts(&s));
}
