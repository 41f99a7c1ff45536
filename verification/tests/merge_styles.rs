use vexy_svgo_plugin_sdk::ast::{Document, Element, Node};
use vexy_svgo_plugin_sdk::plugins::merge_styles::MergeStylesPlugin;

fn style(text: Node) -> Element {
    let mut s = Element::new("style");
    s.children.push(text);
    s
}

fn count_style_elements(element: &Element) -> usize {
    let mut count = 0;
    for child in &element.children {
        if let Node::Element(elem) = child {
            if elem.name == "style" {
                count += 1;
            }
            count += count_style_elements(elem);
        }
    }
    count
}

fn get_style_content(element: &Element) -> Option<String> {
    for child in &element.children {
        if let Node::Element(elem) = child {
            if elem.name == "style" {
                for style_child in &elem.children {
                    match style_child {
                        Node::Text(text) => return Some(text.clone()),
                        Node::CData(cdata) => return Some(cdata.clone()),
                        _ => {}
                    }
                }
            }
        }
    }
    None
}

#[test]
fn merge_styles_test_plugin_creation() {
    let plugin = MergeStylesPlugin::new();
    assert_eq!(plugin.name(), "mergeStyles");
}

#[test]
fn test_merge_multiple_styles() {
    let mut doc = Document::new();
    doc.root.children.push(Node::Element(style(Node::Text(".a{fill:red}".to_string()))));
    doc.root.children.push(Node::Element(style(Node::Text(".b{fill:blue}".to_string()))));
    MergeStylesPlugin::new().apply(&mut doc).unwrap();
    assert_eq!(count_style_elements(&doc.root), 1);
    let merged_content = get_style_content(&doc.root).unwrap();
    assert!(merged_content.contains(".a{fill:red}"));
    assert!(merged_content.contains(".b{fill:blue}"));
}

#[test]
fn test_merge_styles_with_media() {
    let mut doc = Document::new();
    let mut style1 = style(Node::Text(".a{fill:red}".to_string()));
    style1.attributes.insert("media".to_string(), "print".to_string());
    doc.root.children.push(Node::Element(style1));
    doc.root.children.push(Node::Element(style(Node::Text(".b{fill:blue}".to_string()))));
    MergeStylesPlugin::new().apply(&mut doc).unwrap();
    assert_eq!(count_style_elements(&doc.root), 1);
    let merged_content = get_style_content(&doc.root).unwrap();
    assert!(merged_content.contains("@media print{.a{fill:red}}"));
    assert!(merged_content.contains(".b{fill:blue}"));
}

#[test]
fn test_remove_empty_styles() {
    let mut doc = Document::new();
    doc.root.children.push(Node::Element(style(Node::Text("   ".to_string()))));
    doc.root.children.push(Node::Element(style(Node::Text(".a{fill:red}".to_string()))));
    MergeStylesPlugin::new().apply(&mut doc).unwrap();
    assert_eq!(count_style_elements(&doc.root), 1);
    assert_eq!(get_style_content(&doc.root).unwrap(), ".a{fill:red}");
}

#[test]
fn test_skip_invalid_type_attribute() {
    let mut doc = Document::new();
    let mut invalid_style = style(Node::Text("console.log('test')".to_string()));
    invalid_style.attributes.insert("type".to_string(), "text/javascript".to_string());
    doc.root.children.push(Node::Element(invalid_style));
    doc.root.children.push(Node::Element(style(Node::Text(".a{fill:red}".to_string()))));
    MergeStylesPlugin::new().apply(&mut doc).unwrap();
    assert_eq!(count_style_elements(&doc.root), 2);
}

#[test]
fn test_valid_type_attributes() {
    let mut doc = Document::new();
    let mut style1 = style(Node::Text(".a{fill:red}".to_string()));
    style1.attributes.insert("type".to_string(), "".to_string());
    let mut style2 = style(Node::Text(".b{fill:blue}".to_string()));
    style2.attributes.insert("type".to_string(), "text/css".to_string());
    let style3 = style(Node::Text(".c{fill:green}".to_string()));
    doc.root.children.push(Node::Element(style1));
    doc.root.children.push(Node::Element(style2));
    doc.root.children.push(Node::Element(style3));
    MergeStylesPlugin::new().apply(&mut doc).unwrap();
    assert_eq!(count_style_elements(&doc.root), 1);
    let merged_content = get_style_content(&doc.root).unwrap();
    assert!(merged_content.contains(".a{fill:red}"));
    assert!(merged_content.contains(".b{fill:blue}"));
    assert!(merged_content.contains(".c{fill:green}"));
}

#[test]
fn test_cdata_content_type() {
    let mut doc = Document::new();
    doc.root.children.push(Node::Element(style(Node::CData(".a{fill:red}".to_string()))));
    doc.root.children.push(Node::Element(style(Node::Text(".b{fill:blue}".to_string()))));
    MergeStylesPlugin::new().apply(&mut doc).unwrap();
    assert_eq!(count_style_elements(&doc.root), 1);
    for child in &doc.root.children {
        if let Node::Element(elem) = child {
            if elem.name == "style" {
                assert!(elem.children.iter().any(|c| matches!(c, Node::CData(_))));
            }
        }
    }
}

#[test]
fn test_no_styles_to_merge() {
    let mut doc = Document::new();
    doc.root.children.push(Node::Element(Element::new("rect")));
    MergeStylesPlugin::new().apply(&mut doc).unwrap();
    assert_eq!(count_style_elements(&doc.root), 0);
}

#[test]
fn test_single_style_unchanged() {
    let mut doc = Document::new();
    doc.root.children.push(Node::Element(style(Node::Text(".a{fill:red}".to_string()))));
    MergeStylesPlugin::new().apply(&mut doc).unwrap();
    assert_eq!(count_style_elements(&doc.root), 1);
    assert_eq!(get_style_content(&doc.root).unwrap(), ".a{fill:red}");
}

#[test]
fn merged_style_is_exact_and_foreign_objects_stay() {
    let mut doc = Document::new();
    let mut s1 = style(Node::Text("a{}".to_string()));
    s1.attributes.insert("media".to_string(), "screen".to_string());
    doc.root.children.push(Node::Element(s1));
    doc.root.children.push(Node::Element(Element::new("rect")));
    doc.root.children.push(Node::Element(style(Node::Text("b{}".to_string()))));
    let mut fo = Element::new("foreignObject");
    fo.children.push(Node::Element(style(Node::Text("c{}".to_string()))));
    fo.children.push(Node::Element(style(Node::Text("d{}".to_string()))));
    doc.root.children.push(Node::Element(fo));
    MergeStylesPlugin::new().apply(&mut doc).unwrap();
    assert_eq!(doc.root.children.len(), 3);
    assert_eq!(get_style_content(&doc.root).unwrap(), "@media screen{a{}}b{}");
    if let Node::Element(fo) = &doc.root.children[2] {
        assert_eq!(fo.children.len(), 2);
    }
}

#[test]
fn blank_style_before_filled_ones_goes() {
    let plugin = MergeStylesPlugin::new();
    let mut doc = Document::new();
    doc.root.children.push(Node::Element(style(Node::Text("   ".to_string()))));
    doc.root.children.push(Node::Element(style(Node::Text(".a{fill:red}".to_string()))));
    let mut rect = Element::new("rect");
    rect.set_attr("id", "r");
    doc.root.children.push(Node::Element(rect));
    doc.root.children.push(Node::Element(style(Node::Text(".b{fill:blue}".to_string()))));
    plugin.apply(&mut doc).unwrap();
    assert_eq!(count_style_elements(&doc.root), 1);
    assert_eq!(doc.root.children.len(), 2);
    assert_eq!(
        get_style_content(&doc.root),
        Some(".a{fill:red}.b{fill:blue}".to_string())
    );
    match &doc.root.children[0] {
        Node::Element(e) => assert_eq!(e.name, "style"),
        _ => panic!("style first"),
    }
    match &doc.root.children[1] {
        Node::Element(e) => assert_eq!(e.name, "rect"),
        _ => panic!("rect second"),
    }
}
