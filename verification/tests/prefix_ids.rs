use vexy_svgo_plugin_sdk::ast::{Document, Element, Node};
use vexy_svgo_plugin_sdk::plugins::prefix_ids::{PrefixIdsConfig, PrefixIdsPlugin};

fn element_with_attrs(name: &str, attrs: &[(&str, &str)]) -> Element {
    let mut e = Element::new(name);
    for (k, v) in attrs {
        e.set_attr(k, v);
    }
    e
}

fn child(e: &Element, i: usize) -> &Element {
    match &e.children[i] {
        Node::Element(c) => c,
        _ => panic!("expected an element"),
    }
}

#[test]
fn prefix_ids_test_plugin_info() {
    let plugin = PrefixIdsPlugin::new();
    assert_eq!(plugin.name(), "prefixIds");
    assert_eq!(plugin.description(), "prefix IDs");
}

#[test]
fn test_get_basename() {
    assert_eq!(PrefixIdsPlugin::get_basename("/path/to/file.svg"), "file.svg");
    assert_eq!(PrefixIdsPlugin::get_basename("C:\\path\\to\\file.svg"), "file.svg");
    assert_eq!(PrefixIdsPlugin::get_basename("file.svg"), "file.svg");
    assert_eq!(PrefixIdsPlugin::get_basename(""), "");
}

#[test]
fn get_basename_of_directory_path_is_empty() {
    assert_eq!(PrefixIdsPlugin::get_basename("/path/to/"), "");
    assert_eq!(PrefixIdsPlugin::get_basename("a\\"), "");
}

#[test]
fn test_escape_identifier_name() {
    assert_eq!(PrefixIdsPlugin::escape_identifier_name("my file.svg"), "my_file_svg");
    assert_eq!(PrefixIdsPlugin::escape_identifier_name("normal"), "normal");
}

#[test]
fn test_generate_prefix() {
    let config = PrefixIdsConfig {
        prefix: Some("custom".to_string()),
        delim: "__".to_string(),
        prefix_ids: true,
        prefix_class_names: true,
    };
    let plugin = PrefixIdsPlugin::with_config(config);
    let doc = Document::new();
    assert_eq!(plugin.generate_prefix(&doc), "custom__");

    let plugin = PrefixIdsPlugin::new();
    let mut doc = Document::new();
    doc.path = Some("/path/to/test.svg".to_string());
    assert_eq!(plugin.generate_prefix(&doc), "test_svg__");

    let plugin = PrefixIdsPlugin::new();
    let doc = Document::new();
    assert_eq!(plugin.generate_prefix(&doc), "prefix__");
}

#[test]
fn test_prefix_id() {
    let plugin = PrefixIdsPlugin::new();
    assert_eq!(plugin.prefix_id("test__", "myid"), "test__myid");
    assert_eq!(plugin.prefix_id("test__", "test__myid"), "test__myid");
}

#[test]
fn test_prefix_reference() {
    let plugin = PrefixIdsPlugin::new();
    assert_eq!(plugin.prefix_reference("test__", "#myid"), Some("#test__myid".to_string()));
    assert_eq!(plugin.prefix_reference("test__", "myid"), None);
}

#[test]
fn test_apply_with_ids() {
    let plugin = PrefixIdsPlugin::new();
    let mut doc = Document::new();
    doc.root.children.push(Node::Element(element_with_attrs("rect", &[("id", "myId")])));
    assert!(plugin.apply(&mut doc).is_ok());
    assert_eq!(child(&doc.root, 0).attr("id"), Some("prefix__myId".to_string()));
}

#[test]
fn test_apply_with_href() {
    let plugin = PrefixIdsPlugin::new();
    let mut doc = Document::new();
    doc.root.children.push(Node::Element(element_with_attrs("use", &[("href", "#myTarget")])));
    assert!(plugin.apply(&mut doc).is_ok());
    assert_eq!(child(&doc.root, 0).attr("href"), Some("#prefix__myTarget".to_string()));
}

#[test]
fn test_apply_with_custom_config() {
    let config = PrefixIdsConfig {
        prefix: Some("custom".to_string()),
        delim: "_".to_string(),
        prefix_ids: true,
        prefix_class_names: true,
    };
    let plugin = PrefixIdsPlugin::with_config(config);
    let mut doc = Document::new();
    doc.root.children.push(Node::Element(element_with_attrs("rect", &[("id", "myId")])));
    assert!(plugin.apply(&mut doc).is_ok());
    assert_eq!(child(&doc.root, 0).attr("id"), Some("custom_myId".to_string()));
}

#[test]
fn test_process_url_references() {
    let plugin = PrefixIdsPlugin::new();
    assert_eq!(plugin.process_url_references("url(\"#icon\")", "pre_"), "url(\"#pre_icon\")");
    assert_eq!(plugin.process_url_references(r#"url('#icon')"#, "pre_"), r#"url('#pre_icon')"#);
    assert_eq!(plugin.process_url_references("url(#icon)", "pre_"), "url(#pre_icon)");
    assert_eq!(
        plugin.process_url_references("url(http://example.com)", "pre_"),
        "url(http://example.com)"
    );
}

#[test]
fn test_process_animation_references() {
    let plugin = PrefixIdsPlugin::new();
    assert_eq!(plugin.process_animation_references("elem1.end", "pre_"), "pre_elem1.end");
    assert_eq!(
        plugin.process_animation_references("elem1.start; elem2.end", "pre_"),
        "pre_elem1.start; pre_elem2.end"
    );
    assert_eq!(plugin.process_animation_references("5s", "pre_"), "5s");
}

#[test]
fn test_process_style_content() {
    let plugin = PrefixIdsPlugin::new();
    let style = "#myId { fill: red; } .myClass { stroke: blue; } rect { fill: url(#grad); }";
    let processed = plugin.process_style_content(style, "pre_");
    assert!(processed.contains("#pre_myId"));
    assert!(processed.contains(".pre_myClass"));
    assert!(processed.contains("url(#pre_grad)"));
}

#[test]
fn apply_prefixes_classes_references_and_styles() {
    let plugin = PrefixIdsPlugin::new();
    let mut doc = Document::new();
    doc.path = Some("dir/my icon.svg".to_string());
    let mut style = Element::new("style");
    style.children.push(Node::Text(".a{fill:url('#g')}".to_string()));
    doc.root.children.push(Node::Element(style));
    doc.root.children.push(Node::Element(element_with_attrs(
        "rect",
        &[("class", " a  b "), ("fill", "url(#g)"), ("begin", "x.end ;2s"), ("title", "#t")],
    )));
    plugin.apply(&mut doc).unwrap();
    match &child(&doc.root, 0).children[0] {
        Node::Text(t) => assert_eq!(t, ".my_icon_svg__a{fill:url('#my_icon_svg__g')}"),
        _ => panic!("expected text"),
    }
    let rect = child(&doc.root, 1);
    assert_eq!(rect.attr("class"), Some("my_icon_svg__a my_icon_svg__b".to_string()));
    assert_eq!(rect.attr("fill"), Some("url(#my_icon_svg__g)".to_string()));
    assert_eq!(rect.attr("begin"), Some("my_icon_svg__x.end; 2s".to_string()));
    assert_eq!(rect.attr("title"), Some("#t".to_string()));
}

#[test]
fn hex_colours_in_declarations_are_no_selectors() {
    let plugin = PrefixIdsPlugin::new();
    assert_eq!(plugin.process_style_content("rect { fill: #fff; }", "pre_"), "rect { fill: #fff; }");
    assert_eq!(
        plugin.process_style_content("#a .b{fill:#abc}#c{}", "p_"),
        "#p_a .p_b{fill:#abc}#p_c{}"
    );
    assert_eq!(
        plugin.process_style_content("@media screen { #a { fill: #fff } }", "p_"),
        "@media screen { #p_a { fill: #fff } }"
    );
    assert_eq!(
        plugin.process_style_content("@font-face { src: url(a.woff) } .b{}", "p_"),
        "@font-face { src: url(a.woff) } .p_b{}"
    );
}
