use vexy_svgo_plugin_sdk::ast::{Attributes, Document, Element, Node};
use vexy_svgo_plugin_sdk::plugins::cleanup_ids::{
    find_references, CleanupIdsConfig, CleanupIdsPlugin, CleanupIdsVisitor, IdGenerator,
};
use vexy_svgo_plugin_sdk::refs::update_reference_value;

fn element_at(doc: &Document, i: usize) -> &Element {
    match &doc.root.children[i] {
        Node::Element(e) => e,
        _ => panic!("expected an element"),
    }
}

#[test]
fn mod_test_plugin_creation() {
    let plugin = CleanupIdsPlugin::new();
    assert_eq!(plugin.name(), "cleanupIds");
}

#[test]
fn test_find_references() {
    assert_eq!(find_references("href", "#myid"), vec!["myid"]);
    assert_eq!(find_references("xlink:href", "#test"), vec!["test"]);
    assert_eq!(find_references("fill", "url(#gradient)"), vec!["gradient"]);
    assert_eq!(find_references("fill", "url('#pattern')"), vec!["pattern"]);
    assert_eq!(find_references("fill", "url(\"#mask\")"), vec!["mask"]);
    assert_eq!(
        find_references("style", "fill: url(#grad1); stroke: url(#grad2)"),
        vec!["grad1", "grad2"]
    );
    assert_eq!(find_references("begin", "elem1.end"), vec!["elem1"]);
}

#[test]
fn find_references_edge_cases() {
    assert!(find_references("title", "url(#x)").is_empty());
    assert!(find_references("href", "#").is_empty());
    assert!(find_references("fill", "myurl(#x)").is_empty());
    assert!(find_references("fill", "url(#)").is_empty());
    assert_eq!(find_references("begin", "a.begin; b_2.end+1s"), vec!["a", "b_2"]);
}

#[test]
fn test_id_generator() {
    let mut gen = IdGenerator::new();
    assert_eq!(gen.next(), "a");
    assert_eq!(gen.next(), "b");
    assert_eq!(gen.next(), "c");
    for _ in 0..47 {
        gen.next();
    }
    assert_eq!(gen.next(), "Y");
    assert_eq!(gen.next(), "Z");
    assert_eq!(gen.next(), "aa");
    assert_eq!(gen.next(), "ab");
}

#[test]
fn id_generator_ids_are_distinct() {
    let mut gen = IdGenerator::new();
    let mut seen = std::collections::HashSet::new();
    for _ in 0..3000 {
        assert!(seen.insert(gen.next()));
    }
}

#[test]
fn test_remove_unused_ids() {
    let plugin = CleanupIdsPlugin::new();
    let mut doc = Document::new();
    let mut rect1 = Element::new("rect");
    rect1.attributes.insert("id".to_string(), "used".to_string());
    let mut rect2 = Element::new("rect");
    rect2.attributes.insert("id".to_string(), "unused".to_string());
    let mut use_elem = Element::new("use");
    use_elem.attributes.insert("href".to_string(), "#used".to_string());
    doc.root.children.push(Node::Element(rect1));
    doc.root.children.push(Node::Element(rect2));
    doc.root.children.push(Node::Element(use_elem));
    plugin.apply(&mut doc).unwrap();
    assert!(element_at(&doc, 0).attributes.contains_key("id"));
    assert!(!element_at(&doc, 1).attributes.contains_key("id"));
}

#[test]
fn test_minify_ids() {
    let config = CleanupIdsConfig { remove: false, minify: true, ..Default::default() };
    let plugin = CleanupIdsPlugin::with_config(config);
    let mut doc = Document::new();
    let mut rect = Element::new("rect");
    rect.attributes.insert("id".to_string(), "very_long_identifier".to_string());
    let mut use_elem = Element::new("use");
    use_elem.attributes.insert("href".to_string(), "#very_long_identifier".to_string());
    doc.root.children.push(Node::Element(rect));
    doc.root.children.push(Node::Element(use_elem));
    plugin.apply(&mut doc).unwrap();
    let id = element_at(&doc, 0).attributes.get("id").unwrap();
    assert!(id.len() < "very_long_identifier".len());
    assert_eq!(id, "a");
    assert_eq!(element_at(&doc, 1).attributes.get("href"), Some(&"#a".to_string()));
}

#[test]
fn test_preserve_ids() {
    let config = CleanupIdsConfig {
        remove: true,
        minify: true,
        preserve: vec!["keep_this".to_string()],
        preserve_prefixes: vec!["pres_".to_string()],
        ..Default::default()
    };
    let plugin = CleanupIdsPlugin::with_config(config);
    let mut doc = Document::new();
    for id in ["keep_this", "pres_something", "remove_this"] {
        let mut rect = Element::new("rect");
        rect.attributes.insert("id".to_string(), id.to_string());
        doc.root.children.push(Node::Element(rect));
    }
    plugin.apply(&mut doc).unwrap();
    assert_eq!(element_at(&doc, 0).attributes.get("id"), Some(&"keep_this".to_string()));
    assert_eq!(element_at(&doc, 1).attributes.get("id"), Some(&"pres_something".to_string()));
    assert!(!element_at(&doc, 2).attributes.contains_key("id"));
}

#[test]
fn test_skip_with_scripts() {
    let plugin = CleanupIdsPlugin::new();
    let mut doc = Document::new();
    let mut script = Element::new("script");
    script.children.push(Node::Text("console.log('test');".to_string()));
    let mut rect = Element::new("rect");
    rect.attributes.insert("id".to_string(), "should_not_be_removed".to_string());
    doc.root.children.push(Node::Element(script));
    doc.root.children.push(Node::Element(rect));
    plugin.apply(&mut doc).unwrap();
    assert_eq!(
        element_at(&doc, 1).attributes.get("id"),
        Some(&"should_not_be_removed".to_string())
    );
}

#[test]
fn test_force_with_scripts() {
    let config = CleanupIdsConfig { remove: true, force: true, ..Default::default() };
    let plugin = CleanupIdsPlugin::with_config(config);
    let mut doc = Document::new();
    let mut script = Element::new("script");
    script.children.push(Node::Text("console.log('test');".to_string()));
    let mut rect = Element::new("rect");
    rect.attributes.insert("id".to_string(), "should_be_removed".to_string());
    doc.root.children.push(Node::Element(script));
    doc.root.children.push(Node::Element(rect));
    plugin.apply(&mut doc).unwrap();
    assert!(!element_at(&doc, 1).attributes.contains_key("id"));
}

#[test]
fn minify_rewrites_url_references_and_keeps_quotes() {
    let mut map = Attributes::new();
    map.insert("grad".to_string(), "a".to_string());
    assert_eq!(update_reference_value("url(#grad)", &map), "url(#a)");
    assert_eq!(update_reference_value("url('#grad')", &map), "url('#a')");
    assert_eq!(update_reference_value("url(\"#grad\")", &map), "url(\"#a\")");
    assert_eq!(update_reference_value("#grad", &map), "#a");
    assert_eq!(update_reference_value("url(#other) x", &map), "url(#other) x");
}

#[test]
fn every_minifiable_id_gets_a_fresh_name() {
    let mut config = CleanupIdsConfig::default();
    config.preserve = vec!["keep".to_string(), "b".to_string()];
    let mut visitor = CleanupIdsVisitor::new(config);
    visitor.ids = vec!["first".to_string(), "a".to_string(), "keep".to_string(), "second".to_string()];
    visitor.refs = vec!["first".to_string(), "keep".to_string(), "second".to_string(), "ghost".to_string()];
    let used = visitor.refs.clone();
    let map = visitor.build_mapping(&used);
    // "a" is present and "b" preserved, so the names start at "c"
    assert_eq!(
        map.entries,
        vec![("first".to_string(), "c".to_string()), ("second".to_string(), "d".to_string())]
    );
}

#[test]
fn renamed_ids_stay_distinct_and_references_follow() {
    let config = CleanupIdsConfig {
        remove: true,
        minify: true,
        preserve: vec!["a".to_string()],
        ..Default::default()
    };
    let plugin = CleanupIdsPlugin::with_config(config);
    let mut doc = Document::new();
    for id in ["a", "long_one", "other", "unused"] {
        let mut rect = Element::new("rect");
        rect.attributes.insert("id".to_string(), id.to_string());
        doc.root.children.push(Node::Element(rect));
    }
    let mut user = Element::new("use");
    user.attributes.insert("href".to_string(), "#long_one".to_string());
    user.attributes.insert("fill".to_string(), "url(#other)".to_string());
    user.attributes.insert("stroke".to_string(), "url(#a)".to_string());
    doc.root.children.push(Node::Element(user));
    plugin.apply(&mut doc).unwrap();
    let ids: Vec<String> =
        (0..3).map(|i| element_at(&doc, i).attributes.get("id").unwrap().clone()).collect();
    assert_eq!(ids[0], "a");
    assert!(ids[0] != ids[1] && ids[1] != ids[2] && ids[0] != ids[2]);
    assert!(!element_at(&doc, 3).attributes.contains_key("id"));
    let user = element_at(&doc, 4);
    assert_eq!(user.attributes.get("href"), Some(&format!("#{}", ids[1])));
    assert_eq!(user.attributes.get("fill"), Some(&format!("url(#{})", ids[2])));
    assert_eq!(user.attributes.get("stroke"), Some(&"url(#a)".to_string()));
}
