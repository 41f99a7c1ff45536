use vexy_svgo_plugin_sdk::ast::{Document, Element, Node};
use vexy_svgo_plugin_sdk::plugins::merge_paths::MergePathsPlugin;

fn create_element(name: &str) -> Element {
    Element::new(name)
}

fn create_path_element(d: &str) -> Element {
    let mut element = create_element("path");
    element.set_attr("d", d);
    element
}

fn create_path_element_with_attrs(d: &str, attrs: &[(&str, &str)]) -> Element {
    let mut element = create_path_element(d);
    for (key, value) in attrs {
        element.set_attr(key, value);
    }
    element
}

#[test]
fn merge_paths_test_plugin_creation() {
    let plugin = MergePathsPlugin::new();
    assert_eq!(plugin.name(), "mergePaths");
}

#[test]
fn test_can_merge_paths() {
    let plugin = MergePathsPlugin::new();
    let path1 = create_path_element("M0 0L10 10");
    let path2 = create_path_element("M20 20L30 30");
    assert!(plugin.can_merge_paths(&path1, &path2));
    let path1 = create_path_element_with_attrs("M0 0L10 10", &[("fill", "red")]);
    let path2 = create_path_element_with_attrs("M20 20L30 30", &[("fill", "red")]);
    assert!(plugin.can_merge_paths(&path1, &path2));
    let path1 = create_path_element_with_attrs("M0 0L10 10", &[("fill", "red")]);
    let path2 = create_path_element_with_attrs("M20 20L30 30", &[("fill", "blue")]);
    assert!(!plugin.can_merge_paths(&path1, &path2));
    let path1 = create_path_element_with_attrs("M0 0L10 10", &[("marker-start", "url(#marker)")]);
    let path2 = create_path_element("M20 20L30 30");
    assert!(!plugin.can_merge_paths(&path1, &path2));
    let path1 = create_path_element_with_attrs("M0 0L10 10", &[("fill", "url(#gradient)")]);
    let path2 = create_path_element("M20 20L30 30");
    assert!(!plugin.can_merge_paths(&path1, &path2));
    let path1 = create_element("path");
    let path2 = create_path_element("M20 20L30 30");
    assert!(!plugin.can_merge_paths(&path1, &path2));
}

#[test]
fn test_merge_path_data() {
    let plugin = MergePathsPlugin::new();
    assert_eq!(plugin.merge_path_data("M0 0L10 10", "M20 20L30 30"), "M0 0L10 10 M20 20L30 30");
    assert_eq!(plugin.merge_path_data("M0 0L10 10 ", "M20 20L30 30"), "M0 0L10 10 M20 20L30 30");
    assert_eq!(plugin.merge_path_data("", "M20 20L30 30"), "M20 20L30 30");
}

#[test]
fn test_plugin_apply_basic_merge() {
    let plugin = MergePathsPlugin::new();
    let mut doc = Document::new();
    doc.root.children.push(Node::Element(create_path_element("M0 0L10 10")));
    doc.root.children.push(Node::Element(create_path_element("M20 20L30 30")));
    plugin.apply(&mut doc).unwrap();
    assert_eq!(doc.root.children.len(), 1);
    if let Some(Node::Element(merged_path)) = doc.root.children.first() {
        assert_eq!(merged_path.name, "path");
        assert_eq!(merged_path.attributes.get("d"), Some(&"M0 0L10 10 M20 20L30 30".to_string()));
    }
}

#[test]
fn test_plugin_apply_no_merge_different_attrs() {
    let plugin = MergePathsPlugin::new();
    let mut doc = Document::new();
    doc.root.children.push(Node::Element(create_path_element_with_attrs("M0 0L10 10", &[("fill", "red")])));
    doc.root.children.push(Node::Element(create_path_element_with_attrs("M20 20L30 30", &[("fill", "blue")])));
    plugin.apply(&mut doc).unwrap();
    assert_eq!(doc.root.children.len(), 2);
}

#[test]
fn test_plugin_apply_merge_with_same_attrs() {
    let plugin = MergePathsPlugin::new();
    let mut doc = Document::new();
    doc.root.children.push(Node::Element(create_path_element_with_attrs(
        "M0 0L10 10",
        &[("fill", "red"), ("stroke", "blue")],
    )));
    doc.root.children.push(Node::Element(create_path_element_with_attrs(
        "M20 20L30 30",
        &[("fill", "red"), ("stroke", "blue")],
    )));
    plugin.apply(&mut doc).unwrap();
    assert_eq!(doc.root.children.len(), 1);
    if let Some(Node::Element(merged_path)) = doc.root.children.first() {
        assert_eq!(merged_path.name, "path");
        assert_eq!(merged_path.attributes.get("d"), Some(&"M0 0L10 10 M20 20L30 30".to_string()));
        assert_eq!(merged_path.attributes.get("fill"), Some(&"red".to_string()));
        assert_eq!(merged_path.attributes.get("stroke"), Some(&"blue".to_string()));
    }
}

#[test]
fn test_plugin_apply_merge_three_paths() {
    let plugin = MergePathsPlugin::new();
    let mut doc = Document::new();
    doc.root.children.push(Node::Element(create_path_element("M0 0L10 10")));
    doc.root.children.push(Node::Element(create_path_element("M20 20L30 30")));
    doc.root.children.push(Node::Element(create_path_element("M40 40L50 50")));
    plugin.apply(&mut doc).unwrap();
    assert_eq!(doc.root.children.len(), 1);
    if let Some(Node::Element(merged_path)) = doc.root.children.first() {
        assert_eq!(merged_path.name, "path");
        assert_eq!(
            merged_path.attributes.get("d"),
            Some(&"M0 0L10 10 M20 20L30 30 M40 40L50 50".to_string())
        );
    }
}

#[test]
fn test_plugin_apply_mixed_elements() {
    let plugin = MergePathsPlugin::new();
    let mut doc = Document::new();
    doc.root.children.push(Node::Element(create_path_element("M0 0L10 10")));
    doc.root.children.push(Node::Element(create_element("rect")));
    doc.root.children.push(Node::Element(create_path_element("M20 20L30 30")));
    plugin.apply(&mut doc).unwrap();
    assert_eq!(doc.root.children.len(), 3);
    if let Some(Node::Element(elem)) = doc.root.children.get(0) {
        assert_eq!(elem.name, "path");
    }
    if let Some(Node::Element(elem)) = doc.root.children.get(1) {
        assert_eq!(elem.name, "rect");
    }
    if let Some(Node::Element(elem)) = doc.root.children.get(2) {
        assert_eq!(elem.name, "path");
    }
}

#[test]
fn runs_stop_at_the_first_incompatible_path() {
    let plugin = MergePathsPlugin::new();
    let mut doc = Document::new();
    doc.root.children.push(Node::Element(create_path_element("M0 0")));
    doc.root.children.push(Node::Element(create_path_element("M1 1")));
    doc.root.children.push(Node::Element(create_path_element_with_attrs("M2 2", &[("fill", "red")])));
    doc.root.children.push(Node::Element(create_path_element_with_attrs("M3 3", &[("fill", "red")])));
    let mut g = create_element("g");
    g.children.push(Node::Element(create_path_element("M4 4")));
    g.children.push(Node::Element(create_path_element("")));
    doc.root.children.push(Node::Element(g));
    plugin.apply(&mut doc).unwrap();
    assert_eq!(doc.root.children.len(), 3);
    if let Some(Node::Element(p)) = doc.root.children.get(1) {
        assert_eq!(p.attributes.get("d"), Some(&"M2 2 M3 3".to_string()));
    }
    if let Some(Node::Element(g)) = doc.root.children.get(2) {
        assert_eq!(g.children.len(), 1);
        if let Some(Node::Element(p)) = g.children.get(0) {
            assert_eq!(p.attributes.get("d"), Some(&"M4 4".to_string()));
        }
    }
}

#[test]
fn paths_with_different_transforms_do_not_merge() {
    let plugin = MergePathsPlugin::new();
    let p1 = create_path_element_with_attrs("M0 0L10 10", &[("transform", "translate(10)")]);
    let p2 = create_path_element("M20 20L30 30");
    assert!(!plugin.can_merge_paths(&p1, &p2));
    let p3 = create_path_element_with_attrs("M20 20L30 30", &[("transform", "translate(10)")]);
    assert!(plugin.can_merge_paths(&p1, &p3));
}
