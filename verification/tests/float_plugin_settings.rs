use vexy_svgo_plugin_sdk::plugins::apply_transforms::{scan_coord, transform_list, ApplyTransformsConfig, ApplyTransformsPlugin};
use vexy_svgo_plugin_sdk::plugins::convert_path_data::is_float_text_exec;
use vexy_svgo_plugin_sdk::plugins::cleanup_numeric_values::{
    join_style, style_declarations, CleanupNumericValuesParams, CleanupNumericValuesPlugin,
};
use vexy_svgo_plugin_sdk::ast::{Element, Node};
use vexy_svgo_plugin_sdk::plugins::convert_shape_to_path::{
    remove_empty_elements, ConvertShapeToPathConfig, ConvertShapeToPathPlugin, ShapeKind,
};
use vexy_svgo_plugin_sdk::plugins::convert_transform::{
    calls_from_captures, parse_transform_string, ConvertTransformPlugin,
};

#[test]
fn convert_shape_to_path_test_plugin_info() {
    let plugin = ConvertShapeToPathPlugin::new();
    assert_eq!(plugin.name(), "convertShapeToPath");
    assert_eq!(plugin.description(), "converts basic shapes to more compact path form");
}

#[test]
fn convert_transform_test_plugin_info() {
    let plugin = ConvertTransformPlugin::new();
    assert_eq!(plugin.name(), "convertTransform");
    assert_eq!(plugin.description(), "collapses multiple transformations and optimizes it");
}

#[test]
fn cleanup_numeric_values_test_plugin_creation() {
    let plugin = CleanupNumericValuesPlugin::new();
    assert_eq!(plugin.name(), "cleanupNumericValues");
    assert_eq!(plugin.params.float_precision, 3);
    assert!(plugin.params.leading_zero);
    assert!(plugin.params.default_px);
    assert!(plugin.params.convert_to_px);
}

#[test]
fn apply_transforms_settings() {
    let plugin = ApplyTransformsPlugin::new();
    assert_eq!(plugin.name(), "applyTransforms");
    assert!(plugin.config.apply_to_stroked);
    assert_eq!(plugin.config.float_precision, 3);
    let plugin = ApplyTransformsPlugin::with_config(ApplyTransformsConfig {
        apply_to_stroked: false,
        float_precision: 1,
    });
    assert!(!plugin.config.apply_to_stroked);
}

#[test]
fn shape_and_numeric_settings() {
    let plugin = ConvertShapeToPathPlugin::with_config(ConvertShapeToPathConfig {
        convert_arcs: true,
        float_precision: Some(2),
    });
    assert!(plugin.config.convert_arcs);
    let plugin = CleanupNumericValuesPlugin::with_params(CleanupNumericValuesParams {
        float_precision: 1,
        leading_zero: false,
        default_px: false,
        convert_to_px: false,
    });
    assert_eq!(plugin.params.float_precision, 1);
    assert!(CleanupNumericValuesPlugin::is_default_px_context("stroke-width"));
    assert!(!CleanupNumericValuesPlugin::is_default_px_context("stroke"));
    assert!(!CleanupNumericValuesPlugin::should_process_attribute("id"));
    assert!(CleanupNumericValuesPlugin::is_numeric_css_property("opacity"));
    assert!(CleanupNumericValuesPlugin::is_transform_attribute("patternTransform"));
}

#[test]
fn style_declarations_read_and_write_back() {
    let decls = style_declarations(" font-size : 12.3456px ;; fill:red; bogus ;a:b:c");
    assert_eq!(
        decls,
        vec![
            ("font-size".to_string(), Some("12.3456px".to_string())),
            ("fill".to_string(), Some("red".to_string())),
            ("bogus".to_string(), None),
            ("a".to_string(), Some("b:c".to_string())),
        ]
    );
    assert_eq!(join_style(&decls), "font-size: 12.3456px; fill: red; bogus; a: b:c");
    assert!(style_declarations("  ;  ").is_empty());
    assert_eq!(join_style(&Vec::new()), "");
}

fn call(name: &str, nums: &[&str]) -> (String, Vec<String>) {
    (name.to_string(), nums.iter().map(|s| s.to_string()).collect())
}

#[test]
fn transform_lists_are_read_into_functions() {
    assert_eq!(
        transform_list(" translate(10, 20) scale(2) rotate(45 5 5) foo bar(1,x,2e3)"),
        vec![
            call("translate", &["10", "20"]),
            call("scale", &["2"]),
            call("rotate", &["45", "5", "5"]),
            call("foo bar", &["1", "2e3"]),
        ]
    );
    assert_eq!(
        transform_list("matrix(1 0 0 1 inf NaN)"),
        vec![call("matrix", &["1", "0", "0", "1", "inf", "NaN"])]
    );
    assert!(transform_list("").is_empty());
    assert!(transform_list("noparen").is_empty());
    assert_eq!(transform_list("(1)"), vec![call("", &["1"])]);
}

#[test]
fn float_texts_follow_the_documented_grammar() {
    for t in ["inf", "-Infinity", "NaN", "+nan", "1e5", "-.5"] {
        assert!(is_float_text_exec(&t.chars().collect()), "{}", t);
        assert!(t.parse::<f64>().is_ok(), "{}", t);
    }
    for t in ["infin", "1e5x", "x", " 1", "--1"] {
        assert!(!is_float_text_exec(&t.chars().collect()), "{}", t);
        assert!(t.parse::<f64>().is_err(), "{}", t);
    }
}

#[test]
fn transform_functions_come_from_pattern_matches() {
    let caps = vec![
        vec![Some("translate(1, 2)".to_string()), Some("translate".to_string()), Some("1, 2".to_string())],
        vec![Some("x".to_string()), None, Some("3".to_string())],
        vec![Some("scale(a 2)".to_string()), Some("scale".to_string()), Some("a 2".to_string())],
    ];
    assert_eq!(calls_from_captures(&caps), vec![call("translate", &["1", "2"]), call("scale", &["2"])]);
    assert_eq!(
        parse_transform_string("translate(10,20) rotate( 45 ) bogus(1) skewX(3)").unwrap(),
        vec![call("translate", &["10", "20"]), call("rotate", &["45"]), call("skewX", &["3"])]
    );
    assert!(parse_transform_string("none").unwrap().is_empty());
}

#[test]
fn test_parse_transform_string() {
    let transforms: Vec<(String, Vec<f64>)> = parse_transform_string("translate(10,20) scale(2)")
        .unwrap()
        .into_iter()
        .map(|(name, texts)| (name, texts.iter().map(|t| t.parse::<f64>().unwrap()).collect()))
        .collect();

    assert_eq!(transforms.len(), 2);
    assert_eq!(transforms[0].0, "translate");
    assert_eq!(transforms[0].1, vec![10.0, 20.0]);
    assert_eq!(transforms[1].0, "scale");
    assert_eq!(transforms[1].1, vec![2.0]);
}

#[test]
fn elements_without_a_name_are_removed() {
    let mut root = Element::new("svg");
    let mut marked = Element::new("");
    marked.children.push(Node::Element(Element::new("path")));
    let mut group = Element::new("g");
    group.children.push(Node::Element(Element::new("")));
    group.children.push(Node::Text("t".to_string()));
    group.children.push(Node::Element(Element::new("path")));
    root.children.push(Node::Element(marked));
    root.children.push(Node::Element(group));
    let out = remove_empty_elements(root);
    assert_eq!(out.children.len(), 1);
    match &out.children[0] {
        Node::Element(g) => {
            assert_eq!(g.name, "g");
            assert_eq!(g.children.len(), 2);
            assert!(matches!(&g.children[0], Node::Text(t) if t == "t"));
            assert!(matches!(&g.children[1], Node::Element(p) if p.name == "path"));
        }
        _ => panic!("expected the group"),
    }
}

#[test]
fn shapes_and_transformed_paths_are_recognised() {
    let plain = ConvertShapeToPathPlugin::new();
    assert_eq!(plain.shape_kind("rect"), Some(ShapeKind::Rect));
    assert_eq!(plain.shape_kind("polygon"), Some(ShapeKind::Polygon));
    assert_eq!(plain.shape_kind("circle"), None);
    assert_eq!(plain.shape_kind("g"), None);
    let arcs = ConvertShapeToPathPlugin::with_config(ConvertShapeToPathConfig { convert_arcs: true, float_precision: None });
    assert_eq!(arcs.shape_kind("circle"), Some(ShapeKind::Circle));
    assert_eq!(arcs.shape_kind("ellipse"), Some(ShapeKind::Ellipse));

    let mut path = Element::new("path");
    path.set_attr("d", "M0 0L1 1");
    path.set_attr("transform", "translate(1)");
    let plugin = ApplyTransformsPlugin::new();
    assert!(plugin.transform_applies_to(&path));
    path.set_attr("stroke", "red");
    assert!(plugin.transform_applies_to(&path));
    let strict = ApplyTransformsPlugin::with_config(ApplyTransformsConfig { apply_to_stroked: false, float_precision: 3 });
    assert!(!strict.transform_applies_to(&path));
    path.set_attr("stroke", "none");
    assert!(strict.transform_applies_to(&path));
    path.remove_attr("d");
    assert!(!plugin.transform_applies_to(&path));
}

#[test]
fn coordinates_are_scanned_by_the_grammar() {
    let s: Vec<char> = " , -1.5.3x 42".chars().collect();
    assert_eq!(scan_coord(&s, 0), (3, 7));
    assert_eq!(scan_coord(&s, 7), (7, 9));
    assert_eq!(scan_coord(&s, 9), (9, 9));
    assert_eq!(scan_coord(&s, 10), (11, 13));
    let t: Vec<char> = "+".chars().collect();
    assert_eq!(scan_coord(&t, 0), (0, 1));
    assert_eq!(scan_coord(&t, 1), (1, 1));
}
