use vexy_svgo_plugin_sdk::ast::{Document, Element, Node};
use vexy_svgo_plugin_sdk::plugins::convert_colors::{
    check_param, check_params, settings_from_params, ConvertCase, ConvertColorsConfig, ConvertColorsPlugin, ConvertCurrentColor,
    ParamCheck, ParamValue,
};

fn element_with_attrs(name: &str, attrs: &[(&str, &str)]) -> Element {
    let mut e = Element::new(name);
    for (k, v) in attrs {
        e.set_attr(k, v);
    }
    e
}

fn first_child(e: &Element) -> &Element {
    match &e.children[0] {
        Node::Element(c) => c,
        _ => panic!("expected an element"),
    }
}

#[test]
fn convert_colors_test_plugin_creation() {
    let plugin = ConvertColorsPlugin::new();
    assert_eq!(plugin.name(), "convertColors");
    assert!(plugin.config.names2hex);
    assert!(plugin.config.rgb2hex);
}

#[test]
fn test_color_names() {
    let names = ConvertColorsPlugin::color_names();
    let get = |k: &str| names.iter().find(|(n, _)| *n == k).map(|(_, v)| *v);
    assert_eq!(get("black"), Some("#000000"));
    assert_eq!(get("white"), Some("#ffffff"));
    assert_eq!(get("red"), Some("#ff0000"));
}

#[test]
fn test_rgb_to_hex() {
    assert_eq!(ConvertColorsPlugin::rgb_to_hex(255, 0, 0), "#FF0000");
    assert_eq!(ConvertColorsPlugin::rgb_to_hex(0, 255, 0), "#00FF00");
    assert_eq!(ConvertColorsPlugin::rgb_to_hex(0, 0, 255), "#0000FF");
    assert_eq!(ConvertColorsPlugin::rgb_to_hex(64, 64, 64), "#404040");
}

#[test]
fn test_hex_to_short_hex() {
    assert_eq!(
        ConvertColorsPlugin::hex_to_short_hex("#aabbcc"),
        Some("#abc".to_string())
    );
    assert_eq!(
        ConvertColorsPlugin::hex_to_short_hex("#000000"),
        Some("#000".to_string())
    );
    assert_eq!(ConvertColorsPlugin::hex_to_short_hex("#123456"), None);
    assert_eq!(ConvertColorsPlugin::hex_to_short_hex("#abc"), None);
}

#[test]
fn test_parse_rgb() {
    assert_eq!(
        ConvertColorsPlugin::parse_rgb("rgb(255, 0, 0)"),
        Some((255, 0, 0))
    );
    assert_eq!(
        ConvertColorsPlugin::parse_rgb("rgb(64, 64, 64)"),
        Some((64, 64, 64))
    );
    assert_eq!(
        ConvertColorsPlugin::parse_rgb("rgb(64 64 64)"),
        Some((64, 64, 64))
    );
    assert_eq!(
        ConvertColorsPlugin::parse_rgb("rgb(100%, 0%, 0%)"),
        Some((255, 0, 0))
    );
    assert_eq!(
        ConvertColorsPlugin::parse_rgb("rgb(-255, 100, 500)"),
        Some((0, 100, 255))
    );
    assert_eq!(ConvertColorsPlugin::parse_rgb("invalid"), None);
}

#[test]
fn parse_rgb_percentages_round_as_binary_floating_point_does() {
    assert_eq!(ConvertColorsPlugin::parse_rgb("rgb(10%,30%,70%)"), Some((26, 77, 179)));
    assert_eq!(ConvertColorsPlugin::parse_rgb("rgb(50%,90%,.5%)"), Some((127, 229, 1)));
    assert_eq!(ConvertColorsPlugin::parse_rgb("rgb(+50.5%,99.99%,-3%)"), Some((129, 255, 0)));
    assert_eq!(ConvertColorsPlugin::parse_rgb("rgb(0.1%,100.%,250%)"), Some((0, 255, 255)));
}

#[test]
fn parse_rgb_rejects_malformed_components() {
    assert_eq!(ConvertColorsPlugin::parse_rgb("rgb(1.5, 0, 0)"), None);
    assert_eq!(ConvertColorsPlugin::parse_rgb("rgb(5., 0, 0)"), None);
    assert_eq!(ConvertColorsPlugin::parse_rgb("rgb(1,2)"), None);
    assert_eq!(ConvertColorsPlugin::parse_rgb("rgb(1,2,3) "), None);
    assert_eq!(ConvertColorsPlugin::parse_rgb("RGB(1,2,3)"), None);
    assert_eq!(ConvertColorsPlugin::parse_rgb("rgb(1,,2 ,3 )"), Some((1, 2, 3)));
    assert_eq!(ConvertColorsPlugin::parse_rgb("rgb(2147483647,-2147483648,0)"), Some((255, 0, 0)));
    assert_eq!(ConvertColorsPlugin::parse_rgb("rgb(2147483648,0,0)"), None);
    assert_eq!(ConvertColorsPlugin::parse_rgb("rgb(1%%,0,0)"), None);
    assert_eq!(ConvertColorsPlugin::parse_rgb("rgb(.,0,0)"), None);
}

#[test]
fn test_convert_color_value() {
    let plugin = ConvertColorsPlugin::new();
    assert_eq!(plugin.convert_color_value("black", false), "black");
    assert_eq!(plugin.convert_color_value("RED", false), "red");
    assert_eq!(plugin.convert_color_value("rgb(255, 0, 0)", false), "red");
    assert_eq!(plugin.convert_color_value("rgb(64, 64, 64)", false), "#404040");
    assert_eq!(plugin.convert_color_value("#aabbcc", false), "#abc");
    assert_eq!(plugin.convert_color_value("#000000", false), "black");
    assert_eq!(plugin.convert_color_value("invalid", false), "invalid");
}

#[test]
fn test_convert_color_value_with_current_color() {
    let mut config = ConvertColorsConfig::default();
    config.current_color = ConvertCurrentColor::Bool(true);
    config.names2hex = false;
    config.rgb2hex = false;
    config.shorthex = false;
    config.shortname = false;
    let plugin = ConvertColorsPlugin::with_config(config);
    assert_eq!(plugin.convert_color_value("black", false), "currentColor");
    assert_eq!(plugin.convert_color_value("RED", false), "currentColor");
    assert_eq!(plugin.convert_color_value("rgb(255, 0, 0)", false), "currentColor");
    assert_eq!(plugin.convert_color_value("#ff0000", false), "currentColor");
    assert_eq!(plugin.convert_color_value("none", false), "none");
    assert_eq!(plugin.convert_color_value("NONE", false), "NONE");
    assert_eq!(plugin.convert_color_value("inherit", false), "inherit");
    assert_eq!(plugin.convert_color_value("transparent", false), "transparent");
    assert_eq!(plugin.convert_color_value("currentColor", false), "currentColor");
}

#[test]
fn test_convert_color_value_in_mask() {
    let mut config = ConvertColorsConfig::default();
    config.current_color = ConvertCurrentColor::Bool(true);
    let plugin = ConvertColorsPlugin::with_config(config);
    assert_eq!(plugin.convert_color_value("white", true), "#fff");
    assert_eq!(plugin.convert_color_value("black", true), "#000");
    assert_eq!(plugin.convert_color_value("red", true), "#f00");
    assert_eq!(plugin.convert_color_value("white", false), "currentColor");
    assert_eq!(plugin.convert_color_value("black", false), "currentColor");
    assert_eq!(plugin.convert_color_value("red", false), "currentColor");
}

#[test]
fn convert_color_value_other_settings() {
    let mut config = ConvertColorsConfig::default();
    config.convert_case = ConvertCase::Upper;
    config.shortname = false;
    config.current_color = ConvertCurrentColor::String("#123456".to_string());
    let plugin = ConvertColorsPlugin::with_config(config);
    assert_eq!(plugin.convert_color_value("#123456", false), "currentColor");
    assert_eq!(plugin.convert_color_value("#123456", true), "#123456");
    assert_eq!(plugin.convert_color_value("aqua", false), "#0FF");
    assert_eq!(plugin.convert_color_value("url(#a)", false), "url(#a)");

    let mut config = ConvertColorsConfig::default();
    config.current_color = ConvertCurrentColor::Regex("^#f".to_string());
    let plugin = ConvertColorsPlugin::with_config(config);
    assert_eq!(plugin.convert_color_value("#fa0", false), "currentColor");
    assert_eq!(plugin.convert_color_value("#0af", false), "#0af");

    let mut config = ConvertColorsConfig::default();
    config.convert_case = ConvertCase::Unchanged;
    config.shortname = false;
    let plugin = ConvertColorsPlugin::with_config(config);
    assert_eq!(plugin.convert_color_value("#AABBCC", false), "#ABC");
}

#[test]
fn multi_byte_values_have_no_short_hex() {
    let plugin = ConvertColorsPlugin::new();
    assert_eq!(plugin.convert_color_value("#\u{e9}\u{e9}11", false), "#\u{e9}\u{e9}11");
    assert_eq!(ConvertColorsPlugin::hex_to_short_hex("#\u{e9}\u{e9}\u{e9}"), None);
    assert_eq!(ConvertColorsPlugin::hex_to_short_hex("#\u{e9}\u{e9}"), None);
    assert_eq!(plugin.convert_color_value("#aabbcc", false), "#abc");
}

#[test]
fn test_mask_counter() {
    let plugin = ConvertColorsPlugin::new();
    let mut doc = Document::new();
    let mut mask = Element::new("mask");
    mask.children.push(Node::Element(element_with_attrs("rect", &[("fill", "red")])));
    doc.root.children.push(Node::Element(mask));
    plugin.apply(&mut doc).unwrap();
    let rect = first_child(first_child(&doc.root));
    assert_eq!(rect.attr("fill"), Some("#f00".to_string()));
}

#[test]
fn apply_converts_only_color_attributes() {
    let plugin = ConvertColorsPlugin::new();
    let mut doc = Document::new();
    doc.root.children.push(Node::Element(element_with_attrs(
        "rect",
        &[("fill", "red"), ("stroke", "rgb(0, 255, 0)"), ("id", "RED")],
    )));
    assert!(plugin.apply(&mut doc).is_ok());
    let rect = first_child(&doc.root);
    assert_eq!(rect.attr("fill"), Some("red".to_string()));
    assert_eq!(rect.attr("stroke"), Some("#0f0".to_string()));
    assert_eq!(rect.attr("id"), Some("RED".to_string()));
}

#[test]
fn every_short_name_keeps_the_colour() {
    let names = ConvertColorsPlugin::color_names();
    for (hex, name) in ConvertColorsPlugin::color_short_names() {
        let long: String = if hex.len() == 4 {
            let c: Vec<char> = hex.chars().collect();
            format!("#{}{}{}{}{}{}", c[1], c[1], c[2], c[2], c[3], c[3])
        } else {
            hex.to_string()
        };
        let value = names.iter().find(|(n, _)| *n == name).map(|(_, v)| v.to_string());
        assert_eq!(value, Some(long), "{} -> {}", hex, name);
    }
}

#[test]
fn parameters_are_checked_in_order() {
    let ok = vec![
        ("currentColor".to_string(), ParamValue::Str("#000".to_string())),
        ("names2hex".to_string(), ParamValue::Bool(true)),
        ("convertCase".to_string(), ParamValue::Bool(false)),
        ("convertCase".to_string(), ParamValue::Str("upper".to_string())),
    ];
    assert_eq!(check_params(&ok), Ok(()));
    let bad = vec![
        ("shorthex".to_string(), ParamValue::Bool(false)),
        ("rgb2hex".to_string(), ParamValue::Str("yes".to_string())),
        ("nope".to_string(), ParamValue::Other),
    ];
    assert_eq!(check_params(&bad), Err((1, ParamCheck::NotBoolean)));
    assert_eq!(check_param("currentColor", &ParamValue::Other), ParamCheck::CurrentColorType);
    assert_eq!(check_param("convertCase", &ParamValue::Str("camel".to_string())), ParamCheck::CaseText);
    assert_eq!(check_param("convertCase", &ParamValue::Bool(true)), ParamCheck::CaseType);
    assert_eq!(check_param("other", &ParamValue::Bool(true)), ParamCheck::Unknown);
}

#[test]
fn color_tables_have_no_repeated_keys() {
    let names = ConvertColorsPlugin::color_names();
    for (i, a) in names.iter().enumerate() {
        for b in &names[i + 1..] {
            assert_ne!(a.0, b.0);
        }
    }
    let shorts = ConvertColorsPlugin::color_short_names();
    for (i, a) in shorts.iter().enumerate() {
        for b in &shorts[i + 1..] {
            assert_ne!(a.0, b.0);
        }
    }
}

#[test]
fn settings_are_read_from_parameters() {
    let ps = vec![
        ("currentColor".to_string(), ParamValue::Str("#fff".to_string())),
        ("names2hex".to_string(), ParamValue::Other),
        ("rgb2hex".to_string(), ParamValue::Bool(false)),
        ("convertCase".to_string(), ParamValue::Bool(false)),
    ];
    let c = settings_from_params(&ps).ok().unwrap();
    assert!(matches!(c.current_color, ConvertCurrentColor::String(ref s) if s == "#fff"));
    assert!(c.names2hex);
    assert!(!c.rgb2hex);
    assert!(matches!(c.convert_case, ConvertCase::Unchanged));
    let bad = vec![
        ("convertCase".to_string(), ParamValue::Str("upper".to_string())),
        ("convertCase".to_string(), ParamValue::Str("camel".to_string())),
        ("nope".to_string(), ParamValue::Bool(true)),
    ];
    assert_eq!(settings_from_params(&bad).err(), Some(1));
    let unknown = vec![("nope".to_string(), ParamValue::Bool(true))];
    assert_eq!(settings_from_params(&unknown).err(), Some(0));
}
