//! Converts color values: names and `rgb()` to hex, long hex to short hex, hex to
//! short names, and chosen colors to `currentColor`.
use vstd::prelude::*;
use vstd::arithmetic::div_mod::{lemma_div_denominator, lemma_hoist_over_denominator};
use crate::ast::{doc_model, doc_with_root, elem_model, AttrsM, Document, ElemM, Element, NodeM, PluginError};
use crate::pattern::{pattern_compiles, pattern_matches, regex_is_match};
use crate::text::{
    all_digits, chars_of, contains_str, dec_val, dec_val_capped, digit_val, eq_ignore_ascii_case,
    eq_ignore_case, has_sub, is_whitespace, is_ws, lowercase, owned, push_char, slice_chars, str_eq,
    string_from, to_lowercase, to_uppercase, uppercase, utf8_len, utf8_len_capped,
};
use crate::walk::{rewrite_document, rewrite_tree, ElementRewrite};

verus! {

broadcast use vstd::string::group_string_axioms;

/// Which colors become `currentColor`.
pub enum ConvertCurrentColor {
    /// None.
    False,
    /// Every color when `true`, none when `false`.
    Bool(bool),
    /// The colors equal to this text.
    String(String),
    /// The colors that this regular expression matches.
    Regex(String),
}

/// The case that color values are put in.
pub enum ConvertCase {
    /// Left as written.
    Unchanged,
    /// Lower case.
    Lower,
    /// Upper case.
    Upper,
}

/// Settings of the plugin.
pub struct ConvertColorsConfig {
    /// Which colors become `currentColor`.
    pub current_color: ConvertCurrentColor,
    /// Color names become long hex.
    pub names2hex: bool,
    /// `rgb()` becomes long hex.
    pub rgb2hex: bool,
    /// The case of the result.
    pub convert_case: ConvertCase,
    /// Long hex becomes short hex where it can.
    pub shorthex: bool,
    /// Hex becomes a shorter color name where one exists.
    pub shortname: bool,
}

impl Default for ConvertColorsConfig {
    fn default() -> (r: Self)
        ensures
            r.current_color is False,
            r.names2hex,
            r.rgb2hex,
            r.convert_case is Lower,
            r.shorthex,
            r.shortname,
    {
        ConvertColorsConfig {
            current_color: ConvertCurrentColor::False,
            names2hex: true,
            rgb2hex: true,
            convert_case: ConvertCase::Lower,
            shorthex: true,
            shortname: true,
        }
    }
}

/// Plugin that converts colors.
pub struct ConvertColorsPlugin {
    pub config: ConvertColorsConfig,
}

/// The color keywords and their long hex values.
pub open spec fn color_names_table() -> Seq<(&'static str, &'static str)> {
    seq![
        ("black", "#000000"),
        ("silver", "#c0c0c0"),
        ("gray", "#808080"),
        ("white", "#ffffff"),
        ("maroon", "#800000"),
        ("red", "#ff0000"),
        ("purple", "#800080"),
        ("fuchsia", "#ff00ff"),
        ("green", "#008000"),
        ("lime", "#00ff00"),
        ("olive", "#808000"),
        ("yellow", "#ffff00"),
        ("navy", "#000080"),
        ("blue", "#0000ff"),
        ("teal", "#008080"),
        ("aqua", "#00ffff"),
        ("aliceblue", "#f0f8ff"),
        ("antiquewhite", "#faebd7"),
        ("aquamarine", "#7fffd4"),
        ("azure", "#f0ffff"),
        ("beige", "#f5f5dc"),
        ("bisque", "#ffe4c4"),
        ("blanchedalmond", "#ffebcd"),
        ("blueviolet", "#8a2be2"),
        ("brown", "#a52a2a"),
        ("burlywood", "#deb887"),
        ("cadetblue", "#5f9ea0"),
        ("chartreuse", "#7fff00"),
        ("chocolate", "#d2691e"),
        ("coral", "#ff7f50"),
        ("cornflowerblue", "#6495ed"),
        ("cornsilk", "#fff8dc"),
        ("crimson", "#dc143c"),
        ("cyan", "#00ffff"),
        ("darkblue", "#00008b"),
        ("darkcyan", "#008b8b"),
        ("darkgoldenrod", "#b8860b"),
        ("darkgray", "#a9a9a9"),
        ("darkgreen", "#006400"),
        ("darkkhaki", "#bdb76b"),
        ("darkmagenta", "#8b008b"),
        ("darkolivegreen", "#556b2f"),
        ("darkorange", "#ff8c00"),
        ("darkorchid", "#9932cc"),
        ("darkred", "#8b0000"),
        ("darksalmon", "#e9967a"),
        ("darkseagreen", "#8fbc8f"),
        ("darkslateblue", "#483d8b"),
        ("darkslategray", "#2f4f4f"),
        ("darkturquoise", "#00ced1"),
        ("darkviolet", "#9400d3"),
        ("deeppink", "#ff1493"),
        ("deepskyblue", "#00bfff"),
        ("dimgray", "#696969"),
        ("dodgerblue", "#1e90ff"),
        ("firebrick", "#b22222"),
        ("floralwhite", "#fffaf0"),
        ("forestgreen", "#228b22"),
        ("gainsboro", "#dcdcdc"),
        ("ghostwhite", "#f8f8ff"),
        ("gold", "#ffd700"),
        ("goldenrod", "#daa520"),
        ("greenyellow", "#adff2f"),
        ("honeydew", "#f0fff0"),
        ("hotpink", "#ff69b4"),
        ("indianred", "#cd5c5c"),
        ("indigo", "#4b0082"),
        ("ivory", "#fffff0"),
        ("khaki", "#f0e68c"),
        ("lavender", "#e6e6fa"),
        ("lavenderblush", "#fff0f5"),
        ("lawngreen", "#7cfc00"),
        ("lemonchiffon", "#fffacd"),
        ("lightblue", "#add8e6"),
        ("lightcoral", "#f08080"),
        ("lightcyan", "#e0ffff"),
        ("lightgoldenrodyellow", "#fafad2"),
        ("lightgray", "#d3d3d3"),
        ("lightgreen", "#90ee90"),
        ("lightpink", "#ffb6c1"),
        ("lightsalmon", "#ffa07a"),
        ("lightseagreen", "#20b2aa"),
        ("lightskyblue", "#87cefa"),
        ("lightslategray", "#778899"),
        ("lightsteelblue", "#b0c4de"),
        ("lightyellow", "#ffffe0"),
        ("limegreen", "#32cd32"),
        ("linen", "#faf0e6"),
        ("magenta", "#ff00ff"),
        ("mediumaquamarine", "#66cdaa"),
        ("mediumblue", "#0000cd"),
        ("mediumorchid", "#ba55d3"),
        ("mediumpurple", "#9370db"),
        ("mediumseagreen", "#3cb371"),
        ("mediumslateblue", "#7b68ee"),
        ("mediumspringgreen", "#00fa9a"),
        ("mediumturquoise", "#48d1cc"),
        ("mediumvioletred", "#c71585"),
        ("midnightblue", "#191970"),
        ("mintcream", "#f5fffa"),
        ("mistyrose", "#ffe4e1"),
        ("moccasin", "#ffe4b5"),
        ("navajowhite", "#ffdead"),
        ("oldlace", "#fdf5e6"),
        ("olivedrab", "#6b8e23"),
        ("orange", "#ffa500"),
        ("orangered", "#ff4500"),
        ("orchid", "#da70d6"),
        ("palegoldenrod", "#eee8aa"),
        ("palegreen", "#98fb98"),
        ("paleturquoise", "#afeeee"),
        ("palevioletred", "#db7093"),
        ("papayawhip", "#ffefd5"),
        ("peachpuff", "#ffdab9"),
        ("peru", "#cd853f"),
        ("pink", "#ffc0cb"),
        ("plum", "#dda0dd"),
        ("powderblue", "#b0e0e6"),
        ("rosybrown", "#bc8f8f"),
        ("royalblue", "#4169e1"),
        ("saddlebrown", "#8b4513"),
        ("salmon", "#fa8072"),
        ("sandybrown", "#f4a460"),
        ("seagreen", "#2e8b57"),
        ("seashell", "#fff5ee"),
        ("sienna", "#a0522d"),
        ("skyblue", "#87ceeb"),
        ("slateblue", "#6a5acd"),
        ("slategray", "#708090"),
        ("snow", "#fffafa"),
        ("springgreen", "#00ff7f"),
        ("steelblue", "#4682b4"),
        ("tan", "#d2b48c"),
        ("thistle", "#d8bfd8"),
        ("tomato", "#ff6347"),
        ("turquoise", "#40e0d0"),
        ("violet", "#ee82ee"),
        ("wheat", "#f5deb3"),
        ("whitesmoke", "#f5f5f5"),
        ("yellowgreen", "#9acd32")
    ]
}

/// The hex values that have a shorter color name, and the name.
pub open spec fn short_names_table() -> Seq<(&'static str, &'static str)> {
    seq![
        ("#000000", "black"),
        ("#000", "black"),
        ("#000080", "navy"),
        ("#008000", "green"),
        ("#008080", "teal"),
        ("#4b0082", "indigo"),
        ("#800000", "maroon"),
        ("#800080", "purple"),
        ("#808000", "olive"),
        ("#808080", "gray"),
        ("#a0522d", "sienna"),
        ("#a52a2a", "brown"),
        ("#c0c0c0", "silver"),
        ("#cd853f", "peru"),
        ("#d2b48c", "tan"),
        ("#da70d6", "orchid"),
        ("#dda0dd", "plum"),
        ("#ee82ee", "violet"),
        ("#f0e68c", "khaki"),
        ("#f0ffff", "azure"),
        ("#f5deb3", "wheat"),
        ("#f5f5dc", "beige"),
        ("#fa8072", "salmon"),
        ("#faf0e6", "linen"),
        ("#ff0000", "red"),
        ("#f00", "red"),
        ("#ff6347", "tomato"),
        ("#ff7f50", "coral"),
        ("#ffa500", "orange"),
        ("#ffc0cb", "pink"),
        ("#ffd700", "gold"),
        ("#ffe4c4", "bisque"),
        ("#fffafa", "snow"),
        ("#fffff0", "ivory"),
        ("#ffffff", "white"),
        ("#fff", "white")
    ]
}

/// A hex value in its long form: `#rgb` becomes `#rrggbb`, anything else stays.
pub open spec fn long_hex(h: Seq<char>) -> Seq<char> {
    if h.len() == 4 && h[0] == '#' {
        seq!['#', h[1], h[1], h[2], h[2], h[3], h[3]]
    } else {
        h
    }
}

/// Whether entry `j` of the color name table names the color of a short name entry.
pub open spec fn keeps_colour(e: (&'static str, &'static str), j: int) -> bool {
    0 <= j < color_names_table().len() && color_names_table()[j].0@ == e.1@
        && color_names_table()[j].1@ == long_hex(e.0@)
}

/// Replacing a hex value by its short name keeps the color: for each entry of the
/// short name table, the color name table gives that name the same color.
#[verifier::rlimit(100)]
pub proof fn lemma_short_names_keep_colour()
    ensures
        forall|k: int|
            #![trigger short_names_table()[k]]
            0 <= k < short_names_table().len() ==> exists|j: int| keeps_colour(short_names_table()[k], j),
{
        reveal_strlit("#000");
        reveal_strlit("#000000");
        reveal_strlit("#000080");
        reveal_strlit("#008000");
        reveal_strlit("#008080");
        reveal_strlit("#4b0082");
        reveal_strlit("#800000");
        reveal_strlit("#800080");
        reveal_strlit("#808000");
        reveal_strlit("#808080");
        reveal_strlit("#a0522d");
        reveal_strlit("#a52a2a");
        reveal_strlit("#c0c0c0");
        reveal_strlit("#cd853f");
        reveal_strlit("#d2b48c");
        reveal_strlit("#da70d6");
        reveal_strlit("#dda0dd");
        reveal_strlit("#ee82ee");
        reveal_strlit("#f00");
        reveal_strlit("#f0e68c");
        reveal_strlit("#f0ffff");
        reveal_strlit("#f5deb3");
        reveal_strlit("#f5f5dc");
        reveal_strlit("#fa8072");
        reveal_strlit("#faf0e6");
        reveal_strlit("#ff0000");
        reveal_strlit("#ff6347");
        reveal_strlit("#ff7f50");
        reveal_strlit("#ffa500");
        reveal_strlit("#ffc0cb");
        reveal_strlit("#ffd700");
        reveal_strlit("#ffe4c4");
        reveal_strlit("#fff");
        reveal_strlit("#fffafa");
        reveal_strlit("#fffff0");
        reveal_strlit("#ffffff");
        assert(keeps_colour(short_names_table()[0], 0));
        assert(long_hex(short_names_table()[1].0@) =~= color_names_table()[0].1@);
        assert(keeps_colour(short_names_table()[1], 0));
        assert(keeps_colour(short_names_table()[2], 12));
        assert(keeps_colour(short_names_table()[3], 8));
        assert(keeps_colour(short_names_table()[4], 14));
        assert(keeps_colour(short_names_table()[5], 66));
        assert(keeps_colour(short_names_table()[6], 4));
        assert(keeps_colour(short_names_table()[7], 6));
        assert(keeps_colour(short_names_table()[8], 10));
        assert(keeps_colour(short_names_table()[9], 2));
        assert(keeps_colour(short_names_table()[10], 125));
        assert(keeps_colour(short_names_table()[11], 24));
        assert(keeps_colour(short_names_table()[12], 1));
        assert(keeps_colour(short_names_table()[13], 114));
        assert(keeps_colour(short_names_table()[14], 132));
        assert(keeps_colour(short_names_table()[15], 107));
        assert(keeps_colour(short_names_table()[16], 116));
        assert(keeps_colour(short_names_table()[17], 136));
        assert(keeps_colour(short_names_table()[18], 68));
        assert(keeps_colour(short_names_table()[19], 19));
        assert(keeps_colour(short_names_table()[20], 137));
        assert(keeps_colour(short_names_table()[21], 20));
        assert(keeps_colour(short_names_table()[22], 121));
        assert(keeps_colour(short_names_table()[23], 87));
        assert(keeps_colour(short_names_table()[24], 5));
        assert(long_hex(short_names_table()[25].0@) =~= color_names_table()[5].1@);
        assert(keeps_colour(short_names_table()[25], 5));
        assert(keeps_colour(short_names_table()[26], 134));
        assert(keeps_colour(short_names_table()[27], 29));
        assert(keeps_colour(short_names_table()[28], 105));
        assert(keeps_colour(short_names_table()[29], 115));
        assert(keeps_colour(short_names_table()[30], 60));
        assert(keeps_colour(short_names_table()[31], 21));
        assert(keeps_colour(short_names_table()[32], 129));
        assert(keeps_colour(short_names_table()[33], 67));
        assert(keeps_colour(short_names_table()[34], 3));
        assert(long_hex(short_names_table()[35].0@) =~= color_names_table()[3].1@);
        assert(keeps_colour(short_names_table()[35], 3));
}

impl ConvertColorsPlugin {
    /// The color keywords and their long hex values (computed).
    pub fn color_names() -> (v: Vec<(&'static str, &'static str)>)
        ensures
            v@ == color_names_table(),
    {
        vec![
            ("black", "#000000"),
            ("silver", "#c0c0c0"),
            ("gray", "#808080"),
            ("white", "#ffffff"),
            ("maroon", "#800000"),
            ("red", "#ff0000"),
            ("purple", "#800080"),
            ("fuchsia", "#ff00ff"),
            ("green", "#008000"),
            ("lime", "#00ff00"),
            ("olive", "#808000"),
            ("yellow", "#ffff00"),
            ("navy", "#000080"),
            ("blue", "#0000ff"),
            ("teal", "#008080"),
            ("aqua", "#00ffff"),
            ("aliceblue", "#f0f8ff"),
            ("antiquewhite", "#faebd7"),
            ("aquamarine", "#7fffd4"),
            ("azure", "#f0ffff"),
            ("beige", "#f5f5dc"),
            ("bisque", "#ffe4c4"),
            ("blanchedalmond", "#ffebcd"),
            ("blueviolet", "#8a2be2"),
            ("brown", "#a52a2a"),
            ("burlywood", "#deb887"),
            ("cadetblue", "#5f9ea0"),
            ("chartreuse", "#7fff00"),
            ("chocolate", "#d2691e"),
            ("coral", "#ff7f50"),
            ("cornflowerblue", "#6495ed"),
            ("cornsilk", "#fff8dc"),
            ("crimson", "#dc143c"),
            ("cyan", "#00ffff"),
            ("darkblue", "#00008b"),
            ("darkcyan", "#008b8b"),
            ("darkgoldenrod", "#b8860b"),
            ("darkgray", "#a9a9a9"),
            ("darkgreen", "#006400"),
            ("darkkhaki", "#bdb76b"),
            ("darkmagenta", "#8b008b"),
            ("darkolivegreen", "#556b2f"),
            ("darkorange", "#ff8c00"),
            ("darkorchid", "#9932cc"),
            ("darkred", "#8b0000"),
            ("darksalmon", "#e9967a"),
            ("darkseagreen", "#8fbc8f"),
            ("darkslateblue", "#483d8b"),
            ("darkslategray", "#2f4f4f"),
            ("darkturquoise", "#00ced1"),
            ("darkviolet", "#9400d3"),
            ("deeppink", "#ff1493"),
            ("deepskyblue", "#00bfff"),
            ("dimgray", "#696969"),
            ("dodgerblue", "#1e90ff"),
            ("firebrick", "#b22222"),
            ("floralwhite", "#fffaf0"),
            ("forestgreen", "#228b22"),
            ("gainsboro", "#dcdcdc"),
            ("ghostwhite", "#f8f8ff"),
            ("gold", "#ffd700"),
            ("goldenrod", "#daa520"),
            ("greenyellow", "#adff2f"),
            ("honeydew", "#f0fff0"),
            ("hotpink", "#ff69b4"),
            ("indianred", "#cd5c5c"),
            ("indigo", "#4b0082"),
            ("ivory", "#fffff0"),
            ("khaki", "#f0e68c"),
            ("lavender", "#e6e6fa"),
            ("lavenderblush", "#fff0f5"),
            ("lawngreen", "#7cfc00"),
            ("lemonchiffon", "#fffacd"),
            ("lightblue", "#add8e6"),
            ("lightcoral", "#f08080"),
            ("lightcyan", "#e0ffff"),
            ("lightgoldenrodyellow", "#fafad2"),
            ("lightgray", "#d3d3d3"),
            ("lightgreen", "#90ee90"),
            ("lightpink", "#ffb6c1"),
            ("lightsalmon", "#ffa07a"),
            ("lightseagreen", "#20b2aa"),
            ("lightskyblue", "#87cefa"),
            ("lightslategray", "#778899"),
            ("lightsteelblue", "#b0c4de"),
            ("lightyellow", "#ffffe0"),
            ("limegreen", "#32cd32"),
            ("linen", "#faf0e6"),
            ("magenta", "#ff00ff"),
            ("mediumaquamarine", "#66cdaa"),
            ("mediumblue", "#0000cd"),
            ("mediumorchid", "#ba55d3"),
            ("mediumpurple", "#9370db"),
            ("mediumseagreen", "#3cb371"),
            ("mediumslateblue", "#7b68ee"),
            ("mediumspringgreen", "#00fa9a"),
            ("mediumturquoise", "#48d1cc"),
            ("mediumvioletred", "#c71585"),
            ("midnightblue", "#191970"),
            ("mintcream", "#f5fffa"),
            ("mistyrose", "#ffe4e1"),
            ("moccasin", "#ffe4b5"),
            ("navajowhite", "#ffdead"),
            ("oldlace", "#fdf5e6"),
            ("olivedrab", "#6b8e23"),
            ("orange", "#ffa500"),
            ("orangered", "#ff4500"),
            ("orchid", "#da70d6"),
            ("palegoldenrod", "#eee8aa"),
            ("palegreen", "#98fb98"),
            ("paleturquoise", "#afeeee"),
            ("palevioletred", "#db7093"),
            ("papayawhip", "#ffefd5"),
            ("peachpuff", "#ffdab9"),
            ("peru", "#cd853f"),
            ("pink", "#ffc0cb"),
            ("plum", "#dda0dd"),
            ("powderblue", "#b0e0e6"),
            ("rosybrown", "#bc8f8f"),
            ("royalblue", "#4169e1"),
            ("saddlebrown", "#8b4513"),
            ("salmon", "#fa8072"),
            ("sandybrown", "#f4a460"),
            ("seagreen", "#2e8b57"),
            ("seashell", "#fff5ee"),
            ("sienna", "#a0522d"),
            ("skyblue", "#87ceeb"),
            ("slateblue", "#6a5acd"),
            ("slategray", "#708090"),
            ("snow", "#fffafa"),
            ("springgreen", "#00ff7f"),
            ("steelblue", "#4682b4"),
            ("tan", "#d2b48c"),
            ("thistle", "#d8bfd8"),
            ("tomato", "#ff6347"),
            ("turquoise", "#40e0d0"),
            ("violet", "#ee82ee"),
            ("wheat", "#f5deb3"),
            ("whitesmoke", "#f5f5f5"),
            ("yellowgreen", "#9acd32")
        ]
    }
}

impl ConvertColorsPlugin {
    /// The hex values that have a shorter color name (computed).
    pub fn color_short_names() -> (v: Vec<(&'static str, &'static str)>)
        ensures
            v@ == short_names_table(),
    {
        vec![
            ("#000000", "black"),
            ("#000", "black"),
            ("#000080", "navy"),
            ("#008000", "green"),
            ("#008080", "teal"),
            ("#4b0082", "indigo"),
            ("#800000", "maroon"),
            ("#800080", "purple"),
            ("#808000", "olive"),
            ("#808080", "gray"),
            ("#a0522d", "sienna"),
            ("#a52a2a", "brown"),
            ("#c0c0c0", "silver"),
            ("#cd853f", "peru"),
            ("#d2b48c", "tan"),
            ("#da70d6", "orchid"),
            ("#dda0dd", "plum"),
            ("#ee82ee", "violet"),
            ("#f0e68c", "khaki"),
            ("#f0ffff", "azure"),
            ("#f5deb3", "wheat"),
            ("#f5f5dc", "beige"),
            ("#fa8072", "salmon"),
            ("#faf0e6", "linen"),
            ("#ff0000", "red"),
            ("#f00", "red"),
            ("#ff6347", "tomato"),
            ("#ff7f50", "coral"),
            ("#ffa500", "orange"),
            ("#ffc0cb", "pink"),
            ("#ffd700", "gold"),
            ("#ffe4c4", "bisque"),
            ("#fffafa", "snow"),
            ("#fffff0", "ivory"),
            ("#ffffff", "white"),
            ("#fff", "white")
        ]
    }
}

/// The value that a table gives for the first entry whose key is `k`.
pub open spec fn lookup(t: Seq<(&'static str, &'static str)>, k: Seq<char>) -> Option<Seq<char>>
    decreases t.len(),
{
    if t.len() == 0 {
        None
    } else if t[0].0@ == k {
        Some(t[0].1@)
    } else {
        lookup(t.drop_first(), k)
    }
}

/// The value that a table gives for `k` (computed).
fn table_get(t: &Vec<(&'static str, &'static str)>, k: &str) -> (r: Option<&'static str>)
    ensures
        match r {
            Some(v) => lookup(t@, k@) == Some(v@),
            None => lookup(t@, k@).is_none(),
        },
{
    let n = t.len();
    let mut i: usize = 0;
    assert(t@.skip(0) =~= t@);
    while i < n
        invariant
            n == t@.len(),
            0 <= i <= n,
            lookup(t@, k@) == lookup(t@.skip(i as int), k@),
        decreases n - i,
    {
        assert(t@.skip(i as int)[0] == t@[i as int]);
        if str_eq(t[i].0, k) {
            return Some(t[i].1);
        }
        assert(t@.skip(i as int).drop_first() =~= t@.skip(i + 1));
        i += 1;
    }
    None
}

/// The attributes whose values are colors.
pub open spec fn color_prop(name: Seq<char>) -> bool {
    ||| name == "color"@
    ||| name == "fill"@
    ||| name == "stroke"@
    ||| name == "stop-color"@
    ||| name == "flood-color"@
    ||| name == "lighting-color"@
}

/// Whether an attribute's value is a color (computed).
pub fn is_color_prop(name: &str) -> (b: bool)
    ensures
        b == color_prop(name@),
{
    str_eq(name, "color") || str_eq(name, "fill") || str_eq(name, "stroke") || str_eq(
        name,
        "stop-color",
    ) || str_eq(name, "flood-color") || str_eq(name, "lighting-color")
}

/// The uppercase hex digit of `d`.
pub open spec fn hex_digit(d: int) -> char {
    "0123456789ABCDEF"@[d]
}

/// `#RRGGBB` in uppercase hex.
pub open spec fn rgb_hex(r: u8, g: u8, b: u8) -> Seq<char> {
    seq![
        '#',
        hex_digit(r as int / 16),
        hex_digit(r as int % 16),
        hex_digit(g as int / 16),
        hex_digit(g as int % 16),
        hex_digit(b as int / 16),
        hex_digit(b as int % 16),
    ]
}

/// Appends the two uppercase hex digits of `x`.
fn push_hex_byte(out: &mut String, x: u8)
    ensures
        final(out)@ == old(out)@ + seq![hex_digit(x as int / 16), hex_digit(x as int % 16)],
{
    let digits = chars_of("0123456789ABCDEF");
    proof {
        reveal_strlit("0123456789ABCDEF");
    }
    push_char(out, digits[(x / 16) as usize]);
    push_char(out, digits[(x % 16) as usize]);
}

impl ConvertColorsPlugin {
    /// The components as `#RRGGBB` in uppercase hex.
    pub fn rgb_to_hex(r: u8, g: u8, b: u8) -> (s: String)
        ensures
            s@ == rgb_hex(r, g, b),
    {
        let mut s = String::new();
        push_char(&mut s, '#');
        push_hex_byte(&mut s, r);
        push_hex_byte(&mut s, g);
        push_hex_byte(&mut s, b);
        assert(s@ =~= rgb_hex(r, g, b));
        s
    }
}

/// `#abc` for a seven-byte `#aabbcc`, when each pair repeats one character.
pub open spec fn short_hex(s: Seq<char>) -> Option<Seq<char>> {
    if utf8_len(s) == 7 && s.len() == 7 && s[0] == '#' && s[1] == s[2] && s[3] == s[4] && s[5]
        == s[6] {
        Some(seq!['#', s[1], s[3], s[5]])
    } else {
        None
    }
}

/// Short hex of `s` where it exists (computed, for every text).
fn short_hex_of(s: &str) -> (r: Option<String>)
    ensures
        match r {
            Some(v) => short_hex(s@) == Some(v@),
            None => short_hex(s@).is_none(),
        },
{
    let v = chars_of(s);
    let bytes = utf8_len_capped(&v, 8);
    if bytes == 7 && v.len() == 7 && v[0] == '#' && v[1] == v[2] && v[3] == v[4] && v[5] == v[6] {
        let mut out = String::new();
        push_char(&mut out, '#');
        push_char(&mut out, v[1]);
        push_char(&mut out, v[3]);
        push_char(&mut out, v[5]);
        assert(out@ =~= seq!['#', s@[1], s@[3], s@[5]]);
        Some(out)
    } else {
        None
    }
}

impl ConvertColorsPlugin {
    /// `#abc` for `#aabbcc`.
    pub fn hex_to_short_hex(hex: &str) -> (r: Option<String>)
        ensures
            match r {
                Some(v) => short_hex(hex@) == Some(v@),
                None => short_hex(hex@).is_none(),
            },
    {
        short_hex_of(hex)
    }
}

/// Whether `c` separates the components of `rgb()`: white space or a comma.
pub open spec fn is_sep(c: char) -> bool {
    is_ws(c) || c == ','
}

/// The first index from `i` on that holds no white space.
pub open spec fn ws_end(s: Seq<char>, i: int) -> int
    decreases s.len() - i,
{
    if 0 <= i < s.len() && is_ws(s[i]) {
        ws_end(s, i + 1)
    } else {
        i
    }
}

/// The first index from `i` on that holds no separator.
pub open spec fn sep_end(s: Seq<char>, i: int) -> int
    decreases s.len() - i,
{
    if 0 <= i < s.len() && is_sep(s[i]) {
        sep_end(s, i + 1)
    } else {
        i
    }
}

/// The first index from `i` on that holds a separator or `)`.
pub open spec fn tok_end(s: Seq<char>, i: int) -> int
    decreases s.len() - i,
{
    if 0 <= i < s.len() && !is_sep(s[i]) && s[i] != ')' {
        tok_end(s, i + 1)
    } else {
        i
    }
}

/// The three component texts of `rgb(c1 c2 c3)`: after `rgb(`, white space, then
/// components parted by runs of white space and commas, then white space and a final `)`.
pub open spec fn rgb_tokens(s: Seq<char>) -> Option<(Seq<char>, Seq<char>, Seq<char>)> {
    if !(s.len() >= 4 && s[0] == 'r' && s[1] == 'g' && s[2] == 'b' && s[3] == '(') {
        None
    } else {
        let a0 = ws_end(s, 4);
        let a1 = tok_end(s, a0);
        let b0 = sep_end(s, a1);
        let b1 = tok_end(s, b0);
        let c0 = sep_end(s, b1);
        let c1 = tok_end(s, c0);
        let d0 = ws_end(s, c1);
        if b0 > a1 && c0 > b1 && d0 + 1 == s.len() && s[d0] == ')' {
            Some((s.subrange(a0, a1), s.subrange(b0, b1), s.subrange(c0, c1)))
        } else {
            None
        }
    }
}

/// Ten to the power `n`.
pub open spec fn pow10(n: nat) -> nat
    decreases n,
{
    if n == 0 {
        1
    } else {
        10 * pow10((n - 1) as nat)
    }
}

/// The byte for a percentage `p = a + b / 10^n`, negative when `neg`: `p * 2.55`
/// rounded half up and clamped to `0..=255`. The factor `2.55` is the binary
/// floating-point value, slightly below 2.55, so the exact halves 127.5 (at 50%) and
/// 229.5 (at 90%) round down. The percentage itself is taken exactly: written with
/// more digits than a binary `f64` keeps (about 16), it may round otherwise than when
/// read as an `f64` first (`9.99999999999999999%` gives 25 here, 26 that way;
/// `50.000000000000001%` gives 128 here, 127 that way).
pub open spec fn pct_byte(neg: bool, a: nat, b: nat, n: nat) -> u8 {
    if neg || (a == 0 && b == 0) {
        0
    } else if a >= 100 {
        255
    } else if a == 50 && b == 0 {
        127
    } else if a == 90 && b == 0 {
        229
    } else {
        ((51 * (a * pow10(n) + b) + 10 * pow10(n)) / (20 * pow10(n))) as u8
    }
}

/// Position of the first `.` in `s`, or its length.
pub open spec fn dot_pos(s: Seq<char>) -> nat
    decreases s.len(),
{
    if s.len() == 0 {
        0
    } else if s[0] == '.' {
        0
    } else {
        1 + dot_pos(s.drop_first())
    }
}

/// The number without sign and `%`: digits, optionally a `.` and more digits,
/// with at least one digit in all.
pub open spec fn number_parts(body: Seq<char>) -> Option<(Seq<char>, Seq<char>, bool)> {
    let d = dot_pos(body) as int;
    let a = body.take(d);
    let has_dot = d < body.len();
    let b = if has_dot {
        body.skip(d + 1)
    } else {
        Seq::empty()
    };
    if all_digits(a) && all_digits(b) && a.len() + b.len() >= 1 {
        Some((a, b, has_dot))
    } else {
        None
    }
}

/// The byte of one `rgb()` component: an optional sign, a number, an optional `%`.
/// A percentage goes through `pct_byte`; a plain number must be a whole number
/// that fits in `i32`, and is clamped to `0..=255`. Anything else is `None`.
pub open spec fn comp_byte(t: Seq<char>) -> Option<u8> {
    let signed = t.len() > 0 && (t[0] == '+' || t[0] == '-');
    let neg = t.len() > 0 && t[0] == '-';
    let st: int = if signed {
        1
    } else {
        0
    };
    let pct = t.len() > st && t.last() == '%';
    let en: int = if pct {
        t.len() - 1
    } else {
        t.len() as int
    };
    let parts = number_parts(t.subrange(st, en));
    if parts is None {
        None
    } else {
        let (a, b, has_dot) = parts.unwrap();
        if pct {
            Some(pct_byte(neg, dec_val(a), dec_val(b), b.len()))
        } else if has_dot {
            None
        } else if neg {
            if dec_val(a) <= 2147483648 {
                Some(0u8)
            } else {
                None
            }
        } else if dec_val(a) <= 2147483647 {
            Some(if dec_val(a) < 255 {
                dec_val(a) as u8
            } else {
                255u8
            })
        } else {
            None
        }
    }
}

/// The components of an `rgb()` color, each as a byte.
pub open spec fn rgb_value(s: Seq<char>) -> Option<(u8, u8, u8)> {
    if rgb_tokens(s) is None {
        None
    } else {
        let (x, y, z) = rgb_tokens(s).unwrap();
        if comp_byte(x) is Some && comp_byte(y) is Some && comp_byte(z) is Some {
            Some((comp_byte(x).unwrap(), comp_byte(y).unwrap(), comp_byte(z).unwrap()))
        } else {
            None
        }
    }
}

/// The first index from `i` on that holds no white space (computed).
fn ws_end_exec(v: &Vec<char>, i: usize) -> (r: usize)
    requires
        i <= v@.len(),
    ensures
        i <= r <= v@.len(),
        r == ws_end(v@, i as int),
{
    let n = v.len();
    let mut j = i;
    while j < n && is_whitespace(v[j])
        invariant
            n == v@.len(),
            i <= j <= n,
            ws_end(v@, i as int) == ws_end(v@, j as int),
        decreases n - j,
    {
        j += 1;
    }
    j
}

/// The first index from `i` on that holds no separator (computed).
fn sep_end_exec(v: &Vec<char>, i: usize) -> (r: usize)
    requires
        i <= v@.len(),
    ensures
        i <= r <= v@.len(),
        r == sep_end(v@, i as int),
{
    let n = v.len();
    let mut j = i;
    while j < n && (is_whitespace(v[j]) || v[j] == ',')
        invariant
            n == v@.len(),
            i <= j <= n,
            sep_end(v@, i as int) == sep_end(v@, j as int),
        decreases n - j,
    {
        j += 1;
    }
    j
}

/// The first index from `i` on that holds a separator or `)` (computed).
fn tok_end_exec(v: &Vec<char>, i: usize) -> (r: usize)
    requires
        i <= v@.len(),
    ensures
        i <= r <= v@.len(),
        r == tok_end(v@, i as int),
{
    let n = v.len();
    let mut j = i;
    while j < n && !(is_whitespace(v[j]) || v[j] == ',') && v[j] != ')'
        invariant
            n == v@.len(),
            i <= j <= n,
            tok_end(v@, i as int) == tok_end(v@, j as int),
        decreases n - j,
    {
        j += 1;
    }
    j
}

/// Position of the first `.` in `v`, or its length (computed).
pub(crate) fn dot_pos_exec(v: &Vec<char>) -> (r: usize)
    ensures
        r == dot_pos(v@),
        r <= v@.len(),
{
    let n = v.len();
    let mut i: usize = 0;
    assert(v@.skip(0) =~= v@);
    while i < n && v[i] != '.'
        invariant
            n == v@.len(),
            0 <= i <= n,
            dot_pos(v@) == i + dot_pos(v@.skip(i as int)),
        decreases n - i,
    {
        assert(v@.skip(i as int).drop_first() =~= v@.skip(i + 1));
        i += 1;
    }
    i
}

/// Whether `v[a..b]` holds only ASCII digits (computed).
pub(crate) fn all_digits_exec(v: &Vec<char>, a: usize, b: usize) -> (r: bool)
    requires
        a <= b <= v@.len(),
    ensures
        r == all_digits(v@.subrange(a as int, b as int)),
{
    let mut i = a;
    while i < b
        invariant
            a <= i <= b <= v@.len(),
            forall|j: int| a <= j < i ==> '0' <= #[trigger] v@[j] && v@[j] <= '9',
        decreases b - i,
    {
        if !('0' <= v[i] && v[i] <= '9') {
            assert(v@.subrange(a as int, b as int)[i - a] == v@[i as int]);
            return false;
        }
        i += 1;
    }
    assert forall|j: int| 0 <= j < b - a implies crate::text::is_digit(
        #[trigger] v@.subrange(a as int, b as int)[j],
    ) by {
        assert(v@.subrange(a as int, b as int)[j] == v@[a + j]);
    }
    true
}

/// Powers of ten are positive.
proof fn lemma_pow10_pos(n: nat)
    ensures
        pow10(n) > 0,
    decreases n,
{
    if n > 0 {
        lemma_pow10_pos((n - 1) as nat);
    }
}

/// Reading a leading digit: `c t` is worth `c * 10^|t| + t`.
proof fn lemma_dec_val_front(c: char, t: Seq<char>)
    ensures
        dec_val(seq![c] + t) == digit_val(c) * pow10(t.len()) + dec_val(t),
    decreases t.len(),
{
    let u = seq![c] + t;
    if t.len() == 0 {
        assert(u.drop_last() =~= Seq::<char>::empty());
        assert(u.last() == c);
        assert(dec_val(u) == dec_val(u.drop_last()) * 10 + digit_val(u.last()));
        assert(dec_val(u.drop_last()) == 0);
        assert(pow10(0) == 1);
    } else {
        assert(u.drop_last() =~= seq![c] + t.drop_last());
        assert(u.last() == t.last());
        lemma_dec_val_front(c, t.drop_last());
        let x = digit_val(c) as int;
        let p = pow10(t.drop_last().len()) as int;
        let y = dec_val(t.drop_last()) as int;
        assert(pow10(t.len()) == 10 * p);
        assert(dec_val(u) == dec_val(u.drop_last()) * 10 + digit_val(u.last()));
        assert(dec_val(t) == y * 10 + digit_val(t.last()));
        assert(dec_val(u.drop_last()) == x * p + y);
        assert((x * p + y) * 10 == x * (10 * p) + y * 10) by (nonlinear_arith);
        assert(dec_val(u) == (x * p + y) * 10 + digit_val(t.last()));
    }
}

/// `(x * p + y) / (p * c) == (x + y / p) / c` for positive `p` and `c`.
proof fn lemma_div_split(x: int, y: int, p: int, c: int)
    requires
        0 <= x,
        0 <= y,
        0 < p,
        0 < c,
    ensures
        (x * p + y) / (p * c) == (x + y / p) / c,
{
    assert(0 <= x * p) by (nonlinear_arith)
        requires
            0 <= x,
            0 < p,
    ;
    lemma_div_denominator(x * p + y, p, c);
    lemma_hoist_over_denominator(y, x, p as nat);
}

/// `51 * v / 10^n` for the digits `v[lo..hi]`, read from the last digit back.
fn frac51(v: &Vec<char>, lo: usize, hi: usize) -> (r: u64)
    requires
        lo <= hi <= v@.len(),
        all_digits(v@.subrange(lo as int, hi as int)),
    ensures
        r == (51 * dec_val(v@.subrange(lo as int, hi as int))) / pow10((hi - lo) as nat),
        r <= 50,
{
    let mut g: u64 = 0;
    let mut k = hi;
    assert(v@.subrange(hi as int, hi as int) =~= Seq::<char>::empty());
    while k > lo
        invariant
            lo <= k <= hi <= v@.len(),
            all_digits(v@.subrange(lo as int, hi as int)),
            g <= 50,
            g == (51 * dec_val(v@.subrange(k as int, hi as int))) / pow10((hi - k) as nat),
        decreases k,
    {
        let c = v[k - 1];
        assert(v@.subrange(lo as int, hi as int)[k - 1 - lo] == c);
        let d = (c as u32 - 48) as u64;
        let ghost rest = v@.subrange(k as int, hi as int);
        let ghost m = (hi - k) as nat;
        proof {
            assert(v@.subrange(k - 1, hi as int) =~= seq![c] + rest);
            lemma_dec_val_front(c, rest);
            lemma_pow10_pos(m);
            let p = pow10(m) as int;
            let rv = dec_val(rest) as int;
            assert(51 * (d * p + rv) == (51 * d) * p + 51 * rv) by (nonlinear_arith);
            assert(pow10((m + 1) as nat) == p * 10);
            lemma_div_split(51 * d, 51 * rv, p, 10);
        }
        g = (51 * d + g) / 10;
        k -= 1;
    }
    g
}

/// The byte of a percentage whose integer digits are `v[a0..a1]` and whose
/// fraction digits are `v[b0..b1]` (computed).
fn pct_byte_exec(v: &Vec<char>, neg: bool, a0: usize, a1: usize, b0: usize, b1: usize) -> (r: u8)
    requires
        a0 <= a1 <= v@.len(),
        b0 <= b1 <= v@.len(),
        all_digits(v@.subrange(a0 as int, a1 as int)),
        all_digits(v@.subrange(b0 as int, b1 as int)),
    ensures
        r == pct_byte(
            neg,
            dec_val(v@.subrange(a0 as int, a1 as int)),
            dec_val(v@.subrange(b0 as int, b1 as int)),
            (b1 - b0) as nat,
        ),
{
    let a = dec_val_capped(v, a0, a1, 100);
    let bz = dec_val_capped(v, b0, b1, 1);
    if neg || (a == 0 && bz == 0) {
        0
    } else if a >= 100 {
        255
    } else if a == 50 && bz == 0 {
        127
    } else if a == 90 && bz == 0 {
        229
    } else {
        let g = frac51(v, b0, b1);
        let ghost n = (b1 - b0) as nat;
        let ghost bv = dec_val(v@.subrange(b0 as int, b1 as int)) as int;
        proof {
            lemma_pow10_pos(n);
            let p = pow10(n) as int;
            let av = a as int;
            assert(51 * (av * p + bv) + 10 * p == (51 * av + 10) * p + 51 * bv) by (nonlinear_arith);
            assert(20 * p == p * 20);
            lemma_div_split(51 * av + 10, 51 * bv, p, 20);
        }
        ((51 * a + 10 + g) / 20) as u8
    }
}

/// The byte of one `rgb()` component (computed).
fn comp_byte_exec(t: &Vec<char>) -> (r: Option<u8>)
    ensures
        r == comp_byte(t@),
{
    let n = t.len();
    let signed = n > 0 && (t[0] == '+' || t[0] == '-');
    let neg = n > 0 && t[0] == '-';
    let st: usize = if signed {
        1
    } else {
        0
    };
    let pct = n > st && t[n - 1] == '%';
    let en: usize = if pct {
        n - 1
    } else {
        n
    };
    let body = slice_chars(t, st, en);
    let d = dot_pos_exec(&body);
    let bl = body.len();
    let has_dot = d < bl;
    let b0: usize = if has_dot {
        d + 1
    } else {
        bl
    };
    assert(body@.take(d as int) =~= body@.subrange(0, d as int));
    assert(has_dot ==> body@.skip(d + 1) =~= body@.subrange(b0 as int, bl as int));
    assert(!has_dot ==> Seq::<char>::empty() =~= body@.subrange(b0 as int, bl as int));
    if !(all_digits_exec(&body, 0, d) && all_digits_exec(&body, b0, bl) && d + (bl - b0) >= 1) {
        return None;
    }
    if pct {
        Some(pct_byte_exec(&body, neg, 0, d, b0, bl))
    } else if has_dot {
        None
    } else {
        let a = dec_val_capped(&body, 0, d, 2147483649);
        if neg {
            if a <= 2147483648 {
                Some(0u8)
            } else {
                None
            }
        } else if a <= 2147483647 {
            Some(
                if a < 255 {
                    a as u8
                } else {
                    255u8
                },
            )
        } else {
            None
        }
    }
}

impl ConvertColorsPlugin {
    /// The components of an `rgb()` color.
    pub fn parse_rgb(value: &str) -> (r: Option<(u8, u8, u8)>)
        ensures
            r == rgb_value(value@),
    {
        let s = chars_of(value);
        if !(s.len() >= 4 && s[0] == 'r' && s[1] == 'g' && s[2] == 'b' && s[3] == '(') {
            return None;
        }
        let a0 = ws_end_exec(&s, 4);
        let a1 = tok_end_exec(&s, a0);
        let b0 = sep_end_exec(&s, a1);
        let b1 = tok_end_exec(&s, b0);
        let c0 = sep_end_exec(&s, b1);
        let c1 = tok_end_exec(&s, c0);
        let d0 = ws_end_exec(&s, c1);
        if !(b0 > a1 && c0 > b1 && d0 < s.len() && d0 + 1 == s.len() && s[d0] == ')') {
            return None;
        }
        let x = slice_chars(&s, a0, a1);
        let y = slice_chars(&s, b0, b1);
        let z = slice_chars(&s, c0, c1);
        let bx = comp_byte_exec(&x);
        let by = comp_byte_exec(&y);
        let bz = comp_byte_exec(&z);
        match (bx, by, bz) {
            (Some(p), Some(q), Some(w)) => Some((p, q, w)),
            _ => None,
        }
    }
}

/// Whether a value is one of `none`, `inherit`, `transparent`, `currentColor`, in any ASCII case.
pub open spec fn special(v: Seq<char>) -> bool {
    ||| eq_ignore_case(v, "none"@)
    ||| eq_ignore_case(v, "inherit"@)
    ||| eq_ignore_case(v, "transparent"@)
    ||| eq_ignore_case(v, "currentColor"@)
}

/// Whether a value is special (computed).
fn is_special(v: &str) -> (b: bool)
    ensures
        b == special(v@),
{
    eq_ignore_ascii_case(v, "none") || eq_ignore_ascii_case(v, "inherit") || eq_ignore_ascii_case(
        v,
        "transparent",
    ) || eq_ignore_ascii_case(v, "currentColor")
}

impl ConvertColorsPlugin {
    /// Whether a value holds `url(`.
    pub fn includes_url_reference(value: &str) -> (b: bool)
        ensures
            b == has_sub(value@, "url("@),
    {
        contains_str(value, "url(")
    }
}

/// Step one: outside masks, a color that is not special becomes `currentColor` when
/// the setting selects it.
pub open spec fn step_current(c: ConvertCurrentColor, v: Seq<char>, in_mask: bool) -> Seq<char> {
    if in_mask || special(v) {
        v
    } else {
        match c {
            ConvertCurrentColor::Bool(b) => if b {
                "currentColor"@
            } else {
                v
            },
            ConvertCurrentColor::String(t) => if v == t@ {
                "currentColor"@
            } else {
                v
            },
            ConvertCurrentColor::Regex(p) => if pattern_compiles(p@) && pattern_matches(p@, v) {
                "currentColor"@
            } else {
                v
            },
            ConvertCurrentColor::False => v,
        }
    }
}

/// Step two: a color keyword (in any case) becomes its long hex value.
pub open spec fn step_names(on: bool, v: Seq<char>) -> Seq<char> {
    if on && lookup(color_names_table(), lowercase(v)) is Some {
        lookup(color_names_table(), lowercase(v)).unwrap()
    } else {
        v
    }
}

/// Step three: `rgb()` becomes `#RRGGBB`.
pub open spec fn step_rgb(on: bool, v: Seq<char>) -> Seq<char> {
    if on && rgb_value(v) is Some {
        let (r, g, b) = rgb_value(v).unwrap();
        rgb_hex(r, g, b)
    } else {
        v
    }
}

/// Step four: the case changes, except for values with `url(` and special values.
pub open spec fn step_case(c: ConvertCase, v: Seq<char>) -> Seq<char> {
    if has_sub(v, "url("@) || special(v) {
        v
    } else {
        match c {
            ConvertCase::Lower => lowercase(v),
            ConvertCase::Upper => uppercase(v),
            ConvertCase::Unchanged => v,
        }
    }
}

/// Step five: long hex becomes short hex.
pub open spec fn step_short(on: bool, v: Seq<char>) -> Seq<char> {
    if on && short_hex(v) is Some {
        short_hex(v).unwrap()
    } else {
        v
    }
}

/// Step six: outside masks, a hex value with a shorter name becomes that name.
pub open spec fn step_name(on: bool, in_mask: bool, v: Seq<char>) -> Seq<char> {
    if on && !in_mask && lookup(short_names_table(), lowercase(v)) is Some {
        lookup(short_names_table(), lowercase(v)).unwrap()
    } else {
        v
    }
}

/// The value after the first four steps.
pub open spec fn before_short(cfg: ConvertColorsConfig, v: Seq<char>, in_mask: bool) -> Seq<char> {
    step_case(
        cfg.convert_case,
        step_rgb(cfg.rgb2hex, step_names(cfg.names2hex, step_current(cfg.current_color, v, in_mask))),
    )
}

/// The converted value: the six steps in turn.
pub open spec fn converted(cfg: ConvertColorsConfig, v: Seq<char>, in_mask: bool) -> Seq<char> {
    step_name(cfg.shortname, in_mask, step_short(cfg.shorthex, before_short(cfg, v, in_mask)))
}

/// The attributes with every color value converted; `in_mask` says whether the
/// element sits inside a `<mask>`.
pub open spec fn converted_attrs(cfg: ConvertColorsConfig, a: AttrsM, in_mask: bool) -> AttrsM {
    Seq::new(
        a.len(),
        |i: int|
            if color_prop(a[i].0) {
                (a[i].0, converted(cfg, a[i].1, in_mask))
            } else {
                a[i]
            },
    )
}

impl ElementRewrite for ConvertColorsPlugin {
    open spec fn spec_marks(&self, m: ElemM) -> bool {
        m.name == "mask"@
    }

    open spec fn spec_name(&self, m: ElemM, inside: bool) -> Seq<char> {
        m.name
    }

    open spec fn spec_attrs(&self, m: ElemM, inside: bool) -> AttrsM {
        converted_attrs(self.config, m.attrs, inside)
    }

    fn marks(&self, e: &Element) -> (b: bool) {
        e.is_named("mask")
    }

    fn rewrite(&self, e: &mut Element, inside: bool) {
        let ghost a0 = e.attributes@;
        let n = e.attributes.entries.len();
        let mut i: usize = 0;
        while i < n
            invariant
                n == e.attributes.entries@.len(),
                n == a0.len(),
                0 <= i <= n,
                e.name == old(e).name,
                e.namespaces == old(e).namespaces,
                e.children == old(e).children,
                a0 == old(e).attributes@,
                forall|j: int| 0 <= j < i ==> #[trigger] e.attributes@[j] == converted_attrs(self.config, a0, inside)[j],
                forall|j: int| i <= j < n ==> #[trigger] e.attributes@[j] == a0[j],
            decreases n - i,
        {
            assert(e.attributes@[i as int] == a0[i as int]);
            let ghost before = e.attributes@;
            if is_color_prop(e.attributes.entries[i].0.as_str()) {
                let k = e.attributes.entries[i].0.clone();
                let v = self.convert_total(e.attributes.entries[i].1.as_str(), inside);
                e.attributes.entries.set(i, (k, v));
                assert(e.attributes@ =~= before.update(
                    i as int,
                    converted_attrs(self.config, a0, inside)[i as int],
                ));
            } else {
                assert(e.attributes@ =~= before);
            }
            i += 1;
        }
        assert(e.attributes@ =~= converted_attrs(self.config, a0, inside));
    }
}

impl ConvertColorsPlugin {
    /// The plugin with the default settings.
    pub fn new() -> (r: Self)
        ensures
            r.config.current_color is False,
            r.config.names2hex,
            r.config.rgb2hex,
            r.config.convert_case is Lower,
            r.config.shorthex,
            r.config.shortname,
    {
        ConvertColorsPlugin { config: ConvertColorsConfig::default() }
    }

    /// The plugin with the given settings.
    pub fn with_config(config: ConvertColorsConfig) -> (r: Self)
        ensures
            r.config == config,
    {
        ConvertColorsPlugin { config }
    }

    /// The plugin's name.
    pub fn name(&self) -> (r: &'static str)
        ensures
            r@ == "convertColors"@,
    {
        "convertColors"
    }

    /// What the plugin does.
    pub fn description(&self) -> (r: &'static str)
        ensures
            r@ == "Convert colors: rgb() to #rrggbb and #rrggbb to #rgb"@,
    {
        "Convert colors: rgb() to #rrggbb and #rrggbb to #rgb"
    }

    /// The value after the first four steps (computed).
    fn before_short_exec(&self, value: &str, in_mask: bool) -> (r: String)
        ensures
            r@ == before_short(self.config, value@, in_mask),
    {
        let mut val = owned(value);
        let is_sp = is_special(val.as_str());
        if !in_mask && !is_sp {
            match &self.config.current_color {
                ConvertCurrentColor::Bool(b) => {
                    if *b {
                        val = owned("currentColor");
                    }
                },
                ConvertCurrentColor::String(t) => {
                    if str_eq(val.as_str(), t.as_str()) {
                        val = owned("currentColor");
                    }
                },
                ConvertCurrentColor::Regex(p) => {
                    if let Some(true) = regex_is_match(p.as_str(), val.as_str()) {
                        val = owned("currentColor");
                    }
                },
                ConvertCurrentColor::False => {},
            }
        }
        assert(val@ == step_current(self.config.current_color, value@, in_mask));
        if self.config.names2hex {
            let low = to_lowercase(val.as_str());
            let names = ConvertColorsPlugin::color_names();
            if let Some(h) = table_get(&names, low.as_str()) {
                val = owned(h);
            }
        }
        if self.config.rgb2hex {
            if let Some((r, g, b)) = ConvertColorsPlugin::parse_rgb(val.as_str()) {
                val = ConvertColorsPlugin::rgb_to_hex(r, g, b);
            }
        }
        if !ConvertColorsPlugin::includes_url_reference(val.as_str()) && !is_special(val.as_str()) {
            match self.config.convert_case {
                ConvertCase::Lower => {
                    val = to_lowercase(val.as_str());
                },
                ConvertCase::Upper => {
                    val = to_uppercase(val.as_str());
                },
                ConvertCase::Unchanged => {},
            }
        }
        val
    }

    /// Converts one value, on every input (computed).
    fn convert_total(&self, value: &str, in_mask: bool) -> (r: String)
        ensures
            r@ == converted(self.config, value@, in_mask),
    {
        let mut val = self.before_short_exec(value, in_mask);
        if self.config.shorthex {
            if let Some(s) = short_hex_of(val.as_str()) {
                val = s;
            }
        }
        if self.config.shortname && !in_mask {
            let low = to_lowercase(val.as_str());
            let shorts = ConvertColorsPlugin::color_short_names();
            if let Some(nm) = table_get(&shorts, low.as_str()) {
                val = owned(nm);
            }
        }
        val
    }

    /// Converts one color value; `in_mask` says whether it sits inside a `<mask>`.
    pub fn convert_color_value(&self, value: &str, in_mask: bool) -> (r: String)
        ensures
            r@ == converted(self.config, value@, in_mask),
    {
        self.convert_total(value, in_mask)
    }

    /// Converts the color attributes of every element under the root.
    pub fn apply(&self, document: &mut Document) -> (r: Result<(), PluginError>)
        ensures
            r is Ok,
            doc_model(*final(document)) == doc_with_root(
                doc_model(*old(document)),
                rewrite_tree(*self, doc_model(*old(document)).root, false),
            ),
    {
        rewrite_document(self, document);
        Ok(())
    }
}


/// A parameter value as the parameter check reads it.
pub enum ParamValue {
    Bool(bool),
    Str(String),
    /// A number, `null`, an array or an object.
    Other,
}

/// The outcome of checking one parameter.
#[derive(Debug, Clone, Copy, PartialEq, Eq, Structural)]
pub enum ParamCheck {
    /// The parameter is fine.
    Fine,
    /// `currentColor` is neither a boolean nor a text.
    CurrentColorType,
    /// A switch that is no boolean.
    NotBoolean,
    /// `convertCase` is a text other than `lower` and `upper`.
    CaseText,
    /// `convertCase` is neither `false` nor a text.
    CaseType,
    /// No such parameter.
    Unknown,
}

/// What checking the parameter `k` with value `v` finds.
pub open spec fn param_check(k: Seq<char>, v: ParamValue) -> ParamCheck {
    if k == "currentColor"@ {
        match v {
            ParamValue::Other => ParamCheck::CurrentColorType,
            _ => ParamCheck::Fine,
        }
    } else if k == "names2hex"@ || k == "rgb2hex"@ || k == "shorthex"@ || k == "shortname"@ {
        match v {
            ParamValue::Bool(_) => ParamCheck::Fine,
            _ => ParamCheck::NotBoolean,
        }
    } else if k == "convertCase"@ {
        match v {
            ParamValue::Str(t) => if t@ == "lower"@ || t@ == "upper"@ {
                ParamCheck::Fine
            } else {
                ParamCheck::CaseText
            },
            ParamValue::Bool(false) => ParamCheck::Fine,
            _ => ParamCheck::CaseType,
        }
    } else {
        ParamCheck::Unknown
    }
}

/// The position of the first parameter that is not fine, or the number of parameters.
pub open spec fn first_bad_param(ps: Seq<(String, ParamValue)>) -> nat
    decreases ps.len(),
{
    if ps.len() == 0 {
        0
    } else if param_check(ps[0].0@, ps[0].1) != ParamCheck::Fine {
        0
    } else {
        1 + first_bad_param(ps.drop_first())
    }
}

/// Checks one parameter.
pub fn check_param(k: &str, v: &ParamValue) -> (r: ParamCheck)
    ensures
        r == param_check(k@, *v),
{
    if str_eq(k, "currentColor") {
        match v {
            ParamValue::Other => ParamCheck::CurrentColorType,
            _ => ParamCheck::Fine,
        }
    } else if str_eq(k, "names2hex") || str_eq(k, "rgb2hex") || str_eq(k, "shorthex") || str_eq(
        k,
        "shortname",
    ) {
        match v {
            ParamValue::Bool(_) => ParamCheck::Fine,
            _ => ParamCheck::NotBoolean,
        }
    } else if str_eq(k, "convertCase") {
        match v {
            ParamValue::Str(t) => if str_eq(t.as_str(), "lower") || str_eq(t.as_str(), "upper") {
                ParamCheck::Fine
            } else {
                ParamCheck::CaseText
            },
            ParamValue::Bool(b) => if !*b {
                ParamCheck::Fine
            } else {
                ParamCheck::CaseType
            },
            ParamValue::Other => ParamCheck::CaseType,
        }
    } else {
        ParamCheck::Unknown
    }
}

/// Checks the parameters in order: the first one that is not fine, with what is wrong
/// with it, or `Ok` when all are.
pub fn check_params(ps: &Vec<(String, ParamValue)>) -> (r: Result<(), (usize, ParamCheck)>)
    ensures
        r is Ok <==> first_bad_param(ps@) == ps@.len(),
        r matches Err((i, c)) ==> i == first_bad_param(ps@) && i < ps@.len() && c == param_check(
            ps@[i as int].0@,
            ps@[i as int].1,
        ) && c != ParamCheck::Fine,
{
    let n = ps.len();
    let mut i: usize = 0;
    assert(ps@.skip(0) =~= ps@);
    while i < n
        invariant
            n == ps@.len(),
            0 <= i <= n,
            first_bad_param(ps@) == i + first_bad_param(ps@.skip(i as int)),
        decreases n - i,
    {
        assert(ps@.skip(i as int)[0] == ps@[i as int]);
        let c = check_param(ps[i].0.as_str(), &ps[i].1);
        if c != ParamCheck::Fine {
            assert(first_bad_param(ps@.skip(i as int)) == 0);
            return Err((i, c));
        }
        assert(ps@.skip(i as int).drop_first() =~= ps@.skip(i + 1));
        i += 1;
    }
    assert(ps@.skip(n as int).len() == 0);
    Ok(())
}

/// The settings with the default values.
pub open spec fn default_settings() -> ConvertColorsConfig {
    ConvertColorsConfig {
        current_color: ConvertCurrentColor::False,
        names2hex: true,
        rgb2hex: true,
        convert_case: ConvertCase::Lower,
        shorthex: true,
        shortname: true,
    }
}

/// The settings that one more parameter leaves, or `None` when it is refused: a known
/// key takes a value of its kind and ignores any other; `convertCase` refuses a text
/// other than `lower` and `upper`; an unknown key is refused.
pub open spec fn settings_step(c: ConvertColorsConfig, k: Seq<char>, v: ParamValue) -> Option<ConvertColorsConfig> {
    if k == "currentColor"@ {
        match v {
            ParamValue::Bool(b) => Some(ConvertColorsConfig { current_color: ConvertCurrentColor::Bool(b), ..c }),
            ParamValue::Str(t) => Some(ConvertColorsConfig { current_color: ConvertCurrentColor::String(t), ..c }),
            ParamValue::Other => Some(c),
        }
    } else if k == "names2hex"@ {
        match v {
            ParamValue::Bool(b) => Some(ConvertColorsConfig { names2hex: b, ..c }),
            _ => Some(c),
        }
    } else if k == "rgb2hex"@ {
        match v {
            ParamValue::Bool(b) => Some(ConvertColorsConfig { rgb2hex: b, ..c }),
            _ => Some(c),
        }
    } else if k == "shorthex"@ {
        match v {
            ParamValue::Bool(b) => Some(ConvertColorsConfig { shorthex: b, ..c }),
            _ => Some(c),
        }
    } else if k == "shortname"@ {
        match v {
            ParamValue::Bool(b) => Some(ConvertColorsConfig { shortname: b, ..c }),
            _ => Some(c),
        }
    } else if k == "convertCase"@ {
        match v {
            ParamValue::Str(t) => if t@ == "lower"@ {
                Some(ConvertColorsConfig { convert_case: ConvertCase::Lower, ..c })
            } else if t@ == "upper"@ {
                Some(ConvertColorsConfig { convert_case: ConvertCase::Upper, ..c })
            } else {
                None
            },
            ParamValue::Bool(false) => Some(ConvertColorsConfig { convert_case: ConvertCase::Unchanged, ..c }),
            _ => Some(c),
        }
    } else {
        None
    }
}

/// The settings that parameters give, read in order from the defaults, or the position
/// of the first one refused.
pub open spec fn settings_from(ps: Seq<(String, ParamValue)>) -> Result<ConvertColorsConfig, int>
    decreases ps.len(),
{
    if ps.len() == 0 {
        Ok(default_settings())
    } else {
        match settings_from(ps.drop_last()) {
            Ok(c) => match settings_step(c, ps.last().0@, ps.last().1) {
                Some(c2) => Ok(c2),
                None => Err(ps.len() - 1),
            },
            Err(e) => Err(e),
        }
    }
}

/// The settings that one more parameter leaves (computed).
fn settings_step_exec(c: ConvertColorsConfig, k: &str, v: &ParamValue) -> (r: Option<ConvertColorsConfig>)
    ensures
        r == settings_step(c, k@, *v),
{
    let mut c = c;
    if str_eq(k, "currentColor") {
        match v {
            ParamValue::Bool(b) => {
                c.current_color = ConvertCurrentColor::Bool(*b);
            },
            ParamValue::Str(t) => {
                c.current_color = ConvertCurrentColor::String(t.clone());
            },
            ParamValue::Other => {},
        }
        Some(c)
    } else if str_eq(k, "names2hex") {
        if let ParamValue::Bool(b) = v {
            c.names2hex = *b;
        }
        Some(c)
    } else if str_eq(k, "rgb2hex") {
        if let ParamValue::Bool(b) = v {
            c.rgb2hex = *b;
        }
        Some(c)
    } else if str_eq(k, "shorthex") {
        if let ParamValue::Bool(b) = v {
            c.shorthex = *b;
        }
        Some(c)
    } else if str_eq(k, "shortname") {
        if let ParamValue::Bool(b) = v {
            c.shortname = *b;
        }
        Some(c)
    } else if str_eq(k, "convertCase") {
        match v {
            ParamValue::Str(t) => {
                if str_eq(t.as_str(), "lower") {
                    c.convert_case = ConvertCase::Lower;
                    Some(c)
                } else if str_eq(t.as_str(), "upper") {
                    c.convert_case = ConvertCase::Upper;
                    Some(c)
                } else {
                    None
                }
            },
            ParamValue::Bool(b) => {
                if !*b {
                    c.convert_case = ConvertCase::Unchanged;
                }
                Some(c)
            },
            ParamValue::Other => Some(c),
        }
    } else {
        None
    }
}

/// Reads the settings from parameters in order, starting from the defaults; the
/// position of the first refused parameter when there is one.
pub fn settings_from_params(ps: &Vec<(String, ParamValue)>) -> (r: Result<ConvertColorsConfig, usize>)
    ensures
        match r {
            Ok(c) => settings_from(ps@) == Ok::<ConvertColorsConfig, int>(c),
            Err(i) => settings_from(ps@) == Err::<ConvertColorsConfig, int>(i as int),
        },
{
    let mut c = ConvertColorsConfig::default();
    assert(c == default_settings());
    let n = ps.len();
    let mut i: usize = 0;
    assert(ps@.take(0) =~= Seq::<(String, ParamValue)>::empty());
    while i < n
        invariant
            n == ps@.len(),
            0 <= i <= n,
            settings_from(ps@.take(i as int)) == Ok::<ConvertColorsConfig, int>(c),
        decreases n - i,
    {
        assert(ps@.take(i + 1).drop_last() =~= ps@.take(i as int));
        assert(ps@.take(i + 1).last() == ps@[i as int]);
        match settings_step_exec(c, ps[i].0.as_str(), &ps[i].1) {
            Some(c2) => {
                c = c2;
            },
            None => {
                proof {
                    lemma_settings_stop(ps@, i as int);
                }
                return Err(i);
            },
        }
        i += 1;
    }
    assert(ps@.take(n as int) =~= ps@);
    Ok(c)
}

/// Once a parameter is refused, reading more parameters keeps that position.
proof fn lemma_settings_stop(ps: Seq<(String, ParamValue)>, i: int)
    requires
        0 <= i < ps.len(),
        settings_from(ps.take(i + 1)) == Err::<ConvertColorsConfig, int>(i),
    ensures
        settings_from(ps) == Err::<ConvertColorsConfig, int>(i),
    decreases ps.len(),
{
    if ps.len() > i + 1 {
        assert(ps.drop_last().take(i + 1) =~= ps.take(i + 1));
        lemma_settings_stop(ps.drop_last(), i);
    } else {
        assert(ps.take(i + 1) =~= ps);
    }
}

/// The attributes whose values are colors and get converted: `color`, `fill`, `stroke`,
/// `stop-color`, `flood-color` and `lighting-color`; every other attribute keeps its
/// value. On any element (`inside` saying whether an ancestor is a `<mask>`), each
/// attribute keeps its name and place, and its value is converted exactly when its name
/// is one of these six.
pub proof fn lemma_color_attributes_converted(p: ConvertColorsPlugin, m: ElemM, inside: bool, i: int)
    requires
        0 <= i < m.attrs.len(),
    ensures
        ({
            let r = rewrite_tree(p, m, inside);
            let ins = inside || m.name == "mask"@;
            let n = m.attrs[i].0;
            let named = n == "color"@ || n == "fill"@ || n == "stroke"@ || n == "stop-color"@ || n
                == "flood-color"@ || n == "lighting-color"@;
            &&& r.attrs.len() == m.attrs.len()
            &&& r.attrs[i].0 == n
            &&& named ==> r.attrs[i].1 == converted(p.config, m.attrs[i].1, ins)
            &&& !named ==> r.attrs[i].1 == m.attrs[i].1
        }),
{
}
} // verus!
