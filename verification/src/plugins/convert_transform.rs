//! Settings of the plugin that collapses and shortens transforms, and the reading of
//! transform lists. The matrix arithmetic itself is binary floating point and is not
//! part of this library.
use vstd::prelude::*;
use crate::pattern::{captures_model, pattern_captures, pattern_compiles, regex_captures};
use crate::plugins::apply_transforms::{calls_view, comma_to_space, float_texts, number_texts};
use crate::text::{chars_of, words};

verus! {

/// The pattern of one transform function: its name and the text between its brackets.
pub const TRANSFORM_FUNCTION_PATTERN: &'static str =
    r"\s*(matrix|translate|scale|rotate|skewX|skewY)\s*\(\s*([^)]*)\s*\)";

/// The function a match of the transform pattern gives: the name (group 1) and the
/// texts of the numbers of its arguments (group 2), between commas and white space.
pub open spec fn capture_call(c: Seq<Option<Seq<char>>>) -> Option<(Seq<char>, Seq<Seq<char>>)> {
    if c.len() > 2 && c[1] is Some && c[2] is Some {
        Some((c[1].unwrap(), float_texts(words(comma_to_space(c[2].unwrap())))))
    } else {
        None
    }
}

/// The functions the matches give, in order.
pub open spec fn capture_calls(cs: Seq<Seq<Option<Seq<char>>>>) -> Seq<(Seq<char>, Seq<Seq<char>>)>
    decreases cs.len(),
{
    if cs.len() == 0 {
        seq![]
    } else {
        capture_calls(cs.drop_last()) + match capture_call(cs.last()) {
            Some(c) => seq![c],
            None => seq![],
        }
    }
}

/// The transform functions, with the texts of their numbers, that the matches of the
/// transform pattern give.
pub fn calls_from_captures(caps: &Vec<Vec<Option<String>>>) -> (r: Vec<(String, Vec<String>)>)
    ensures
        calls_view(r@) == capture_calls(captures_model(caps@)),
{
    let ghost cm = captures_model(caps@);
    let mut out: Vec<(String, Vec<String>)> = Vec::new();
    let n = caps.len();
    let mut i: usize = 0;
    assert(cm.take(0) =~= Seq::<Seq<Option<Seq<char>>>>::empty());
    assert(calls_view(out@) =~= seq![]);
    while i < n
        invariant
            n == caps@.len(),
            cm == captures_model(caps@),
            0 <= i <= n,
            calls_view(out@) == capture_calls(cm.take(i as int)),
        decreases n - i,
    {
        assert(cm.take(i + 1).drop_last() =~= cm.take(i as int));
        let c = &caps[i];
        let ghost g = cm[i as int];
        assert(g.len() == c@.len());
        if c.len() > 2 {
            match (&c[1], &c[2]) {
                (Some(name), Some(data)) => {
                    assert(g[1] == Some(name@) && g[2] == Some(data@));
                    let nums = number_texts(&chars_of(data.as_str()));
                    let ghost before = calls_view(out@);
                    out.push((name.clone(), nums));
                    assert(calls_view(out@) =~= before + seq![capture_call(g).unwrap()]);
                },
                _ => {
                    assert(capture_call(g) is None);
                    assert(calls_view(out@) =~= calls_view(out@) + Seq::<(Seq<char>, Seq<Seq<char>>)>::empty());
                },
            }
        } else {
            assert(calls_view(out@) =~= calls_view(out@) + Seq::<(Seq<char>, Seq<Seq<char>>)>::empty());
        }
        i += 1;
    }
    assert(cm.take(n as int) =~= cm);
    out
}

/// The transform functions of a transform list, found by the transform pattern, with
/// the texts of their numbers; `None` exactly when the pattern does not compile.
pub fn parse_transform_string(transform_str: &str) -> (r: Option<Vec<(String, Vec<String>)>>)
    ensures
        r is Some <==> pattern_compiles(TRANSFORM_FUNCTION_PATTERN@),
        r matches Some(v) ==> calls_view(v@) == capture_calls(
            pattern_captures(TRANSFORM_FUNCTION_PATTERN@, transform_str@),
        ),
{
    match regex_captures(TRANSFORM_FUNCTION_PATTERN, transform_str) {
        Some(caps) => Some(calls_from_captures(&caps)),
        None => None,
    }
}

/// Settings of the plugin.
pub struct ConvertTransformConfig {
    /// Convert matrices to shorter aliases (translate, scale, rotate).
    pub convert_to_shorts: bool,
    /// Decimal places of angles.
    pub deg_precision: Option<u8>,
    /// Decimal places of other numbers.
    pub float_precision: u8,
    /// Decimal places of matrix entries.
    pub transform_precision: u8,
    /// Convert matrices to transform functions.
    pub matrix_to_transform: bool,
    /// Use the short form of `translate`.
    pub short_translate: bool,
    /// Use the short form of `scale`.
    pub short_scale: bool,
    /// Use the short form of `rotate`.
    pub short_rotate: bool,
    /// Remove transforms that do nothing.
    pub remove_useless: bool,
    /// Collapse several transforms into one.
    pub collapse_into_one: bool,
    /// Keep the zero before a decimal point.
    pub leading_zero: bool,
    /// Put an extra space before negative numbers.
    pub negative_extra_space: bool,
}

impl Default for ConvertTransformConfig {
    fn default() -> (r: Self)
        ensures
            r.convert_to_shorts,
            r.deg_precision.is_none(),
            r.float_precision == 3,
            r.transform_precision == 5,
            r.matrix_to_transform,
            r.short_translate,
            r.short_scale,
            r.short_rotate,
            r.remove_useless,
            r.collapse_into_one,
            r.leading_zero,
            !r.negative_extra_space,
    {
        ConvertTransformConfig {
            convert_to_shorts: true,
            deg_precision: None,
            float_precision: 3,
            transform_precision: 5,
            matrix_to_transform: true,
            short_translate: true,
            short_scale: true,
            short_rotate: true,
            remove_useless: true,
            collapse_into_one: true,
            leading_zero: true,
            negative_extra_space: false,
        }
    }
}

/// Plugin that collapses and shortens transforms.
pub struct ConvertTransformPlugin {
    pub config: ConvertTransformConfig,
}

impl ConvertTransformPlugin {
    /// The plugin with the default settings.
    pub fn new() -> (r: Self)
        ensures
            r.config.convert_to_shorts,
            r.config.deg_precision.is_none(),
            r.config.float_precision == 3,
            r.config.transform_precision == 5,
            r.config.matrix_to_transform,
            r.config.short_translate,
            r.config.short_scale,
            r.config.short_rotate,
            r.config.remove_useless,
            r.config.collapse_into_one,
            r.config.leading_zero,
            !r.config.negative_extra_space,
    {
        ConvertTransformPlugin { config: ConvertTransformConfig::default() }
    }

    /// The plugin with the given settings.
    pub fn with_config(config: ConvertTransformConfig) -> (r: Self)
        ensures
            r.config == config,
    {
        ConvertTransformPlugin { config }
    }

    /// The plugin's name.
    pub fn name(&self) -> (r: &'static str)
        ensures
            r@ == "convertTransform"@,
    {
        "convertTransform"
    }

    /// What the plugin does.
    pub fn description(&self) -> (r: &'static str)
        ensures
            r@ == "collapses multiple transformations and optimizes it"@,
    {
        "collapses multiple transformations and optimizes it"
    }
}

} // verus!
