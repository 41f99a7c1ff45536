//! Settings of the plugin that rounds numeric values, and the attribute and property
//! classes it works on. The rounding itself is binary floating point and is not part
//! of this library.
use vstd::prelude::*;
use crate::text::{
    char_pos, char_pos_exec, chars_of, extend_chars, extend_str, skip_chars, slice_chars, split_char,
    split_on, str_eq, string_from, trim_chars, trim_seq,
};

verus! {

broadcast use vstd::string::group_string_axioms;

/// Settings of the plugin.
pub struct CleanupNumericValuesParams {
    /// Decimal places to round to.
    pub float_precision: u8,
    /// Keep the zero before a decimal point (`0.5` rather than `.5`).
    pub leading_zero: bool,
    /// Remove the default `px` unit.
    pub default_px: bool,
    /// Convert other units to `px` where shorter.
    pub convert_to_px: bool,
}

impl Default for CleanupNumericValuesParams {
    fn default() -> (r: Self)
        ensures
            r.float_precision == 3,
            r.leading_zero,
            r.default_px,
            r.convert_to_px,
    {
        CleanupNumericValuesParams {
            float_precision: 3,
            leading_zero: true,
            default_px: true,
            convert_to_px: true,
        }
    }
}

/// Plugin that rounds numeric values.
pub struct CleanupNumericValuesPlugin {
    pub params: CleanupNumericValuesParams,
}

/// The attributes whose numbers default to `px`.
pub open spec fn px_context(n: Seq<char>) -> bool {
    ||| n == "x"@ || n == "y"@ || n == "x1"@ || n == "y1"@ || n == "x2"@ || n == "y2"@
    ||| n == "width"@ || n == "height"@ || n == "rx"@ || n == "ry"@ || n == "r"@
    ||| n == "cx"@ || n == "cy"@ || n == "fx"@ || n == "fy"@
    ||| n == "markerWidth"@ || n == "markerHeight"@ || n == "refX"@ || n == "refY"@
    ||| n == "stroke-width"@ || n == "stroke-dasharray"@ || n == "stroke-dashoffset"@
    ||| n == "font-size"@ || n == "letter-spacing"@ || n == "word-spacing"@
    ||| n == "baseline-shift"@
}

/// `is_default_px_context` holds exactly for the length attributes and properties named
/// in this statement, whose numbers default to `px`.
pub proof fn lemma_px_context_names(n: Seq<char>)
    ensures
        px_context(n) <==> (n == "baseline-shift"@ || n == "word-spacing"@ || n == "letter-spacing"@ || n == "font-size"@ || n == "stroke-dashoffset"@ || n == "stroke-dasharray"@ || n == "stroke-width"@ || n == "refY"@ || n == "refX"@ || n == "markerHeight"@ || n == "markerWidth"@ || n == "fy"@ || n == "fx"@ || n == "cy"@ || n == "cx"@ || n == "r"@ || n == "ry"@ || n == "rx"@ || n == "height"@ || n == "width"@ || n == "y2"@ || n == "x2"@ || n == "y1"@ || n == "x1"@ || n == "y"@ || n == "x"@),
{
}

/// The attributes whose values are left exactly as written.
pub open spec fn exact_attr(n: Seq<char>) -> bool {
    n == "version"@ || n == "id"@ || n == "class"@ || n == "preserveAspectRatio"@ || n
        == "xml:space"@
}

/// The attributes whose values the plugin leaves exactly as written are `version`, `id`,
/// `class`, `preserveAspectRatio` and `xml:space`.
pub proof fn lemma_exact_attr_names(n: Seq<char>)
    ensures
        exact_attr(n) <==> (n == "xml:space"@ || n == "preserveAspectRatio"@ || n == "class"@ || n == "id"@ || n == "version"@),
{
}

/// The style properties whose values are numeric.
pub open spec fn numeric_property(n: Seq<char>) -> bool {
    ||| n == "font-size"@ || n == "letter-spacing"@ || n == "word-spacing"@
    ||| n == "line-height"@ || n == "stroke-width"@ || n == "stroke-dasharray"@
    ||| n == "stroke-dashoffset"@ || n == "opacity"@ || n == "fill-opacity"@
    ||| n == "stroke-opacity"@ || n == "stop-opacity"@ || n == "flood-opacity"@
    ||| n == "baseline-shift"@ || n == "kerning"@ || n == "margin"@ || n == "padding"@
    ||| n == "border-width"@ || n == "border-radius"@
}

/// `is_numeric_property` holds exactly for the style properties named in this statement.
pub proof fn lemma_numeric_property_names(n: Seq<char>)
    ensures
        numeric_property(n) <==> (n == "border-radius"@ || n == "border-width"@ || n == "padding"@ || n == "margin"@ || n == "kerning"@ || n == "baseline-shift"@ || n == "flood-opacity"@ || n == "stop-opacity"@ || n == "stroke-opacity"@ || n == "fill-opacity"@ || n == "opacity"@ || n == "stroke-dashoffset"@ || n == "stroke-dasharray"@ || n == "stroke-width"@ || n == "line-height"@ || n == "word-spacing"@ || n == "letter-spacing"@ || n == "font-size"@),
{
}

/// The attributes whose values are transform lists.
pub open spec fn transform_attr(n: Seq<char>) -> bool {
    n == "transform"@ || n == "gradientTransform"@ || n == "patternTransform"@
}

/// The attributes read as transform lists are `transform`, `gradientTransform` and
/// `patternTransform`.
pub proof fn lemma_transform_attr_names(n: Seq<char>)
    ensures
        transform_attr(n) <==> (n == "patternTransform"@ || n == "gradientTransform"@ || n == "transform"@),
{
}

/// A style declaration read from one piece of a style value: the property and the
/// value around the first `:`, trimmed, or the trimmed piece when it has no `:`.
pub open spec fn style_decl(piece: Seq<char>) -> (Seq<char>, Option<Seq<char>>) {
    let t = trim_seq(piece);
    let p = char_pos(t, ':') as int;
    if p < t.len() {
        (trim_seq(t.take(p)), Some(trim_seq(t.skip(p + 1))))
    } else {
        (t, None)
    }
}

/// The declarations of the pieces of a style value, blank pieces skipped.
pub open spec fn style_decls(pieces: Seq<Seq<char>>) -> Seq<(Seq<char>, Option<Seq<char>>)>
    decreases pieces.len(),
{
    if pieces.len() == 0 {
        seq![]
    } else {
        style_decls(pieces.drop_last()) + if trim_seq(pieces.last()).len() == 0 {
            seq![]
        } else {
            seq![style_decl(pieces.last())]
        }
    }
}

/// Model of a list of declarations.
pub open spec fn decls_view(v: Seq<(String, Option<String>)>) -> Seq<(Seq<char>, Option<Seq<char>>)> {
    Seq::new(
        v.len(),
        |i: int|
            (
                v[i].0@,
                match v[i].1 {
                    Some(x) => Some(x@),
                    None => None,
                },
            ),
    )
}

/// The text of one declaration: `property: value`, or the piece as it was.
pub open spec fn decl_text(d: (Seq<char>, Option<Seq<char>>)) -> Seq<char> {
    match d.1 {
        Some(v) => d.0 + ": "@ + v,
        None => d.0,
    }
}

/// The text of declarations, joined by `; `.
pub open spec fn style_text(ds: Seq<(Seq<char>, Option<Seq<char>>)>) -> Seq<char>
    decreases ds.len(),
{
    if ds.len() == 0 {
        seq![]
    } else if ds.len() == 1 {
        decl_text(ds[0])
    } else {
        style_text(ds.drop_last()) + "; "@ + decl_text(ds.last())
    }
}

/// The declarations of a style value, in order: the pieces between `;`, blank ones
/// skipped, each split at its first `:` and trimmed.
pub fn style_declarations(style: &str) -> (r: Vec<(String, Option<String>)>)
    ensures
        decls_view(r@) == style_decls(split_on(style@, ';')),
{
    let pieces = split_char(&chars_of(style), ';');
    let ghost ps = split_on(style@, ';');
    let mut out: Vec<(String, Option<String>)> = Vec::new();
    let n = pieces.len();
    let mut i: usize = 0;
    assert(ps.take(0) =~= Seq::<Seq<char>>::empty());
    assert(decls_view(out@) =~= seq![]);
    while i < n
        invariant
            n == pieces@.len(),
            n == ps.len(),
            forall|k: int| 0 <= k < n ==> #[trigger] pieces@[k]@ == ps[k],
            0 <= i <= n,
            decls_view(out@) == style_decls(ps.take(i as int)),
        decreases n - i,
    {
        assert(ps.take(i + 1).drop_last() =~= ps.take(i as int));
        assert(pieces@[i as int]@ == ps[i as int]);
        let t = trim_chars(&pieces[i]);
        if t.len() > 0 {
            let p = char_pos_exec(&t, ':');
            let d: (String, Option<String>) = if p < t.len() {
                let head = slice_chars(&t, 0, p);
                assert(head@ =~= t@.take(p as int));
                let tail = skip_chars(&t, p + 1);
                (string_from(&trim_chars(&head)), Some(string_from(&trim_chars(&tail))))
            } else {
                (string_from(&t), None)
            };
            let ghost before = out@;
            out.push(d);
            assert(decls_view(out@) =~= decls_view(before) + seq![style_decl(ps[i as int])]);
        } else {
            assert(decls_view(out@) =~= decls_view(out@) + Seq::<(Seq<char>, Option<Seq<char>>)>::empty());
        }
        i += 1;
    }
    assert(ps.take(n as int) =~= ps);
    out
}

/// Writes declarations back as a style value: `property: value` or the piece as it
/// was, joined by `; `.
pub fn join_style(decls: &Vec<(String, Option<String>)>) -> (r: String)
    ensures
        r@ == style_text(decls_view(decls@)),
{
    let ghost dv = decls_view(decls@);
    let mut out: Vec<char> = Vec::new();
    let n = decls.len();
    let mut i: usize = 0;
    assert(dv.take(0) =~= Seq::<(Seq<char>, Option<Seq<char>>)>::empty());
    while i < n
        invariant
            n == decls@.len(),
            dv == decls_view(decls@),
            0 <= i <= n,
            out@ == style_text(dv.take(i as int)),
        decreases n - i,
    {
        assert(dv.take(i + 1).drop_last() =~= dv.take(i as int));
        assert(dv.take(i + 1).last() == dv[i as int]);
        if i > 0 {
            extend_str(&mut out, "; ");
        } else {
            assert(dv.take(1)[0] == dv[0]);
        }
        extend_chars(&mut out, &chars_of(decls[i].0.as_str()));
        match &decls[i].1 {
            Some(v) => {
                extend_str(&mut out, ": ");
                extend_chars(&mut out, &chars_of(v.as_str()));
            },
            None => {},
        }
        proof {
            reveal_strlit("; ");
            reveal_strlit(": ");
            let d = dv[i as int];
            if i > 0 {
                assert(out@ =~= style_text(dv.take(i as int)) + "; "@ + decl_text(d));
            } else {
                assert(out@ =~= decl_text(d));
            }
        }
        i += 1;
    }
    assert(dv.take(n as int) =~= dv);
    string_from(&out)
}

impl CleanupNumericValuesPlugin {
    /// The plugin with the default settings.
    pub fn new() -> (r: Self)
        ensures
            r.params.float_precision == 3,
            r.params.leading_zero,
            r.params.default_px,
            r.params.convert_to_px,
    {
        CleanupNumericValuesPlugin { params: CleanupNumericValuesParams::default() }
    }

    /// The plugin with the given settings.
    pub fn with_params(params: CleanupNumericValuesParams) -> (r: Self)
        ensures
            r.params == params,
    {
        CleanupNumericValuesPlugin { params }
    }

    /// The plugin's name.
    pub fn name(&self) -> (r: &'static str)
        ensures
            r@ == "cleanupNumericValues"@,
    {
        "cleanupNumericValues"
    }

    /// What the plugin does.
    pub fn description(&self) -> (r: &'static str)
        ensures
            r@ == "Round numeric values to the fixed precision, remove default px units"@,
    {
        "Round numeric values to the fixed precision, remove default px units"
    }

    /// Whether the numbers of attribute `name` default to `px`.
    pub fn is_default_px_context(name: &str) -> (r: bool)
        ensures
            r == px_context(name@),
    {
        str_eq(name, "x") || str_eq(name, "y") || str_eq(name, "x1") || str_eq(name, "y1")
            || str_eq(name, "x2") || str_eq(name, "y2") || str_eq(name, "width") || str_eq(
            name,
            "height",
        ) || str_eq(name, "rx") || str_eq(name, "ry") || str_eq(name, "r") || str_eq(name, "cx")
            || str_eq(name, "cy") || str_eq(name, "fx") || str_eq(name, "fy") || str_eq(
            name,
            "markerWidth",
        ) || str_eq(name, "markerHeight") || str_eq(name, "refX") || str_eq(name, "refY")
            || str_eq(name, "stroke-width") || str_eq(name, "stroke-dasharray") || str_eq(
            name,
            "stroke-dashoffset",
        ) || str_eq(name, "font-size") || str_eq(name, "letter-spacing") || str_eq(
            name,
            "word-spacing",
        ) || str_eq(name, "baseline-shift")
    }

    /// Whether the value of attribute `name` is rounded at all.
    pub fn should_process_attribute(name: &str) -> (r: bool)
        ensures
            r == !exact_attr(name@),
    {
        !(str_eq(name, "version") || str_eq(name, "id") || str_eq(name, "class") || str_eq(
            name,
            "preserveAspectRatio",
        ) || str_eq(name, "xml:space"))
    }

    /// Whether style property `property` holds numbers.
    pub fn is_numeric_css_property(property: &str) -> (r: bool)
        ensures
            r == numeric_property(property@),
    {
        str_eq(property, "font-size") || str_eq(property, "letter-spacing") || str_eq(
            property,
            "word-spacing",
        ) || str_eq(property, "line-height") || str_eq(property, "stroke-width") || str_eq(
            property,
            "stroke-dasharray",
        ) || str_eq(property, "stroke-dashoffset") || str_eq(property, "opacity") || str_eq(
            property,
            "fill-opacity",
        ) || str_eq(property, "stroke-opacity") || str_eq(property, "stop-opacity") || str_eq(
            property,
            "flood-opacity",
        ) || str_eq(property, "baseline-shift") || str_eq(property, "kerning") || str_eq(
            property,
            "margin",
        ) || str_eq(property, "padding") || str_eq(property, "border-width") || str_eq(
            property,
            "border-radius",
        )
    }

    /// Whether attribute `name` holds a transform list.
    pub fn is_transform_attribute(name: &str) -> (r: bool)
        ensures
            r == transform_attr(name@),
    {
        str_eq(name, "transform") || str_eq(name, "gradientTransform") || str_eq(
            name,
            "patternTransform",
        )
    }
}

} // verus!
