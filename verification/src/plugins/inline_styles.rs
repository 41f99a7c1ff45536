//! Moves the rules of `<style>` sheets into the `style` attributes of the elements
//! they match.
use vstd::prelude::*;
use crate::ast::{
    attr_get, attr_set, doc_model, lemma_attr_set_get, doc_with_root, elem_model, node_elems, node_model, nodes_model,
    take_root, tree_elems, Attributes, AttrsM, Document, ElemM, Element, Node, NodeM, PluginError,
};
use crate::css::{css_rule_tokens, stylesheet_tokens, token_model, tokens_model, CssToken, CssTokenM};
use crate::plugins::merge_styles::{sheet_of, MergeStylesPlugin};
use crate::text::{
    chars_eq, chars_of, contains_str, count_char, count_char_exec, extend_str, has_sub, in_table,
    owned, skip_chars, split_char, split_on, split_whitespace, string_from, strings_view, table_has, trim_chars,
    trim_seq, words,
};

verus! {

broadcast use vstd::string::group_string_axioms;

/// Settings of the plugin.
pub struct InlineStylesConfig {
    /// Inline only rules that match a single element (accepted, not acted on).
    pub only_matched_once: bool,
    /// Empty the style sheets once their rules are inlined.
    pub remove_matched_selectors: bool,
    /// Read the rules inside `@media` rules.
    pub use_mqs: bool,
    /// Read rules whose selectors hold pseudo-classes or pseudo-elements.
    pub use_pseudos: bool,
}

impl Default for InlineStylesConfig {
    fn default() -> (r: Self)
        ensures
            r.only_matched_once,
            r.remove_matched_selectors,
            r.use_mqs,
            r.use_pseudos,
    {
        InlineStylesConfig {
            only_matched_once: true,
            remove_matched_selectors: true,
            use_mqs: true,
            use_pseudos: true,
        }
    }
}

/// Plugin that inlines the rules of style sheets.
pub struct InlineStylesPlugin {
    pub config: InlineStylesConfig,
}

/// The SVG presentation attributes, the only properties a rule carries over.
pub open spec fn presentation_attrs() -> Seq<&'static str> {
    seq![
        "alignment-baseline",
        "baseline-shift",
        "clip",
        "clip-path",
        "clip-rule",
        "color",
        "color-interpolation",
        "color-interpolation-filters",
        "color-profile",
        "color-rendering",
        "cursor",
        "direction",
        "display",
        "dominant-baseline",
        "enable-background",
        "fill",
        "fill-opacity",
        "fill-rule",
        "filter",
        "flood-color",
        "flood-opacity",
        "font-family",
        "font-size",
        "font-size-adjust",
        "font-stretch",
        "font-style",
        "font-variant",
        "font-weight",
        "glyph-orientation-horizontal",
        "glyph-orientation-vertical",
        "image-rendering",
        "kerning",
        "letter-spacing",
        "lighting-color",
        "marker-end",
        "marker-mid",
        "marker-start",
        "mask",
        "opacity",
        "overflow",
        "pointer-events",
        "shape-rendering",
        "stop-color",
        "stop-opacity",
        "stroke",
        "stroke-dasharray",
        "stroke-dashoffset",
        "stroke-linecap",
        "stroke-linejoin",
        "stroke-miterlimit",
        "stroke-opacity",
        "stroke-width",
        "text-anchor",
        "text-decoration",
        "text-rendering",
        "unicode-bidi",
        "visibility",
        "word-spacing",
        "writing-mode",
    ]
}

/// The presentation attributes, which a declaration may become and which styles are
/// inlined into, are exactly the SVG presentation attributes named in this statement.
pub proof fn lemma_presentation_attrs_members(n: Seq<char>)
    ensures
        in_table(presentation_attrs(), n) <==> (n == "alignment-baseline"@
            || n == "baseline-shift"@
            || n == "clip"@
            || n == "clip-path"@
            || n == "clip-rule"@
            || n == "color"@
            || n == "color-interpolation"@
            || n == "color-interpolation-filters"@
            || n == "color-profile"@
            || n == "color-rendering"@
            || n == "cursor"@
            || n == "direction"@
            || n == "display"@
            || n == "dominant-baseline"@
            || n == "enable-background"@
            || n == "fill"@
            || n == "fill-opacity"@
            || n == "fill-rule"@
            || n == "filter"@
            || n == "flood-color"@
            || n == "flood-opacity"@
            || n == "font-family"@
            || n == "font-size"@
            || n == "font-size-adjust"@
            || n == "font-stretch"@
            || n == "font-style"@
            || n == "font-variant"@
            || n == "font-weight"@
            || n == "glyph-orientation-horizontal"@
            || n == "glyph-orientation-vertical"@
            || n == "image-rendering"@
            || n == "kerning"@
            || n == "letter-spacing"@
            || n == "lighting-color"@
            || n == "marker-end"@
            || n == "marker-mid"@
            || n == "marker-start"@
            || n == "mask"@
            || n == "opacity"@
            || n == "overflow"@
            || n == "pointer-events"@
            || n == "shape-rendering"@
            || n == "stop-color"@
            || n == "stop-opacity"@
            || n == "stroke"@
            || n == "stroke-dasharray"@
            || n == "stroke-dashoffset"@
            || n == "stroke-linecap"@
            || n == "stroke-linejoin"@
            || n == "stroke-miterlimit"@
            || n == "stroke-opacity"@
            || n == "stroke-width"@
            || n == "text-anchor"@
            || n == "text-decoration"@
            || n == "text-rendering"@
            || n == "unicode-bidi"@
            || n == "visibility"@
            || n == "word-spacing"@
            || n == "writing-mode"@),
{
    if in_table(presentation_attrs(), n) {
        lemma_presentation_attrs_only(n);
    }
    if n == "alignment-baseline"@
            || n == "baseline-shift"@
            || n == "clip"@
            || n == "clip-path"@
            || n == "clip-rule"@
            || n == "color"@
            || n == "color-interpolation"@
            || n == "color-interpolation-filters"@
            || n == "color-profile"@
            || n == "color-rendering"@
            || n == "cursor"@
            || n == "direction"@
            || n == "display"@
            || n == "dominant-baseline"@
            || n == "enable-background"@
            || n == "fill"@
            || n == "fill-opacity"@
            || n == "fill-rule"@
            || n == "filter"@
            || n == "flood-color"@
            || n == "flood-opacity"@
            || n == "font-family"@
            || n == "font-size"@
            || n == "font-size-adjust"@
            || n == "font-stretch"@
            || n == "font-style"@
            || n == "font-variant"@
            || n == "font-weight"@
            || n == "glyph-orientation-horizontal"@
            || n == "glyph-orientation-vertical"@
            || n == "image-rendering"@
            || n == "kerning"@
            || n == "letter-spacing"@
            || n == "lighting-color"@
            || n == "marker-end"@
            || n == "marker-mid"@
            || n == "marker-start"@
            || n == "mask"@
            || n == "opacity"@
            || n == "overflow"@
            || n == "pointer-events"@
            || n == "shape-rendering"@
            || n == "stop-color"@
            || n == "stop-opacity"@
            || n == "stroke"@
            || n == "stroke-dasharray"@
            || n == "stroke-dashoffset"@
            || n == "stroke-linecap"@
            || n == "stroke-linejoin"@
            || n == "stroke-miterlimit"@
            || n == "stroke-opacity"@
            || n == "stroke-width"@
            || n == "text-anchor"@
            || n == "text-decoration"@
            || n == "text-rendering"@
            || n == "unicode-bidi"@
            || n == "visibility"@
            || n == "word-spacing"@
            || n == "writing-mode"@ {
        lemma_presentation_attrs_listed(n);
    }
}

proof fn lemma_presentation_attrs_listed(n: Seq<char>)
    requires
        n == "alignment-baseline"@
            || n == "baseline-shift"@
            || n == "clip"@
            || n == "clip-path"@
            || n == "clip-rule"@
            || n == "color"@
            || n == "color-interpolation"@
            || n == "color-interpolation-filters"@
            || n == "color-profile"@
            || n == "color-rendering"@
            || n == "cursor"@
            || n == "direction"@
            || n == "display"@
            || n == "dominant-baseline"@
            || n == "enable-background"@
            || n == "fill"@
            || n == "fill-opacity"@
            || n == "fill-rule"@
            || n == "filter"@
            || n == "flood-color"@
            || n == "flood-opacity"@
            || n == "font-family"@
            || n == "font-size"@
            || n == "font-size-adjust"@
            || n == "font-stretch"@
            || n == "font-style"@
            || n == "font-variant"@
            || n == "font-weight"@
            || n == "glyph-orientation-horizontal"@
            || n == "glyph-orientation-vertical"@
            || n == "image-rendering"@
            || n == "kerning"@
            || n == "letter-spacing"@
            || n == "lighting-color"@
            || n == "marker-end"@
            || n == "marker-mid"@
            || n == "marker-start"@
            || n == "mask"@
            || n == "opacity"@
            || n == "overflow"@
            || n == "pointer-events"@
            || n == "shape-rendering"@
            || n == "stop-color"@
            || n == "stop-opacity"@
            || n == "stroke"@
            || n == "stroke-dasharray"@
            || n == "stroke-dashoffset"@
            || n == "stroke-linecap"@
            || n == "stroke-linejoin"@
            || n == "stroke-miterlimit"@
            || n == "stroke-opacity"@
            || n == "stroke-width"@
            || n == "text-anchor"@
            || n == "text-decoration"@
            || n == "text-rendering"@
            || n == "unicode-bidi"@
            || n == "visibility"@
            || n == "word-spacing"@
            || n == "writing-mode"@,
    ensures
        in_table(presentation_attrs(), n),
{
    if n == "alignment-baseline"@ {
        assert(presentation_attrs()[0]@ == n);
    }
    if n == "baseline-shift"@ {
        assert(presentation_attrs()[1]@ == n);
    }
    if n == "clip"@ {
        assert(presentation_attrs()[2]@ == n);
    }
    if n == "clip-path"@ {
        assert(presentation_attrs()[3]@ == n);
    }
    if n == "clip-rule"@ {
        assert(presentation_attrs()[4]@ == n);
    }
    if n == "color"@ {
        assert(presentation_attrs()[5]@ == n);
    }
    if n == "color-interpolation"@ {
        assert(presentation_attrs()[6]@ == n);
    }
    if n == "color-interpolation-filters"@ {
        assert(presentation_attrs()[7]@ == n);
    }
    if n == "color-profile"@ {
        assert(presentation_attrs()[8]@ == n);
    }
    if n == "color-rendering"@ {
        assert(presentation_attrs()[9]@ == n);
    }
    if n == "cursor"@ {
        assert(presentation_attrs()[10]@ == n);
    }
    if n == "direction"@ {
        assert(presentation_attrs()[11]@ == n);
    }
    if n == "display"@ {
        assert(presentation_attrs()[12]@ == n);
    }
    if n == "dominant-baseline"@ {
        assert(presentation_attrs()[13]@ == n);
    }
    if n == "enable-background"@ {
        assert(presentation_attrs()[14]@ == n);
    }
    if n == "fill"@ {
        assert(presentation_attrs()[15]@ == n);
    }
    if n == "fill-opacity"@ {
        assert(presentation_attrs()[16]@ == n);
    }
    if n == "fill-rule"@ {
        assert(presentation_attrs()[17]@ == n);
    }
    if n == "filter"@ {
        assert(presentation_attrs()[18]@ == n);
    }
    if n == "flood-color"@ {
        assert(presentation_attrs()[19]@ == n);
    }
    if n == "flood-opacity"@ {
        assert(presentation_attrs()[20]@ == n);
    }
    if n == "font-family"@ {
        assert(presentation_attrs()[21]@ == n);
    }
    if n == "font-size"@ {
        assert(presentation_attrs()[22]@ == n);
    }
    if n == "font-size-adjust"@ {
        assert(presentation_attrs()[23]@ == n);
    }
    if n == "font-stretch"@ {
        assert(presentation_attrs()[24]@ == n);
    }
    if n == "font-style"@ {
        assert(presentation_attrs()[25]@ == n);
    }
    if n == "font-variant"@ {
        assert(presentation_attrs()[26]@ == n);
    }
    if n == "font-weight"@ {
        assert(presentation_attrs()[27]@ == n);
    }
    if n == "glyph-orientation-horizontal"@ {
        assert(presentation_attrs()[28]@ == n);
    }
    if n == "glyph-orientation-vertical"@ {
        assert(presentation_attrs()[29]@ == n);
    }
    if n == "image-rendering"@ {
        assert(presentation_attrs()[30]@ == n);
    }
    if n == "kerning"@ {
        assert(presentation_attrs()[31]@ == n);
    }
    if n == "letter-spacing"@ {
        assert(presentation_attrs()[32]@ == n);
    }
    if n == "lighting-color"@ {
        assert(presentation_attrs()[33]@ == n);
    }
    if n == "marker-end"@ {
        assert(presentation_attrs()[34]@ == n);
    }
    if n == "marker-mid"@ {
        assert(presentation_attrs()[35]@ == n);
    }
    if n == "marker-start"@ {
        assert(presentation_attrs()[36]@ == n);
    }
    if n == "mask"@ {
        assert(presentation_attrs()[37]@ == n);
    }
    if n == "opacity"@ {
        assert(presentation_attrs()[38]@ == n);
    }
    if n == "overflow"@ {
        assert(presentation_attrs()[39]@ == n);
    }
    if n == "pointer-events"@ {
        assert(presentation_attrs()[40]@ == n);
    }
    if n == "shape-rendering"@ {
        assert(presentation_attrs()[41]@ == n);
    }
    if n == "stop-color"@ {
        assert(presentation_attrs()[42]@ == n);
    }
    if n == "stop-opacity"@ {
        assert(presentation_attrs()[43]@ == n);
    }
    if n == "stroke"@ {
        assert(presentation_attrs()[44]@ == n);
    }
    if n == "stroke-dasharray"@ {
        assert(presentation_attrs()[45]@ == n);
    }
    if n == "stroke-dashoffset"@ {
        assert(presentation_attrs()[46]@ == n);
    }
    if n == "stroke-linecap"@ {
        assert(presentation_attrs()[47]@ == n);
    }
    if n == "stroke-linejoin"@ {
        assert(presentation_attrs()[48]@ == n);
    }
    if n == "stroke-miterlimit"@ {
        assert(presentation_attrs()[49]@ == n);
    }
    if n == "stroke-opacity"@ {
        assert(presentation_attrs()[50]@ == n);
    }
    if n == "stroke-width"@ {
        assert(presentation_attrs()[51]@ == n);
    }
    if n == "text-anchor"@ {
        assert(presentation_attrs()[52]@ == n);
    }
    if n == "text-decoration"@ {
        assert(presentation_attrs()[53]@ == n);
    }
    if n == "text-rendering"@ {
        assert(presentation_attrs()[54]@ == n);
    }
    if n == "unicode-bidi"@ {
        assert(presentation_attrs()[55]@ == n);
    }
    if n == "visibility"@ {
        assert(presentation_attrs()[56]@ == n);
    }
    if n == "word-spacing"@ {
        assert(presentation_attrs()[57]@ == n);
    }
    if n == "writing-mode"@ {
        assert(presentation_attrs()[58]@ == n);
    }
}

#[verifier::rlimit(100)]
proof fn lemma_presentation_attrs_only(n: Seq<char>)
    requires
        in_table(presentation_attrs(), n),
    ensures
        n == "alignment-baseline"@
            || n == "baseline-shift"@
            || n == "clip"@
            || n == "clip-path"@
            || n == "clip-rule"@
            || n == "color"@
            || n == "color-interpolation"@
            || n == "color-interpolation-filters"@
            || n == "color-profile"@
            || n == "color-rendering"@
            || n == "cursor"@
            || n == "direction"@
            || n == "display"@
            || n == "dominant-baseline"@
            || n == "enable-background"@
            || n == "fill"@
            || n == "fill-opacity"@
            || n == "fill-rule"@
            || n == "filter"@
            || n == "flood-color"@
            || n == "flood-opacity"@
            || n == "font-family"@
            || n == "font-size"@
            || n == "font-size-adjust"@
            || n == "font-stretch"@
            || n == "font-style"@
            || n == "font-variant"@
            || n == "font-weight"@
            || n == "glyph-orientation-horizontal"@
            || n == "glyph-orientation-vertical"@
            || n == "image-rendering"@
            || n == "kerning"@
            || n == "letter-spacing"@
            || n == "lighting-color"@
            || n == "marker-end"@
            || n == "marker-mid"@
            || n == "marker-start"@
            || n == "mask"@
            || n == "opacity"@
            || n == "overflow"@
            || n == "pointer-events"@
            || n == "shape-rendering"@
            || n == "stop-color"@
            || n == "stop-opacity"@
            || n == "stroke"@
            || n == "stroke-dasharray"@
            || n == "stroke-dashoffset"@
            || n == "stroke-linecap"@
            || n == "stroke-linejoin"@
            || n == "stroke-miterlimit"@
            || n == "stroke-opacity"@
            || n == "stroke-width"@
            || n == "text-anchor"@
            || n == "text-decoration"@
            || n == "text-rendering"@
            || n == "unicode-bidi"@
            || n == "visibility"@
            || n == "word-spacing"@
            || n == "writing-mode"@,
{
    if in_table(presentation_attrs(), n) {
        let k = choose|k: int| 0 <= k < presentation_attrs().len() && #[trigger] presentation_attrs()[k]@ == n;
        if k == 0 {
            assert(n == "alignment-baseline"@);
        }
        if k == 1 {
            assert(n == "baseline-shift"@);
        }
        if k == 2 {
            assert(n == "clip"@);
        }
        if k == 3 {
            assert(n == "clip-path"@);
        }
        if k == 4 {
            assert(n == "clip-rule"@);
        }
        if k == 5 {
            assert(n == "color"@);
        }
        if k == 6 {
            assert(n == "color-interpolation"@);
        }
        if k == 7 {
            assert(n == "color-interpolation-filters"@);
        }
        if k == 8 {
            assert(n == "color-profile"@);
        }
        if k == 9 {
            assert(n == "color-rendering"@);
        }
        if k == 10 {
            assert(n == "cursor"@);
        }
        if k == 11 {
            assert(n == "direction"@);
        }
        if k == 12 {
            assert(n == "display"@);
        }
        if k == 13 {
            assert(n == "dominant-baseline"@);
        }
        if k == 14 {
            assert(n == "enable-background"@);
        }
        if k == 15 {
            assert(n == "fill"@);
        }
        if k == 16 {
            assert(n == "fill-opacity"@);
        }
        if k == 17 {
            assert(n == "fill-rule"@);
        }
        if k == 18 {
            assert(n == "filter"@);
        }
        if k == 19 {
            assert(n == "flood-color"@);
        }
        if k == 20 {
            assert(n == "flood-opacity"@);
        }
        if k == 21 {
            assert(n == "font-family"@);
        }
        if k == 22 {
            assert(n == "font-size"@);
        }
        if k == 23 {
            assert(n == "font-size-adjust"@);
        }
        if k == 24 {
            assert(n == "font-stretch"@);
        }
        if k == 25 {
            assert(n == "font-style"@);
        }
        if k == 26 {
            assert(n == "font-variant"@);
        }
        if k == 27 {
            assert(n == "font-weight"@);
        }
        if k == 28 {
            assert(n == "glyph-orientation-horizontal"@);
        }
        if k == 29 {
            assert(n == "glyph-orientation-vertical"@);
        }
        if k == 30 {
            assert(n == "image-rendering"@);
        }
        if k == 31 {
            assert(n == "kerning"@);
        }
        if k == 32 {
            assert(n == "letter-spacing"@);
        }
        if k == 33 {
            assert(n == "lighting-color"@);
        }
        if k == 34 {
            assert(n == "marker-end"@);
        }
        if k == 35 {
            assert(n == "marker-mid"@);
        }
        if k == 36 {
            assert(n == "marker-start"@);
        }
        if k == 37 {
            assert(n == "mask"@);
        }
        if k == 38 {
            assert(n == "opacity"@);
        }
        if k == 39 {
            assert(n == "overflow"@);
        }
        if k == 40 {
            assert(n == "pointer-events"@);
        }
        if k == 41 {
            assert(n == "shape-rendering"@);
        }
        if k == 42 {
            assert(n == "stop-color"@);
        }
        if k == 43 {
            assert(n == "stop-opacity"@);
        }
        if k == 44 {
            assert(n == "stroke"@);
        }
        if k == 45 {
            assert(n == "stroke-dasharray"@);
        }
        if k == 46 {
            assert(n == "stroke-dashoffset"@);
        }
        if k == 47 {
            assert(n == "stroke-linecap"@);
        }
        if k == 48 {
            assert(n == "stroke-linejoin"@);
        }
        if k == 49 {
            assert(n == "stroke-miterlimit"@);
        }
        if k == 50 {
            assert(n == "stroke-opacity"@);
        }
        if k == 51 {
            assert(n == "stroke-width"@);
        }
        if k == 52 {
            assert(n == "text-anchor"@);
        }
        if k == 53 {
            assert(n == "text-decoration"@);
        }
        if k == 54 {
            assert(n == "text-rendering"@);
        }
        if k == 55 {
            assert(n == "unicode-bidi"@);
        }
        if k == 56 {
            assert(n == "visibility"@);
        }
        if k == 57 {
            assert(n == "word-spacing"@);
        }
        if k == 58 {
            assert(n == "writing-mode"@);
        }
    }
}

/// The presentation attributes (computed).
fn presentation_attr_names() -> (v: Vec<&'static str>)
    ensures
        v@ == presentation_attrs(),
{
    vec![
        "alignment-baseline",
        "baseline-shift",
        "clip",
        "clip-path",
        "clip-rule",
        "color",
        "color-interpolation",
        "color-interpolation-filters",
        "color-profile",
        "color-rendering",
        "cursor",
        "direction",
        "display",
        "dominant-baseline",
        "enable-background",
        "fill",
        "fill-opacity",
        "fill-rule",
        "filter",
        "flood-color",
        "flood-opacity",
        "font-family",
        "font-size",
        "font-size-adjust",
        "font-stretch",
        "font-style",
        "font-variant",
        "font-weight",
        "glyph-orientation-horizontal",
        "glyph-orientation-vertical",
        "image-rendering",
        "kerning",
        "letter-spacing",
        "lighting-color",
        "marker-end",
        "marker-mid",
        "marker-start",
        "mask",
        "opacity",
        "overflow",
        "pointer-events",
        "shape-rendering",
        "stop-color",
        "stop-opacity",
        "stroke",
        "stroke-dasharray",
        "stroke-dashoffset",
        "stroke-linecap",
        "stroke-linejoin",
        "stroke-miterlimit",
        "stroke-opacity",
        "stroke-width",
        "text-anchor",
        "text-decoration",
        "text-rendering",
        "unicode-bidi",
        "visibility",
        "word-spacing",
        "writing-mode",
    ]
}

/// Whether a property is an SVG presentation attribute.
pub fn is_presentation_attribute(property: &str) -> (r: bool)
    ensures
        r == in_table(presentation_attrs(), property@),
{
    let t = presentation_attr_names();
    table_has(&t, property)
}

/// The pseudo-classes and pseudo-elements that mark a selector.
pub open spec fn pseudo_markers() -> Seq<&'static str> {
    seq![
        ":hover",
        ":active",
        ":focus",
        ":visited",
        ":link",
        ":first-child",
        ":last-child",
        ":nth-child",
        ":nth-of-type",
        ":before",
        "::before",
        ":after",
        "::after",
    ]
}

/// The markers by which a selector counts as using pseudo-classes or pseudo-elements are
/// exactly those named in this statement.
pub proof fn lemma_pseudo_markers_members(n: Seq<char>)
    ensures
        in_table(pseudo_markers(), n) <==> (n == ":hover"@
            || n == ":active"@
            || n == ":focus"@
            || n == ":visited"@
            || n == ":link"@
            || n == ":first-child"@
            || n == ":last-child"@
            || n == ":nth-child"@
            || n == ":nth-of-type"@
            || n == ":before"@
            || n == "::before"@
            || n == ":after"@
            || n == "::after"@),
{
    if n == ":hover"@ {
        assert(pseudo_markers()[0]@ == n);
    }
    if n == ":active"@ {
        assert(pseudo_markers()[1]@ == n);
    }
    if n == ":focus"@ {
        assert(pseudo_markers()[2]@ == n);
    }
    if n == ":visited"@ {
        assert(pseudo_markers()[3]@ == n);
    }
    if n == ":link"@ {
        assert(pseudo_markers()[4]@ == n);
    }
    if n == ":first-child"@ {
        assert(pseudo_markers()[5]@ == n);
    }
    if n == ":last-child"@ {
        assert(pseudo_markers()[6]@ == n);
    }
    if n == ":nth-child"@ {
        assert(pseudo_markers()[7]@ == n);
    }
    if n == ":nth-of-type"@ {
        assert(pseudo_markers()[8]@ == n);
    }
    if n == ":before"@ {
        assert(pseudo_markers()[9]@ == n);
    }
    if n == "::before"@ {
        assert(pseudo_markers()[10]@ == n);
    }
    if n == ":after"@ {
        assert(pseudo_markers()[11]@ == n);
    }
    if n == "::after"@ {
        assert(pseudo_markers()[12]@ == n);
    }
    if in_table(pseudo_markers(), n) {
        let k = choose|k: int| 0 <= k < pseudo_markers().len() && #[trigger] pseudo_markers()[k]@ == n;
        if k == 0 {
            assert(n == ":hover"@);
        }
        if k == 1 {
            assert(n == ":active"@);
        }
        if k == 2 {
            assert(n == ":focus"@);
        }
        if k == 3 {
            assert(n == ":visited"@);
        }
        if k == 4 {
            assert(n == ":link"@);
        }
        if k == 5 {
            assert(n == ":first-child"@);
        }
        if k == 6 {
            assert(n == ":last-child"@);
        }
        if k == 7 {
            assert(n == ":nth-child"@);
        }
        if k == 8 {
            assert(n == ":nth-of-type"@);
        }
        if k == 9 {
            assert(n == ":before"@);
        }
        if k == 10 {
            assert(n == "::before"@);
        }
        if k == 11 {
            assert(n == ":after"@);
        }
        if k == 12 {
            assert(n == "::after"@);
        }
    }
}

/// Whether a selector holds a colon and one of the pseudo markers.
pub open spec fn contains_pseudo(sel: Seq<char>) -> bool {
    has_sub(sel, ":"@) && exists|i: int|
        0 <= i < pseudo_markers().len() && #[trigger] has_sub(sel, pseudo_markers()[i]@)
}

/// Whether a selector holds a pseudo-class or pseudo-element.
pub fn selector_contains_pseudo(selector: &str) -> (r: bool)
    ensures
        r == contains_pseudo(selector@),
{
    if !contains_str(selector, ":") {
        return false;
    }
    let t: Vec<&'static str> = vec![
        ":hover",
        ":active",
        ":focus",
        ":visited",
        ":link",
        ":first-child",
        ":last-child",
        ":nth-child",
        ":nth-of-type",
        ":before",
        "::before",
        ":after",
        "::after",
    ];
    assert(t@ == pseudo_markers());
    let n = t.len();
    let mut i: usize = 0;
    while i < n
        invariant
            n == t@.len(),
            t@ == pseudo_markers(),
            has_sub(selector@, ":"@),
            0 <= i <= n,
            forall|j: int| 0 <= j < i ==> !has_sub(selector@, #[trigger] pseudo_markers()[j]@),
        decreases n - i,
    {
        if contains_str(selector, t[i]) {
            assert(has_sub(selector@, pseudo_markers()[i as int]@));
            return true;
        }
        i += 1;
    }
    false
}

/// Whether a word starts like an element name: not with `.`, `#` or `[`.
pub open spec fn is_element_word(w: Seq<char>) -> bool {
    !(w.len() > 0 && (w[0] == '.' || w[0] == '#' || w[0] == '['))
}

/// The number of words that start like element names.
pub open spec fn element_words(ws: Seq<Seq<char>>) -> nat
    decreases ws.len(),
{
    if ws.len() == 0 {
        0
    } else {
        element_words(ws.drop_last()) + if is_element_word(ws.last()) {
            1nat
        } else {
            0nat
        }
    }
}

/// The specificity of a selector: a million per `#`, a thousand per `.` and per `[`,
/// and one per white-space separated word that starts like an element name.
pub open spec fn specificity(sel: Seq<char>) -> int {
    (count_char(sel, '#') * 1000000 + count_char(sel, '.') * 1000 + count_char(sel, '[') * 1000
        + element_words(words(sel))) as int
}

/// The specificity of a selector when it fits in a `u32`.
pub fn checked_specificity(selector: &str) -> (r: Option<u32>)
    ensures
        r is Some <==> specificity(selector@) <= u32::MAX,
        r is Some ==> r.unwrap() == specificity(selector@),
{
    let v = chars_of(selector);
    let ids = count_char_exec(&v, '#');
    let classes = count_char_exec(&v, '.');
    let attrs = count_char_exec(&v, '[');
    let ws = split_whitespace(&v);
    let ghost wm = words(v@);
    let mut elems: usize = 0;
    let n = ws.len();
    let mut i: usize = 0;
    assert(wm.take(0) =~= Seq::<Seq<char>>::empty());
    while i < n
        invariant
            n == ws@.len(),
            n == wm.len(),
            wm == words(v@),
            forall|k: int| 0 <= k < n ==> #[trigger] ws@[k]@ == wm[k],
            0 <= i <= n,
            elems <= i,
            elems == element_words(wm.take(i as int)),
        decreases n - i,
    {
        assert(wm.take(i + 1).drop_last() =~= wm.take(i as int));
        assert(ws@[i as int]@ == wm[i as int]);
        let w = &ws[i];
        let starts = w.len() > 0 && (w[0] == '.' || w[0] == '#' || w[0] == '[');
        if !starts {
            elems += 1;
        }
        i += 1;
    }
    assert(wm.take(n as int) =~= wm);
    if ids > 4295 || classes > 4294967 || attrs > 4294967 || elems > 4294967295 {
        return None;
    }
    let total: u64 = ids as u64 * 1000000 + classes as u64 * 1000 + attrs as u64 * 1000
        + elems as u64;
    if total > 4294967295 {
        None
    } else {
        Some(total as u32)
    }
}

/// The specificity of a selector.
pub fn calculate_specificity(selector: &str) -> (r: u32)
    requires
        specificity(selector@) <= u32::MAX,
    ensures
        r == specificity(selector@),
{
    match checked_specificity(selector) {
        Some(v) => v,
        None => 0,
    }
}

/// A `name: value` piece read from text: the two parts around the only `:`, trimmed.
pub open spec fn colon_pair(piece: Seq<char>) -> Option<(Seq<char>, Seq<char>)> {
    let parts = split_on(piece, ':');
    if parts.len() == 2 {
        Some((trim_seq(parts[0]), trim_seq(parts[1])))
    } else {
        None
    }
}

/// The presentation declarations among the pieces, in order.
pub open spec fn declared(pieces: Seq<Seq<char>>) -> AttrsM
    decreases pieces.len(),
{
    if pieces.len() == 0 {
        seq![]
    } else {
        declared(pieces.drop_last()) + match colon_pair(pieces.last()) {
            Some(p) => if in_table(presentation_attrs(), p.0) {
                seq![p]
            } else {
                seq![]
            },
            None => seq![],
        }
    }
}

/// The presentation declarations of a printed declaration block.
pub open spec fn extracted(decls: Option<Seq<char>>) -> AttrsM {
    match decls {
        Some(d) => declared(split_on(d, ';')),
        None => seq![],
    }
}

/// Model of a list of pairs of strings.
pub open spec fn pairs_view(v: Seq<(String, String)>) -> AttrsM {
    Seq::new(v.len(), |i: int| (v[i].0@, v[i].1@))
}

/// The `name: value` part of one piece, trimmed, when it has exactly one `:`.
fn colon_pair_exec(piece: &Vec<char>) -> (r: Option<(Vec<char>, Vec<char>)>)
    ensures
        match r {
            Some(p) => colon_pair(piece@) == Some((p.0@, p.1@)),
            None => colon_pair(piece@) is None,
        },
{
    let parts = split_char(piece, ':');
    if parts.len() == 2 {
        Some((trim_chars(&parts[0]), trim_chars(&parts[1])))
    } else {
        None
    }
}

/// The presentation declarations of a printed declaration block, in order.
pub fn extract_declarations(css: &str) -> (r: Vec<(String, String)>)
    ensures
        pairs_view(r@) == declared(split_on(css@, ';')),
{
    let pieces = split_char(&chars_of(css), ';');
    let ghost ps = split_on(css@, ';');
    let mut out: Vec<(String, String)> = Vec::new();
    let n = pieces.len();
    let mut i: usize = 0;
    assert(ps.take(0) =~= Seq::<Seq<char>>::empty());
    assert(pairs_view(out@) =~= seq![]);
    while i < n
        invariant
            n == pieces@.len(),
            n == ps.len(),
            forall|k: int| 0 <= k < n ==> #[trigger] pieces@[k]@ == ps[k],
            0 <= i <= n,
            pairs_view(out@) == declared(ps.take(i as int)),
        decreases n - i,
    {
        assert(ps.take(i + 1).drop_last() =~= ps.take(i as int));
        assert(pieces@[i as int]@ == ps[i as int]);
        match colon_pair_exec(&pieces[i]) {
            Some(p) => {
                let name = string_from(&p.0);
                if is_presentation_attribute(name.as_str()) {
                    let value = string_from(&p.1);
                    let ghost before = out@;
                    out.push((name, value));
                    assert(pairs_view(out@) =~= pairs_view(before) + seq![(p.0@, p.1@)]);
                } else {
                    assert(pairs_view(out@) =~= pairs_view(out@) + Seq::<(Seq<char>, Seq<char>)>::empty());
                }
            },
            None => {
                assert(pairs_view(out@) =~= pairs_view(out@) + Seq::<(Seq<char>, Seq<char>)>::empty());
            },
        }
        i += 1;
    }
    assert(ps.take(n as int) =~= ps);
    out
}

/// The declarations of an existing `style` attribute, as a map: the pieces between
/// `;` with exactly one `:`, trimmed, a later one for a name replacing an earlier one.
pub open spec fn style_map(pieces: Seq<Seq<char>>) -> AttrsM
    decreases pieces.len(),
{
    if pieces.len() == 0 {
        seq![]
    } else {
        match colon_pair(pieces.last()) {
            Some(p) => attr_set(style_map(pieces.drop_last()), p.0, p.1),
            None => style_map(pieces.drop_last()),
        }
    }
}

/// `acc` with each of the given declarations set in turn.
pub open spec fn set_all(acc: AttrsM, ds: AttrsM) -> AttrsM
    decreases ds.len(),
{
    if ds.len() == 0 {
        acc
    } else {
        attr_set(set_all(acc, ds.drop_last()), ds.last().0, ds.last().1)
    }
}

/// The declarations written out as `name: value`, joined with `; `.
pub open spec fn join_styles(s: AttrsM) -> Seq<char>
    decreases s.len(),
{
    if s.len() == 0 {
        seq![]
    } else {
        let prev = join_styles(s.drop_last());
        (if prev.len() == 0 {
            prev
        } else {
            prev + "; "@
        }) + s.last().0 + ": "@ + s.last().1
    }
}

/// An existing `style` value with new declarations merged in: the existing ones in
/// their order, each new one replacing the value of its name or coming after.
pub open spec fn merged_style_text(existing: Seq<char>, new_styles: AttrsM) -> Seq<char> {
    join_styles(set_all(style_map(split_on(existing, ';')), new_styles))
}

/// Merges new declarations into an existing `style` value.
pub fn merge_styles(existing: &str, new_styles: &Vec<(String, String)>) -> (r: String)
    ensures
        r@ == merged_style_text(existing@, pairs_view(new_styles@)),
{
    let pieces = split_char(&chars_of(existing), ';');
    let ghost ps = split_on(existing@, ';');
    let mut merged = Attributes::new();
    let n = pieces.len();
    let mut i: usize = 0;
    assert(ps.take(0) =~= Seq::<Seq<char>>::empty());
    while i < n
        invariant
            n == pieces@.len(),
            n == ps.len(),
            forall|k: int| 0 <= k < n ==> #[trigger] pieces@[k]@ == ps[k],
            0 <= i <= n,
            merged@ == style_map(ps.take(i as int)),
        decreases n - i,
    {
        assert(ps.take(i + 1).drop_last() =~= ps.take(i as int));
        assert(pieces@[i as int]@ == ps[i as int]);
        match colon_pair_exec(&pieces[i]) {
            Some(p) => {
                merged.insert(string_from(&p.0), string_from(&p.1));
            },
            None => {},
        }
        i += 1;
    }
    assert(ps.take(n as int) =~= ps);
    let ghost base = merged@;
    let ghost nm = pairs_view(new_styles@);
    let m = new_styles.len();
    let mut j: usize = 0;
    assert(nm.take(0) =~= Seq::<(Seq<char>, Seq<char>)>::empty());
    while j < m
        invariant
            m == new_styles@.len(),
            nm == pairs_view(new_styles@),
            0 <= j <= m,
            merged@ == set_all(base, nm.take(j as int)),
        decreases m - j,
    {
        assert(nm.take(j + 1).drop_last() =~= nm.take(j as int));
        let k = new_styles[j].0.clone();
        let v = new_styles[j].1.clone();
        merged.insert(k, v);
        j += 1;
    }
    assert(nm.take(m as int) =~= nm);
    let ghost all = merged@;
    let mut out: Vec<char> = Vec::new();
    let len = merged.entries.len();
    let mut k: usize = 0;
    assert(all.take(0) =~= Seq::<(Seq<char>, Seq<char>)>::empty());
    while k < len
        invariant
            len == merged.entries@.len(),
            all == merged@,
            0 <= k <= len,
            out@ == join_styles(all.take(k as int)),
        decreases len - k,
    {
        assert(all.take(k + 1).drop_last() =~= all.take(k as int));
        assert(all[k as int] == (merged.entries@[k as int].0@, merged.entries@[k as int].1@));
        if out.len() > 0 {
            extend_str(&mut out, "; ");
        }
        extend_str(&mut out, merged.entries[k].0.as_str());
        extend_str(&mut out, ": ");
        extend_str(&mut out, merged.entries[k].1.as_str());
        k += 1;
    }
    assert(all.take(len as int) =~= all);
    string_from(&out)
}

/// A rule read from a style sheet: its selector, its presentation declarations, its
/// specificity and the index of the sheet it came from.
pub struct CssRuleData {
    pub selector: String,
    pub declarations: Vec<(String, String)>,
    pub specificity: u32,
    pub source_index: usize,
}

/// Model of a rule.
pub struct RuleM {
    pub selector: Seq<char>,
    pub decls: AttrsM,
    pub specificity: int,
    pub source: int,
}

impl View for CssRuleData {
    type V = RuleM;

    open spec fn view(&self) -> RuleM {
        RuleM {
            selector: self.selector@,
            decls: pairs_view(self.declarations@),
            specificity: self.specificity as int,
            source: self.source_index as int,
        }
    }
}

/// Model of a list of rules.
pub open spec fn rules_view(v: Seq<CssRuleData>) -> Seq<RuleM> {
    v.map_values(|r: CssRuleData| r@)
}

/// The rule a style sheet entry gives, if any: a style rule outside `@media` (or
/// inside, when `@media` rules are read), without pseudo selectors unless those are
/// read, with at least one presentation declaration.
pub open spec fn token_rule(t: CssTokenM, cfg: InlineStylesConfig, src: int) -> Seq<RuleM> {
    match t {
        CssTokenM::Style(sel, decls, nested) => {
            if (nested && !cfg.use_mqs) || (!cfg.use_pseudos && contains_pseudo(sel)) {
                seq![]
            } else if extracted(decls).len() == 0 {
                seq![]
            } else {
                seq![
                    RuleM {
                        selector: sel,
                        decls: extracted(decls),
                        specificity: specificity(sel),
                        source: src,
                    },
                ]
            }
        },
        CssTokenM::Other => seq![],
    }
}

/// The rules the entries of a sheet give, in order.
pub open spec fn token_rules(toks: Seq<CssTokenM>, cfg: InlineStylesConfig, src: int) -> Seq<
    RuleM,
>
    decreases toks.len(),
{
    if toks.len() == 0 {
        seq![]
    } else {
        token_rules(toks.drop_last(), cfg, src) + token_rule(toks.last(), cfg, src)
    }
}

/// Whether every rule's specificity fits in a `u32`.
pub open spec fn rules_fit(rs: Seq<RuleM>) -> bool {
    forall|i: int| 0 <= i < rs.len() ==> #[trigger] rs[i].specificity <= u32::MAX
}

/// `token_rules` over two lists joined.
pub proof fn lemma_token_rules_append(
    a: Seq<CssTokenM>,
    b: Seq<CssTokenM>,
    cfg: InlineStylesConfig,
    src: int,
)
    ensures
        token_rules(a + b, cfg, src) == token_rules(a, cfg, src) + token_rules(b, cfg, src),
    decreases b.len(),
{
    if b.len() == 0 {
        assert(a + b =~= a);
        assert(token_rules(a, cfg, src) + token_rules(b, cfg, src) =~= token_rules(a, cfg, src));
    } else {
        lemma_token_rules_append(a, b.drop_last(), cfg, src);
        assert((a + b).drop_last() =~= a + b.drop_last());
        assert(token_rules(a, cfg, src) + token_rules(b, cfg, src) =~= token_rules(a, cfg, src)
            + token_rules(b.drop_last(), cfg, src) + token_rule(b.last(), cfg, src));
    }
}

/// The rules of a sheet's entries, or `None` when a rule's specificity does not fit in
/// a `u32`.
pub fn rules_from_tokens(
    tokens: &Vec<CssToken>,
    config: &InlineStylesConfig,
    source_index: usize,
) -> (r: Option<Vec<CssRuleData>>)
    ensures
        r is Some <==> rules_fit(
            token_rules(tokens@.map_values(|t: CssToken| token_model(t)), *config, source_index as int),
        ),
        r is Some ==> rules_view(r.unwrap()@) == token_rules(
            tokens@.map_values(|t: CssToken| token_model(t)),
            *config,
            source_index as int,
        ),
{
    let ghost tm = tokens@.map_values(|t: CssToken| token_model(t));
    let ghost src = source_index as int;
    let mut out: Vec<CssRuleData> = Vec::new();
    let n = tokens.len();
    let mut i: usize = 0;
    assert(tm.take(0) =~= Seq::<CssTokenM>::empty());
    assert(rules_view(out@) =~= seq![]);
    while i < n
        invariant
            n == tokens@.len(),
            tm == tokens@.map_values(|t: CssToken| token_model(t)),
            src == source_index as int,
            0 <= i <= n,
            rules_view(out@) == token_rules(tm.take(i as int), *config, src),
            rules_fit(rules_view(out@)),
        decreases n - i,
    {
        assert(tm.take(i + 1).drop_last() =~= tm.take(i as int));
        assert(tm[i as int] == token_model(tokens@[i as int]));
        let ghost before = out@;
        match &tokens[i] {
            CssToken::Style(sel, decls, nested) => {
                let skip = (*nested && !config.use_mqs) || (!config.use_pseudos
                    && selector_contains_pseudo(sel.as_str()));
                if !skip {
                    let ds = match decls {
                        Some(d) => extract_declarations(d.as_str()),
                        None => Vec::new(),
                    };
                    assert(pairs_view(ds@) == extracted(
                        match decls {
                            Some(x) => Some(x@),
                            None => None,
                        },
                    )) by {
                        if decls.is_none() {
                            assert(pairs_view(ds@) =~= seq![]);
                        }
                    }
                    if ds.len() > 0 {
                        match checked_specificity(sel.as_str()) {
                            Some(sp) => {
                                let rule = CssRuleData {
                                    selector: sel.clone(),
                                    declarations: ds,
                                    specificity: sp,
                                    source_index,
                                };
                                out.push(rule);
                                assert(rules_view(out@) =~= rules_view(before) + seq![rule@]);
                            },
                            None => {
                                proof {
                                    let t = token_rules(tm.take(i + 1), *config, src);
                                    assert(t.last().specificity > u32::MAX);
                                    lemma_token_rules_append(tm.take(i + 1), tm.skip(i + 1), *config, src);
                                    assert(tm.take(i + 1) + tm.skip(i + 1) =~= tm);
                                    let all = token_rules(tm, *config, src);
                                    assert(all[t.len() - 1] == t[t.len() - 1]);
                                }
                                return None;
                            },
                        }
                    } else {
                        assert(rules_view(out@) =~= rules_view(before) + Seq::<RuleM>::empty());
                    }
                } else {
                    assert(rules_view(out@) =~= rules_view(before) + Seq::<RuleM>::empty());
                }
            },
            CssToken::Other => {
                assert(rules_view(out@) =~= rules_view(before) + Seq::<RuleM>::empty());
            },
        }
        i += 1;
    }
    assert(tm.take(n as int) =~= tm);
    Some(out)
}


/// The rules of a style sheet, in order; none when lightningcss refuses it.
pub open spec fn sheet_rules(css: Seq<char>, cfg: InlineStylesConfig, src: int) -> Seq<RuleM> {
    match css_rule_tokens(css) {
        Some(t) => token_rules(t, cfg, src),
        None => seq![],
    }
}

/// Reads the rules of a style sheet, or `None` when a rule's specificity does not fit
/// in a `u32`.
pub fn parse_css_rules(css: &str, config: &InlineStylesConfig, source_index: usize) -> (r:
    Option<Vec<CssRuleData>>)
    ensures
        r is Some <==> rules_fit(sheet_rules(css@, *config, source_index as int)),
        r is Some ==> rules_view(r.unwrap()@) == sheet_rules(css@, *config, source_index as int),
{
    match stylesheet_tokens(css) {
        Some(toks) => rules_from_tokens(&toks, config, source_index),
        None => {
            let v: Vec<CssRuleData> = Vec::new();
            assert(rules_view(v@) =~= seq![]);
            Some(v)
        },
    }
}

/// The sheet of an element when it is a `<style>` with a sheet that is not blank.
pub open spec fn sheet_if_style(e: ElemM) -> Seq<Seq<char>> {
    if e.name == "style"@ && trim_seq(sheet_of(e.children)).len() > 0 {
        seq![sheet_of(e.children)]
    } else {
        seq![]
    }
}

/// The sheets of the given elements, in order.
pub open spec fn sheets_in(s: Seq<ElemM>) -> Seq<Seq<char>>
    decreases s.len(),
{
    if s.len() == 0 {
        seq![]
    } else {
        sheets_in(s.drop_last()) + sheet_if_style(s.last())
    }
}

/// `sheets_in` over two lists joined.
pub proof fn lemma_sheets_in_append(a: Seq<ElemM>, b: Seq<ElemM>)
    ensures
        sheets_in(a + b) == sheets_in(a) + sheets_in(b),
    decreases b.len(),
{
    if b.len() == 0 {
        assert(a + b =~= a);
        assert(sheets_in(a) + sheets_in(b) =~= sheets_in(a));
    } else {
        lemma_sheets_in_append(a, b.drop_last());
        assert((a + b).drop_last() =~= a + b.drop_last());
        assert(sheets_in(a) + sheets_in(b) =~= sheets_in(a) + sheets_in(b.drop_last())
            + sheet_if_style(b.last()));
    }
}

/// The style sheets of a tree, in document order.
pub open spec fn document_sheets(root: ElemM) -> Seq<Seq<char>> {
    sheets_in(tree_elems(root))
}

/// Appends the style sheets of `e` and the elements below it, in document order.
fn collect_sheets(e: &Element, out: &mut Vec<String>)
    ensures
        strings_view(final(out)@) == strings_view(old(out)@) + sheets_in(tree_elems(elem_model(*e))),
    decreases e,
{
    let ghost m = elem_model(*e);
    let ghost o0 = strings_view(out@);
    if e.is_named("style") {
        let css = MergeStylesPlugin::extract_css_content(e);
        if trim_chars(&chars_of(css.as_str())).len() > 0 {
            out.push(css);
            assert(strings_view(out@) =~= o0 + sheet_if_style(m));
        } else {
            assert(strings_view(out@) =~= o0 + sheet_if_style(m));
        }
    } else {
        assert(strings_view(out@) =~= o0 + sheet_if_style(m));
    }
    let ghost s1 = strings_view(out@);
    let ghost parts = Seq::new(m.children.len(), |j: int| node_elems(m.children[j]));
    let n = e.children.len();
    let mut i: usize = 0;
    proof {
        crate::ast::lemma_children_model(*e);
    }
    assert(parts.take(0).flatten() =~= Seq::<ElemM>::empty());
    assert(s1 =~= s1 + sheets_in(Seq::<ElemM>::empty()));
    while i < n
        invariant
            n == m.children.len(),
            n == e.children@.len(),
            m == elem_model(*e),
            parts == Seq::new(m.children.len(), |j: int| node_elems(m.children[j])),
            0 <= i <= n,
            strings_view(out@) == s1 + sheets_in(parts.take(i as int).flatten()),
        decreases n - i,
    {
        proof {
            assert(parts.take(i + 1) =~= parts.take(i as int).push(parts[i as int]));
            parts.take(i as int).lemma_flatten_push(parts[i as int]);
            lemma_sheets_in_append(parts.take(i as int).flatten(), parts[i as int]);
            assert(m.children[i as int] == node_model(e.children@[i as int]));
        }
        match &e.children[i] {
            Node::Element(c) => {
                collect_sheets(c, out);
            },
            _ => {
                assert(parts[i as int] =~= Seq::<ElemM>::empty());
                assert(parts.take(i as int).flatten() + parts[i as int] =~= parts.take(
                    i as int,
                ).flatten());
            },
        }
        i += 1;
    }
    proof {
        assert(parts.take(n as int) =~= parts);
        assert(crate::ast::children_elems(m) =~= parts);
        assert(tree_elems(m) == seq![m] + parts.flatten());
        lemma_sheets_in_append(seq![m], parts.flatten());
        assert(seq![m].drop_last() =~= Seq::<ElemM>::empty());
        assert(sheets_in(seq![m]) =~= sheet_if_style(m));
    }
}

/// The rules of the given sheets, in order, each tagged with its sheet's index.
pub open spec fn sheets_rules(sheets: Seq<Seq<char>>, cfg: InlineStylesConfig) -> Seq<RuleM>
    decreases sheets.len(),
{
    if sheets.len() == 0 {
        seq![]
    } else {
        sheets_rules(sheets.drop_last(), cfg) + sheet_rules(
            sheets.last(),
            cfg,
            sheets.len() - 1,
        )
    }
}

/// Whether the specificity of every rule of every sheet fits in a `u32`.
pub open spec fn sheets_fit(sheets: Seq<Seq<char>>, cfg: InlineStylesConfig) -> bool {
    forall|i: int| 0 <= i < sheets.len() ==> rules_fit(#[trigger] sheet_rules(sheets[i], cfg, i))
}

/// The position after the leading rules whose specificity is at most `k`.
pub open spec fn ins_pos(s: Seq<RuleM>, k: int) -> nat
    decreases s.len(),
{
    if s.len() == 0 {
        0
    } else if s[0].specificity <= k {
        1 + ins_pos(s.drop_first(), k)
    } else {
        0
    }
}

/// The rules ordered by specificity, rules of equal specificity keeping their order
/// (an insertion sort).
pub open spec fn sort_rules(s: Seq<RuleM>) -> Seq<RuleM>
    decreases s.len(),
{
    if s.len() == 0 {
        s
    } else {
        let t = sort_rules(s.drop_last());
        t.insert(ins_pos(t, s.last().specificity) as int, s.last())
    }
}

/// `ins_pos` stays within the list.
pub proof fn lemma_ins_pos(s: Seq<RuleM>, k: int)
    ensures
        ins_pos(s, k) <= s.len(),
    decreases s.len(),
{
    if s.len() > 0 && s[0].specificity <= k {
        lemma_ins_pos(s.drop_first(), k);
    }
}

/// Sorting keeps the number of rules.
pub proof fn lemma_sort_len(s: Seq<RuleM>)
    ensures
        sort_rules(s).len() == s.len(),
    decreases s.len(),
{
    if s.len() > 0 {
        lemma_sort_len(s.drop_last());
        lemma_ins_pos(sort_rules(s.drop_last()), s.last().specificity);
    }
}

/// Orders rules by specificity, keeping the order of rules of equal specificity.
pub fn sort_by_specificity(rules: Vec<CssRuleData>) -> (r: Vec<CssRuleData>)
    ensures
        rules_view(r@) == sort_rules(rules_view(rules@)),
{
    let ghost orig = rules_view(rules@);
    let mut rest = rules;
    let mut out: Vec<CssRuleData> = Vec::new();
    let n = rest.len();
    let mut i: usize = 0;
    assert(rules_view(rest@) =~= orig.skip(0));
    assert(orig.take(0) =~= Seq::<RuleM>::empty());
    assert(rules_view(out@) =~= sort_rules(orig.take(0)));
    while i < n
        invariant
            n == orig.len(),
            0 <= i <= n,
            rest@.len() == n - i,
            rules_view(rest@) == orig.skip(i as int),
            rules_view(out@) == sort_rules(orig.take(i as int)),
            out@.len() == i,
        decreases n - i,
    {
        let ghost r0 = rest@;
        let item = rest.remove(0);
        assert(item@ == orig[i as int]) by {
            assert(rules_view(r0)[0] == orig.skip(i as int)[0]);
        }
        assert(rules_view(rest@) =~= rules_view(r0).drop_first());
        assert(orig.skip(i as int).drop_first() =~= orig.skip(i + 1));
        let k = item.specificity;
        let ghost cur = rules_view(out@);
        let mut p: usize = 0;
        assert(cur.skip(0) =~= cur);
        while p < out.len() && out[p].specificity <= k
            invariant
                cur == rules_view(out@),
                0 <= p <= out@.len(),
                ins_pos(cur, k as int) == p + ins_pos(cur.skip(p as int), k as int),
            decreases out@.len() - p,
        {
            assert(cur.skip(p as int).drop_first() =~= cur.skip(p + 1));
            assert(cur.skip(p as int)[0] == cur[p as int]);
            p += 1;
        }
        proof {
            if p < out@.len() {
                assert(cur.skip(p as int)[0] == cur[p as int]);
            } else {
                assert(cur.skip(p as int) =~= Seq::<RuleM>::empty());
            }
            assert(orig.take(i + 1).drop_last() =~= orig.take(i as int));
            assert(orig.take(i + 1).last() == orig[i as int]);
            lemma_sort_len(orig.take(i as int));
        }
        let ghost before = out@;
        out.insert(p, item);
        assert(rules_view(out@) =~= rules_view(before).insert(p as int, item@));
        i += 1;
    }
    assert(orig.take(n as int) =~= orig);
    out
}

/// Whether a selector matches an element: `#id` by its `id`, `.name` by one of the
/// words of its `class`, anything else by its name (the selector trimmed first).
pub open spec fn selector_matches(sel: Seq<char>, m: ElemM) -> bool {
    let s = trim_seq(sel);
    if s.len() > 0 && s[0] == '#' {
        attr_get(m.attrs, "id"@) == Some(s.drop_first())
    } else if s.len() > 0 && s[0] == '.' {
        match attr_get(m.attrs, "class"@) {
            Some(c) => words(c).contains(s.drop_first()),
            None => false,
        }
    } else {
        m.name == s
    }
}

/// Whether a selector matches an element.
pub fn selector_matches_element(selector: &str, element: &Element) -> (r: bool)
    ensures
        r == selector_matches(selector@, elem_model(*element)),
{
    let s = trim_chars(&chars_of(selector));
    if s.len() > 0 && s[0] == '#' {
        let id = skip_chars(&s, 1);
        assert(id@ =~= s@.drop_first());
        match element.attributes.get("id") {
            Some(v) => chars_eq(&chars_of(v.as_str()), &id),
            None => false,
        }
    } else if s.len() > 0 && s[0] == '.' {
        let name = skip_chars(&s, 1);
        assert(name@ =~= s@.drop_first());
        match element.attributes.get("class") {
            Some(c) => {
                let ws = split_whitespace(&chars_of(c.as_str()));
                let ghost wm = words(c@);
                let n = ws.len();
                let mut i: usize = 0;
                while i < n
                    invariant
                        n == ws@.len(),
                        n == wm.len(),
                        wm == words(c@),
                        attr_get(element.attributes@, "class"@) == Some(c@),
                        s@ == trim_seq(selector@),
                        s@.len() > 0 && s@[0] == '.',
                        !(s@[0] == '#'),
                        name@ == s@.drop_first(),
                        forall|k: int| 0 <= k < n ==> #[trigger] ws@[k]@ == wm[k],
                        0 <= i <= n,
                        forall|k: int| 0 <= k < i ==> wm[k] != name@,
                    decreases n - i,
                {
                    if chars_eq(&ws[i], &name) {
                        assert(wm[i as int] == name@);
                        return true;
                    }
                    i += 1;
                }
                false
            },
            None => false,
        }
    } else {
        chars_eq(&chars_of(element.name.as_str()), &s)
    }
}

/// The declarations the rules give an element, later rules overriding earlier ones.
pub open spec fn cascade(rules: Seq<RuleM>, m: ElemM) -> AttrsM
    decreases rules.len(),
{
    if rules.len() == 0 {
        seq![]
    } else if selector_matches(rules.last().selector, m) {
        set_all(cascade(rules.drop_last(), m), rules.last().decls)
    } else {
        cascade(rules.drop_last(), m)
    }
}

/// The declarations the rules give an element.
pub fn cascade_styles(rules: &Vec<CssRuleData>, element: &Element) -> (r: Attributes)
    ensures
        r@ == cascade(rules_view(rules@), elem_model(*element)),
{
    let ghost rv = rules_view(rules@);
    let mut acc = Attributes::new();
    let n = rules.len();
    let mut i: usize = 0;
    assert(rv.take(0) =~= Seq::<RuleM>::empty());
    while i < n
        invariant
            n == rules@.len(),
            rv == rules_view(rules@),
            0 <= i <= n,
            acc@ == cascade(rv.take(i as int), elem_model(*element)),
        decreases n - i,
    {
        assert(rv.take(i + 1).drop_last() =~= rv.take(i as int));
        assert(rv.take(i + 1).last() == rules@[i as int]@);
        if selector_matches_element(rules[i].selector.as_str(), element) {
            let ghost base = acc@;
            let ghost dm = pairs_view(rules[i as int].declarations@);
            let m = rules[i].declarations.len();
            let mut j: usize = 0;
            assert(dm.take(0) =~= Seq::<(Seq<char>, Seq<char>)>::empty());
            while j < m
                invariant
                    m == rules@[i as int].declarations@.len(),
                    dm == pairs_view(rules@[i as int].declarations@),
                    0 <= j <= m,
                    i < n,
                    n == rules@.len(),
                    acc@ == set_all(base, dm.take(j as int)),
                decreases m - j,
            {
                assert(dm.take(j + 1).drop_last() =~= dm.take(j as int));
                let k = rules[i].declarations[j].0.clone();
                let v = rules[i].declarations[j].1.clone();
                acc.insert(k, v);
                j += 1;
            }
            assert(dm.take(m as int) =~= dm);
        }
        i += 1;
    }
    assert(rv.take(n as int) =~= rv);
    acc
}


/// The attributes of an element once the rules' declarations are merged into its
/// `style` attribute (unchanged when no rule gives it a declaration).
pub open spec fn styled_attrs(rules: Seq<RuleM>, m: ElemM) -> AttrsM {
    let st = cascade(rules, m);
    if st.len() == 0 {
        m.attrs
    } else {
        attr_set(
            m.attrs,
            "style"@,
            merged_style_text(
                match attr_get(m.attrs, "style"@) {
                    Some(v) => v,
                    None => seq![],
                },
                st,
            ),
        )
    }
}

/// The tree with the rules inlined into every element but `<style>` elements, and,
/// when `clear` holds, every `<style>` element emptied.
pub open spec fn inline_tree(rules: Seq<RuleM>, clear: bool, m: ElemM) -> ElemM
    decreases m,
{
    if m.name == "style"@ && clear {
        ElemM { name: m.name, attrs: m.attrs, namespaces: m.namespaces, children: seq![] }
    } else {
        ElemM {
            name: m.name,
            attrs: if m.name == "style"@ {
                m.attrs
            } else {
                styled_attrs(rules, m)
            },
            namespaces: m.namespaces,
            children: Seq::new(
                m.children.len(),
                |i: int|
                    if 0 <= i < m.children.len() {
                        inline_node(rules, clear, m.children[i])
                    } else {
                        m.children[i]
                    },
            ),
        }
    }
}

/// A node with the rules inlined into the elements in it.
pub open spec fn inline_node(rules: Seq<RuleM>, clear: bool, n: NodeM) -> NodeM
    decreases n,
{
    match n {
        NodeM::Element(c) => NodeM::Element(inline_tree(rules, clear, c)),
        _ => n,
    }
}

/// The document tree after the plugin: the rules of all sheets, ordered by
/// specificity, inlined, and the sheets emptied when so configured.
pub open spec fn inlined(root: ElemM, cfg: InlineStylesConfig) -> ElemM {
    inline_tree(
        sort_rules(sheets_rules(document_sheets(root), cfg)),
        cfg.remove_matched_selectors,
        root,
    )
}

/// Inlines the rules into `e` and the elements below it.
fn inline_element(rules: &Vec<CssRuleData>, clear: bool, e: Element) -> (res: Element)
    ensures
        elem_model(res) == inline_tree(rules_view(rules@), clear, elem_model(e)),
    decreases e,
{
    let ghost e0 = e;
    let ghost rv = rules_view(rules@);
    let is_style = e.is_named("style");
    if is_style && clear {
        let Element { name, attributes, namespaces, children } = e;
        let res = Element { name, attributes, namespaces, children: Vec::new() };
        assert(elem_model(res).children =~= Seq::<NodeM>::empty());
        return res;
    }
    let mut cur = e;
    if !is_style {
        let st = cascade_styles(rules, &cur);
        if st.len() > 0 {
            let existing = match cur.attributes.get("style") {
                Some(v) => v.clone(),
                None => String::new(),
            };
            assert(pairs_view(st.entries@) =~= st@);
            let merged = merge_styles(existing.as_str(), &st.entries);
            cur.attributes.insert(owned("style"), merged);
        }
    }
    assert(cur.attributes@ == (if is_style {
        elem_model(e0).attrs
    } else {
        styled_attrs(rv, elem_model(e0))
    }));
    let Element { name, attributes, namespaces, children } = cur;
    let mut children = children;
    let n = children.len();
    let mut i: usize = 0;
    while i < n
        invariant
            e == e0,
            n == children@.len(),
            n == e0.children@.len(),
            rv == rules_view(rules@),
            0 <= i <= n,
            forall|j: int|
                0 <= j < i ==> node_model(#[trigger] children@[j]) == inline_node(
                    rv,
                    clear,
                    node_model(e0.children@[j]),
                ),
            forall|j: int| i <= j < n ==> children@[j] == e0.children@[j],
        decreases n - i,
    {
        let mut tmp = Node::Text(String::new());
        std::mem::swap(&mut children[i], &mut tmp);
        let next = match tmp {
            Node::Element(c) => {
                proof {
                    assert(decreases_to!(e0 => e0.children));
                    assert(decreases_to!(e0.children => e0.children[i as int]));
                    assert(decreases_to!(e0 => c));
                }
                Node::Element(inline_element(rules, clear, c))
            },
            other => other,
        };
        children.set(i, next);
        i += 1;
    }
    let res = Element { name, attributes, namespaces, children };
    assert(elem_model(res).children =~= inline_tree(rv, clear, elem_model(e0)).children);
    res
}

impl InlineStylesPlugin {
    /// The plugin with default settings.
    pub fn new() -> (r: Self)
        ensures
            r.config.only_matched_once,
            r.config.remove_matched_selectors,
            r.config.use_mqs,
            r.config.use_pseudos,
    {
        InlineStylesPlugin { config: InlineStylesConfig::default() }
    }

    /// The plugin with the given settings.
    pub fn with_config(config: InlineStylesConfig) -> (r: Self)
        ensures
            r.config == config,
    {
        InlineStylesPlugin { config }
    }

    /// The plugin's name.
    pub fn name(&self) -> (r: &'static str)
        ensures
            r@ == "inlineStyles"@,
    {
        "inlineStyles"
    }

    /// What the plugin does.
    pub fn description(&self) -> (r: &'static str)
        ensures
            r@ == "Move and merge styles from style elements to inline style attributes"@,
    {
        "Move and merge styles from style elements to inline style attributes"
    }

    /// The rules of every style sheet under `root`, in document order, or `None` when
    /// a rule's specificity does not fit in a `u32`.
    pub fn collect_rules(&self, root: &Element) -> (r: Option<Vec<CssRuleData>>)
        ensures
            r is Some <==> sheets_fit(document_sheets(elem_model(*root)), self.config),
            r is Some ==> rules_view(r.unwrap()@) == sheets_rules(
                document_sheets(elem_model(*root)),
                self.config,
            ),
    {
        let mut sheets: Vec<String> = Vec::new();
        collect_sheets(root, &mut sheets);
        let ghost sv = strings_view(sheets@);
        assert(sv =~= document_sheets(elem_model(*root)));
        let mut all: Vec<CssRuleData> = Vec::new();
        let n = sheets.len();
        let mut i: usize = 0;
        assert(sv.take(0) =~= Seq::<Seq<char>>::empty());
        assert(rules_view(all@) =~= seq![]);
        while i < n
            invariant
                n == sheets@.len(),
                sv == strings_view(sheets@),
                sv == document_sheets(elem_model(*root)),
                0 <= i <= n,
                rules_view(all@) == sheets_rules(sv.take(i as int), self.config),
                forall|j: int|
                    0 <= j < i ==> rules_fit(#[trigger] sheet_rules(sv[j], self.config, j)),
            decreases n - i,
        {
            assert(sv.take(i + 1).drop_last() =~= sv.take(i as int));
            assert(sv[i as int] == sheets@[i as int]@);
            match parse_css_rules(sheets[i].as_str(), &self.config, i) {
                Some(v) => {
                    let mut v = v;
                    let ghost before = all@;
                    let ghost added = v@;
                    all.append(&mut v);
                    assert(rules_view(all@) =~= rules_view(before) + rules_view(added));
                },
                None => {
                    assert(!rules_fit(sheet_rules(sv[i as int], self.config, i as int)));
                    return None;
                },
            }
            i += 1;
        }
        assert(sv.take(n as int) =~= sv);
        Some(all)
    }

    /// Inlines the rules of every style sheet into the elements they match, when every
    /// rule's specificity fits in a `u32`.
    pub fn apply(&self, document: &mut Document) -> (r: Result<(), PluginError>)
        requires
            sheets_fit(document_sheets(doc_model(*old(document)).root), self.config),
        ensures
            r is Ok,
            doc_model(*final(document)) == doc_with_root(
                doc_model(*old(document)),
                inlined(doc_model(*old(document)).root, self.config),
            ),
    {
        match self.collect_rules(&document.root) {
            Some(rules) => {
                let sorted = sort_by_specificity(rules);
                let root = take_root(document);
                document.root = inline_element(&sorted, self.config.remove_matched_selectors, root);
                Ok(())
            },
            None => {
                proof {
                    assert(false);
                }
                Ok(())
            },
        }
    }

    /// Inlines the rules of every style sheet when every rule's specificity fits in a
    /// `u32`, and says whether it did; otherwise the document stays as it is.
    pub fn try_apply(&self, document: &mut Document) -> (r: bool)
        ensures
            r == sheets_fit(document_sheets(doc_model(*old(document)).root), self.config),
            r ==> doc_model(*final(document)) == doc_with_root(
                doc_model(*old(document)),
                inlined(doc_model(*old(document)).root, self.config),
            ),
            !r ==> *final(document) == *old(document),
    {
        match self.collect_rules(&document.root) {
            Some(_) => {
                let _ = self.apply(document);
                true
            },
            None => false,
        }
    }
}

/// The value the last declaration of name `k` gives, if any.
pub open spec fn last_value(ds: AttrsM, k: Seq<char>) -> Option<Seq<char>>
    decreases ds.len(),
{
    if ds.len() == 0 {
        None
    } else if ds.last().0 == k {
        Some(ds.last().1)
    } else {
        last_value(ds.drop_last(), k)
    }
}

/// Later declarations override earlier ones: after setting declarations in turn, a
/// name has the value of its last declaration, and a name without one keeps its value.
pub proof fn lemma_set_all_overrides(acc: AttrsM, ds: AttrsM, k: Seq<char>)
    ensures
        attr_get(set_all(acc, ds), k) == match last_value(ds, k) {
            Some(v) => Some(v),
            None => attr_get(acc, k),
        },
    decreases ds.len(),
{
    if ds.len() > 0 {
        lemma_set_all_overrides(acc, ds.drop_last(), k);
        lemma_attr_set_get(set_all(acc, ds.drop_last()), ds.last().0, ds.last().1, k);
    }
}

/// Merging into an existing `style` value: each new name takes the value of its last
/// new declaration, and each existing name without a new declaration keeps its value.
pub proof fn lemma_merge_overrides(existing: Seq<char>, new_styles: AttrsM, k: Seq<char>)
    ensures
        attr_get(set_all(style_map(split_on(existing, ';')), new_styles), k) == match last_value(
            new_styles,
            k,
        ) {
            Some(v) => Some(v),
            None => attr_get(style_map(split_on(existing, ';')), k),
        },
{
    lemma_set_all_overrides(style_map(split_on(existing, ';')), new_styles, k);
}

/// Facts about `ins_pos`: every rule before it has a specificity of at most `k`, the
/// rule at it (if any) a greater one.
proof fn lemma_ins_pos_bounds(t: Seq<RuleM>, k: int)
    ensures
        ins_pos(t, k) <= t.len(),
        forall|q: int| 0 <= q < ins_pos(t, k) ==> #[trigger] t[q].specificity <= k,
        ins_pos(t, k) < t.len() ==> t[ins_pos(t, k) as int].specificity > k,
    decreases t.len(),
{
    if t.len() > 0 && t[0].specificity <= k {
        lemma_ins_pos_bounds(t.drop_first(), k);
        assert forall|q: int| 0 <= q < ins_pos(t, k) implies #[trigger] t[q].specificity <= k by {
            if q > 0 {
                assert(t[q] == t.drop_first()[q - 1]);
            }
        }
        if ins_pos(t, k) < t.len() {
            assert(t[ins_pos(t, k) as int] == t.drop_first()[ins_pos(t.drop_first(), k) as int]);
        }
    }
}

/// Ordering by specificity keeps the rules, counted with repetition, and orders them:
/// no rule has a greater specificity than one after it.
pub proof fn lemma_sort_rules_ordered(s: Seq<RuleM>)
    ensures
        sort_rules(s).to_multiset() == s.to_multiset(),
        forall|i: int, j: int|
            0 <= i < j < sort_rules(s).len() ==> #[trigger] sort_rules(s)[i].specificity
                <= #[trigger] sort_rules(s)[j].specificity,
    decreases s.len(),
{
    broadcast use vstd::seq_lib::to_multiset_insert, vstd::seq_lib::to_multiset_build;

    if s.len() > 0 {
        let t = sort_rules(s.drop_last());
        let x = s.last();
        let k = x.specificity;
        lemma_sort_rules_ordered(s.drop_last());
        lemma_ins_pos_bounds(t, k);
        let p = ins_pos(t, k) as int;
        let u = t.insert(p, x);
        assert(s.drop_last().push(x) =~= s);
        assert(u.to_multiset() == t.to_multiset().insert(x));
        assert(s.drop_last().push(x).to_multiset() == s.drop_last().to_multiset().insert(x));
        assert forall|i: int, j: int| 0 <= i < j < u.len() implies #[trigger] u[i].specificity
            <= #[trigger] u[j].specificity by {
            if j < p {
                assert(u[i] == t[i] && u[j] == t[j]);
            } else if j == p {
                assert(u[i] == t[i]);
                assert(t[i].specificity <= k);
            } else if i < p {
                assert(u[i] == t[i] && u[j] == t[j - 1]);
                assert(t[p].specificity > k);
                assert(t[i].specificity <= k);
                if j - 1 > p {
                    assert(t[p].specificity <= t[j - 1].specificity);
                }
            } else if i == p {
                assert(u[j] == t[j - 1]);
                assert(t[p].specificity > k);
                if j - 1 > p {
                    assert(t[p].specificity <= t[j - 1].specificity);
                }
            } else {
                assert(u[i] == t[i - 1] && u[j] == t[j - 1]);
            }
        }
    }
}


} // verus!
