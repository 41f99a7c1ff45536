//! Removes deprecated attributes.
use vstd::prelude::*;
use crate::ast::{attr_shift_remove, doc_model, doc_with_root, has_key, AttrsM, Attributes, Document, ElemM, Element, PluginError};
use crate::text::str_eq;
use crate::walk::{rewrite_document, rewrite_tree, ElementRewrite};

verus! {

/// Settings of the plugin.
pub struct RemoveDeprecatedAttrsConfig {
    /// Also remove deprecated attributes whose removal may change rendering.
    pub remove_unsafe: bool,
}

impl Default for RemoveDeprecatedAttrsConfig {
    fn default() -> (r: Self)
        ensures
            !r.remove_unsafe,
    {
        RemoveDeprecatedAttrsConfig { remove_unsafe: false }
    }
}

/// Elements with a known attribute-group configuration (all have the `core` group).
pub open spec fn known_element(name: Seq<char>) -> bool {
    name == "a"@ || name == "circle"@ || name == "ellipse"@ || name == "g"@ || name == "image"@
        || name == "line"@ || name == "path"@ || name == "polygon"@ || name == "polyline"@ || name
        == "rect"@ || name == "svg"@ || name == "text"@ || name == "use"@ || name == "animate"@
        || name == "animateTransform"@
}

/// The elements whose deprecated attributes are known are exactly those named in this
/// statement.
pub proof fn lemma_known_element_names(name: Seq<char>)
    ensures
        known_element(name) <==> (name == "animateTransform"@ || name == "animate"@ || name == "use"@ || name == "text"@ || name == "svg"@ || name == "rect"@ || name == "polyline"@ || name == "polygon"@ || name == "path"@ || name == "line"@ || name == "image"@ || name == "g"@ || name == "ellipse"@ || name == "circle"@ || name == "a"@),
{
}

/// Whether an element has the `presentation` attribute group.
pub open spec fn has_presentation(name: Seq<char>) -> bool {
    known_element(name) && name != "animateTransform"@
}

/// Whether an element has the `animationAttributeTarget` attribute group.
pub open spec fn has_animation_target(name: Seq<char>) -> bool {
    name == "animate"@ || name == "animateTransform"@
}

/// The elements with animation-target attributes are `animate` and `animateTransform`.
pub proof fn lemma_has_animation_target_names(name: Seq<char>)
    ensures
        has_animation_target(name) <==> (name == "animateTransform"@ || name == "animate"@),
{
}

/// The unsafe deprecated attributes of an element, group by group.
pub open spec fn unsafe_deprecated(name: Seq<char>) -> Seq<Seq<char>> {
    if !known_element(name) {
        seq![]
    } else {
        seq!["requiredFeatures"@, "xml:base"@, "xml:lang"@, "xml:space"@] + (if has_presentation(name) {
            seq![
                "clip"@,
                "color-profile"@,
                "enable-background"@,
                "glyph-orientation-horizontal"@,
                "glyph-orientation-vertical"@,
                "kerning"@,
            ]
        } else {
            seq![]
        }) + (if has_animation_target(name) {
            seq!["attributeType"@]
        } else {
            seq![]
        })
    }
}

/// `a` with the attributes `ks` removed one after another.
pub open spec fn remove_all(a: AttrsM, ks: Seq<Seq<char>>) -> AttrsM
    decreases ks.len(),
{
    if ks.len() == 0 {
        a
    } else {
        attr_shift_remove(remove_all(a, ks.drop_last()), ks.last())
    }
}

/// The attributes of an element after the plugin: `xml:lang` goes when `lang` is
/// present, and with `remove_unsafe` the unsafe deprecated attributes go.
pub open spec fn deprecated_removed(remove_unsafe: bool, m: ElemM) -> AttrsM {
    let a = if known_element(m.name) && has_key(m.attrs, "xml:lang"@) && has_key(m.attrs, "lang"@) {
        attr_shift_remove(m.attrs, "xml:lang"@)
    } else {
        m.attrs
    };
    if remove_unsafe {
        remove_all(a, unsafe_deprecated(m.name))
    } else {
        a
    }
}

/// Whether an element has a known configuration (computed).
fn known_element_exec(name: &str) -> (r: bool)
    ensures
        r == known_element(name@),
{
    str_eq(name, "a") || str_eq(name, "circle") || str_eq(name, "ellipse") || str_eq(name, "g")
        || str_eq(name, "image") || str_eq(name, "line") || str_eq(name, "path") || str_eq(
        name,
        "polygon",
    ) || str_eq(name, "polyline") || str_eq(name, "rect") || str_eq(name, "svg") || str_eq(
        name,
        "text",
    ) || str_eq(name, "use") || str_eq(name, "animate") || str_eq(name, "animateTransform")
}

/// The unsafe deprecated attributes of an element (computed).
pub fn unsafe_deprecated_exec(name: &str) -> (r: Vec<&'static str>)
    ensures
        r@.len() == unsafe_deprecated(name@).len(),
        forall|k: int| 0 <= k < r@.len() ==> #[trigger] r@[k]@ == unsafe_deprecated(name@)[k],
{
    let mut r: Vec<&'static str> = Vec::new();
    if !known_element_exec(name) {
        return r;
    }
    r.push("requiredFeatures");
    r.push("xml:base");
    r.push("xml:lang");
    r.push("xml:space");
    let presentation = !str_eq(name, "animateTransform");
    if presentation {
        r.push("clip");
        r.push("color-profile");
        r.push("enable-background");
        r.push("glyph-orientation-horizontal");
        r.push("glyph-orientation-vertical");
        r.push("kerning");
    }
    let target = str_eq(name, "animate") || str_eq(name, "animateTransform");
    if target {
        r.push("attributeType");
    }
    let ghost want = unsafe_deprecated(name@);
    assert(r@.len() == want.len());
    assert forall|k: int| 0 <= k < r@.len() implies #[trigger] r@[k]@ == want[k] by {
        if presentation {
            if target {
                assert(want == seq!["requiredFeatures"@, "xml:base"@, "xml:lang"@, "xml:space"@, "clip"@, "color-profile"@, "enable-background"@, "glyph-orientation-horizontal"@, "glyph-orientation-vertical"@, "kerning"@, "attributeType"@]);
            } else {
                assert(want == seq!["requiredFeatures"@, "xml:base"@, "xml:lang"@, "xml:space"@, "clip"@, "color-profile"@, "enable-background"@, "glyph-orientation-horizontal"@, "glyph-orientation-vertical"@, "kerning"@]);
            }
        } else {
            assert(want == seq!["requiredFeatures"@, "xml:base"@, "xml:lang"@, "xml:space"@, "attributeType"@]);
        }
    }
    r
}

/// Plugin that removes deprecated attributes.
pub struct RemoveDeprecatedAttrsPlugin {
    pub config: RemoveDeprecatedAttrsConfig,
}

impl ElementRewrite for RemoveDeprecatedAttrsPlugin {
    open spec fn spec_marks(&self, m: ElemM) -> bool {
        false
    }

    open spec fn spec_name(&self, m: ElemM, inside: bool) -> Seq<char> {
        m.name
    }

    open spec fn spec_attrs(&self, m: ElemM, inside: bool) -> AttrsM {
        deprecated_removed(self.config.remove_unsafe, m)
    }

    fn marks(&self, e: &Element) -> (b: bool) {
        false
    }

    fn rewrite(&self, e: &mut Element, inside: bool) {
        let known = known_element_exec(e.name.as_str());
        if known && e.has_attr("xml:lang") && e.has_attr("lang") {
            e.attributes.shift_remove("xml:lang");
        }
        if self.config.remove_unsafe {
            let ks = unsafe_deprecated_exec(e.name.as_str());
            let ghost a0 = e.attributes@;
            let ghost want = unsafe_deprecated(e.name@);
            let n = ks.len();
            let mut i: usize = 0;
            assert(want.take(0) =~= Seq::<Seq<char>>::empty());
            while i < n
                invariant
                    n == ks@.len(),
                    n == want.len(),
                    forall|k: int| 0 <= k < ks@.len() ==> #[trigger] ks@[k]@ == want[k],
                    0 <= i <= n,
                    e.attributes@ == remove_all(a0, want.take(i as int)),
                    e.name == old(e).name,
                    e.children == old(e).children,
                    e.namespaces == old(e).namespaces,
                decreases n - i,
            {
                assert(want.take(i + 1).drop_last() =~= want.take(i as int));
                assert(want.take(i + 1).last() == ks@[i as int]@);
                e.attributes.shift_remove(ks[i]);
                i += 1;
            }
            assert(want.take(n as int) =~= want);
        }
    }
}

impl RemoveDeprecatedAttrsPlugin {
    /// The plugin with the default settings.
    pub fn new() -> (r: Self)
        ensures
            !r.config.remove_unsafe,
    {
        RemoveDeprecatedAttrsPlugin { config: RemoveDeprecatedAttrsConfig::default() }
    }

    /// The plugin with the given settings.
    pub fn with_config(config: RemoveDeprecatedAttrsConfig) -> (r: Self)
        ensures
            r.config == config,
    {
        RemoveDeprecatedAttrsPlugin { config }
    }

    /// The plugin's name.
    pub fn name(&self) -> (r: &'static str)
        ensures
            r@ == "removeDeprecatedAttrs"@,
    {
        "removeDeprecatedAttrs"
    }

    /// What the plugin does.
    pub fn description(&self) -> (r: &'static str)
        ensures
            r@ == "removes deprecated attributes"@,
    {
        "removes deprecated attributes"
    }

    /// Removes the deprecated attributes of every element under the root.
    pub fn apply(&self, document: &mut Document) -> (r: Result<(), PluginError>)
        ensures
            r is Ok,
            doc_model(*final(document)) == doc_with_root(
                doc_model(*old(document)),
                rewrite_tree(*self, doc_model(*old(document)).root, false),
            ),
    {
        rewrite_document(self, document);
        Ok(())
    }
}

} // verus!
