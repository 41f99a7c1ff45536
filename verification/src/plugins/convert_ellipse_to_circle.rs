//! Converts non-eccentric `<ellipse>` elements to `<circle>` elements.
use vstd::prelude::*;
use crate::ast::{attr_get, attr_set, attr_swap_remove, doc_model, doc_with_root, elem_model, AttrsM, Document, ElemM, Element, PluginError};
use crate::text::{owned, str_eq};
use crate::walk::{rewrite_document, rewrite_tree, ElementRewrite};

verus! {

/// Settings of the plugin (there are none).
pub struct ConvertEllipseToCircleConfig {}

impl Default for ConvertEllipseToCircleConfig {
    fn default() -> (r: Self) {
        ConvertEllipseToCircleConfig {}
    }
}

/// The value of a radius attribute, `0` when absent.
pub open spec fn radius_attr(a: AttrsM, k: Seq<char>) -> Seq<char> {
    if attr_get(a, k) is Some {
        attr_get(a, k).unwrap()
    } else {
        "0"@
    }
}

/// Whether an element is an ellipse with equal radii, or with an `auto` radius.
pub open spec fn ellipse_converts(m: ElemM) -> bool {
    m.name == "ellipse"@ && (radius_attr(m.attrs, "rx"@) == radius_attr(m.attrs, "ry"@)
        || radius_attr(m.attrs, "rx"@) == "auto"@ || radius_attr(m.attrs, "ry"@) == "auto"@)
}

/// The radius of the circle: `ry` when `rx` is `auto`, else `rx`.
pub open spec fn circle_radius(a: AttrsM) -> Seq<char> {
    if radius_attr(a, "rx"@) == "auto"@ {
        radius_attr(a, "ry"@)
    } else {
        radius_attr(a, "rx"@)
    }
}

/// Plugin that converts ellipses to circles.
pub struct ConvertEllipseToCirclePlugin {
    pub config: ConvertEllipseToCircleConfig,
}

impl ElementRewrite for ConvertEllipseToCirclePlugin {
    open spec fn spec_marks(&self, m: ElemM) -> bool {
        false
    }

    open spec fn spec_name(&self, m: ElemM, inside: bool) -> Seq<char> {
        if ellipse_converts(m) {
            "circle"@
        } else {
            m.name
        }
    }

    open spec fn spec_attrs(&self, m: ElemM, inside: bool) -> AttrsM {
        if ellipse_converts(m) {
            attr_set(
                attr_swap_remove(attr_swap_remove(m.attrs, "rx"@), "ry"@),
                "r"@,
                circle_radius(m.attrs),
            )
        } else {
            m.attrs
        }
    }

    fn marks(&self, e: &Element) -> (b: bool) {
        false
    }

    fn rewrite(&self, e: &mut Element, inside: bool) {
        if !e.is_named("ellipse") {
            return;
        }
        let rx = match e.attributes.get_cloned("rx") {
            Some(v) => v,
            None => owned("0"),
        };
        let ry = match e.attributes.get_cloned("ry") {
            Some(v) => v,
            None => owned("0"),
        };
        if str_eq(rx.as_str(), ry.as_str()) || str_eq(rx.as_str(), "auto") || str_eq(ry.as_str(), "auto") {
            e.name = owned("circle");
            let radius = if str_eq(rx.as_str(), "auto") {
                ry
            } else {
                rx
            };
            e.attributes.swap_remove("rx");
            e.attributes.swap_remove("ry");
            e.attributes.insert(owned("r"), radius);
        }
    }
}

impl ConvertEllipseToCirclePlugin {
    /// The plugin.
    pub fn new() -> (r: Self) {
        ConvertEllipseToCirclePlugin { config: ConvertEllipseToCircleConfig::default() }
    }

    /// The plugin with the given settings.
    pub fn with_config(config: ConvertEllipseToCircleConfig) -> (r: Self)
        ensures
            r.config == config,
    {
        ConvertEllipseToCirclePlugin { config }
    }

    /// The plugin's name.
    pub fn name(&self) -> (r: &'static str)
        ensures
            r@ == "convertEllipseToCircle"@,
    {
        "convertEllipseToCircle"
    }

    /// What the plugin does.
    pub fn description(&self) -> (r: &'static str)
        ensures
            r@ == "converts non-eccentric <ellipse>s to <circle>s"@,
    {
        "converts non-eccentric <ellipse>s to <circle>s"
    }

    /// Converts every convertible ellipse under the root.
    pub fn apply(&self, document: &mut Document) -> (r: Result<(), PluginError>)
        ensures
            r is Ok,
            doc_model(*final(document)) == doc_with_root(
                doc_model(*old(document)),
                rewrite_tree(*self, doc_model(*old(document)).root, false),
            ),
    {
        rewrite_document(self, document);
        Ok(())
    }
}

} // verus!
