//! Settings of the plugin that converts basic shapes to paths. The coordinate
//! arithmetic itself is binary floating point and is not part of this library.
use vstd::prelude::*;
use crate::ast::{elem_model, Element, Node, NodeM};
use crate::text::{chars_of, str_eq};
use crate::walk::{prune_element, prune_tree, NodePrune};

verus! {

broadcast use vstd::string::group_string_axioms;

/// Drops the elements marked for removal: those left without a name.
pub struct EmptyNamePrune {}

impl NodePrune for EmptyNamePrune {
    open spec fn spec_keep(&self, n: NodeM) -> bool {
        match n {
            NodeM::Element(c) => c.name.len() > 0,
            _ => true,
        }
    }

    fn keep(&self, n: &Node) -> (b: bool) {
        match n {
            Node::Element(c) => chars_of(c.name.as_str()).len() > 0,
            _ => true,
        }
    }
}

/// Removes, everywhere under an element, the elements marked for removal (those left
/// without a name), with all they hold.
pub fn remove_empty_elements(element: Element) -> (r: Element)
    ensures
        elem_model(r) == prune_tree(EmptyNamePrune {  }, elem_model(element)),
{
    prune_element(&EmptyNamePrune {  }, element)
}

/// The shapes the plugin converts.
#[derive(Debug, Clone, Copy, PartialEq, Eq, Structural)]
pub enum ShapeKind {
    Rect,
    Line,
    Polyline,
    Polygon,
    Circle,
    Ellipse,
}

/// The shape an element of a name is, among those converted: circles and ellipses only
/// when arcs are asked for.
pub open spec fn shape_kind_of(name: Seq<char>, convert_arcs: bool) -> Option<ShapeKind> {
    if name == "rect"@ {
        Some(ShapeKind::Rect)
    } else if name == "line"@ {
        Some(ShapeKind::Line)
    } else if name == "polyline"@ {
        Some(ShapeKind::Polyline)
    } else if name == "polygon"@ {
        Some(ShapeKind::Polygon)
    } else if name == "circle"@ && convert_arcs {
        Some(ShapeKind::Circle)
    } else if name == "ellipse"@ && convert_arcs {
        Some(ShapeKind::Ellipse)
    } else {
        None
    }
}

/// Settings of the plugin.
pub struct ConvertShapeToPathConfig {
    /// Convert circles and ellipses to paths with arc commands.
    pub convert_arcs: bool,
    /// Decimal places of numbers.
    pub float_precision: Option<u8>,
}

impl Default for ConvertShapeToPathConfig {
    fn default() -> (r: Self)
        ensures
            !r.convert_arcs,
            r.float_precision.is_none(),
    {
        ConvertShapeToPathConfig { convert_arcs: false, float_precision: None }
    }
}

/// Plugin that converts basic shapes to paths.
pub struct ConvertShapeToPathPlugin {
    pub config: ConvertShapeToPathConfig,
}

impl ConvertShapeToPathPlugin {
    /// The plugin with the default settings.
    pub fn new() -> (r: Self)
        ensures
            !r.config.convert_arcs,
            r.config.float_precision.is_none(),
    {
        ConvertShapeToPathPlugin { config: ConvertShapeToPathConfig::default() }
    }

    /// The plugin with the given settings.
    pub fn with_config(config: ConvertShapeToPathConfig) -> (r: Self)
        ensures
            r.config == config,
    {
        ConvertShapeToPathPlugin { config }
    }

    /// The shape an element of a name is, among those the plugin converts.
    pub fn shape_kind(&self, name: &str) -> (r: Option<ShapeKind>)
        ensures
            r == shape_kind_of(name@, self.config.convert_arcs),
    {
        if str_eq(name, "rect") {
            Some(ShapeKind::Rect)
        } else if str_eq(name, "line") {
            Some(ShapeKind::Line)
        } else if str_eq(name, "polyline") {
            Some(ShapeKind::Polyline)
        } else if str_eq(name, "polygon") {
            Some(ShapeKind::Polygon)
        } else if str_eq(name, "circle") && self.config.convert_arcs {
            Some(ShapeKind::Circle)
        } else if str_eq(name, "ellipse") && self.config.convert_arcs {
            Some(ShapeKind::Ellipse)
        } else {
            None
        }
    }

    /// The plugin's name.
    pub fn name(&self) -> (r: &'static str)
        ensures
            r@ == "convertShapeToPath"@,
    {
        "convertShapeToPath"
    }

    /// What the plugin does.
    pub fn description(&self) -> (r: &'static str)
        ensures
            r@ == "converts basic shapes to more compact path form"@,
    {
        "converts basic shapes to more compact path form"
    }
}

} // verus!
