//! Removes `<desc>` elements that are empty or hold only an editor's standard text.
use vstd::prelude::*;
use crate::ast::{doc_model, doc_with_root, elem_model, node_model, Document, ElemM, Element, Node, NodeM, PluginError};
use crate::text::{starts_with_seq, starts_with_str};
use crate::walk::{prune_document, prune_tree, NodePrune};

verus! {

/// Settings of the plugin.
pub struct RemoveDescConfig {
    /// Remove every `<desc>`, not only empty or standard ones.
    pub remove_any: bool,
}

impl Default for RemoveDescConfig {
    fn default() -> (r: Self)
        ensures
            !r.remove_any,
    {
        RemoveDescConfig { remove_any: false }
    }
}

/// Whether a text is an editor's standard description (`Created with...`, `Created using...`).
pub open spec fn standard_desc(t: Seq<char>) -> bool {
    starts_with_seq(t, "Created with"@) || starts_with_seq(t, "Created using"@)
}

/// Whether a `<desc>` element goes: always with `remove_any`, else when it has no
/// children or a single text child with standard text.
pub open spec fn desc_removable(remove_any: bool, m: ElemM) -> bool {
    remove_any || m.children.len() == 0 || (m.children.len() == 1 && match m.children[0] {
        NodeM::Text(t) => standard_desc(t),
        _ => false,
    })
}

/// Plugin that removes `<desc>` elements.
pub struct RemoveDescPlugin {
    pub config: RemoveDescConfig,
}

impl NodePrune for RemoveDescPlugin {
    open spec fn spec_keep(&self, n: NodeM) -> bool {
        match n {
            NodeM::Element(c) => !(c.name == "desc"@ && desc_removable(self.config.remove_any, c)),
            _ => true,
        }
    }

    fn keep(&self, n: &Node) -> (b: bool) {
        match n {
            Node::Element(c) => !(c.is_named("desc") && self.should_remove_desc(c)),
            _ => true,
        }
    }
}

impl RemoveDescPlugin {
    /// The plugin with the default settings.
    pub fn new() -> (r: Self)
        ensures
            !r.config.remove_any,
    {
        RemoveDescPlugin { config: RemoveDescConfig::default() }
    }

    /// The plugin with the given settings.
    pub fn with_config(config: RemoveDescConfig) -> (r: Self)
        ensures
            r.config == config,
    {
        RemoveDescPlugin { config }
    }

    /// The plugin's name.
    pub fn name(&self) -> (r: &'static str)
        ensures
            r@ == "removeDesc"@,
    {
        "removeDesc"
    }

    /// What the plugin does.
    pub fn description(&self) -> (r: &'static str)
        ensures
            r@ == "removes <desc> element"@,
    {
        "removes <desc> element"
    }

    /// Whether a `<desc>` element goes.
    pub fn should_remove_desc(&self, desc: &Element) -> (r: bool)
        ensures
            r == desc_removable(self.config.remove_any, elem_model(*desc)),
    {
        if self.config.remove_any {
            return true;
        }
        if desc.children.len() == 0 {
            return true;
        }
        if desc.children.len() == 1 {
            assert(elem_model(*desc).children[0] == node_model(desc.children@[0]));
            if let Node::Text(t) = &desc.children[0] {
                return starts_with_str(t.as_str(), "Created with") || starts_with_str(
                    t.as_str(),
                    "Created using",
                );
            }
        }
        false
    }

    /// Removes the `<desc>` elements that go, everywhere under the root.
    pub fn apply(&self, document: &mut Document) -> (r: Result<(), PluginError>)
        ensures
            r is Ok,
            doc_model(*final(document)) == doc_with_root(
                doc_model(*old(document)),
                prune_tree(*self, doc_model(*old(document)).root),
            ),
    {
        prune_document(self, document);
        Ok(())
    }
}

} // verus!
