//! Removes elements by ID or class name.
use vstd::prelude::*;
use crate::ast::{attr_get, doc_model, doc_with_root, elem_model, node_model, Document, ElemM, Element, Node, NodeM, PluginError};
use crate::text::{chars_of, split_whitespace, string_from, strings_contain, vec_contains_str, words};
use crate::walk::{prune_document, prune_tree, NodePrune};

verus! {

/// Settings of the plugin.
pub struct RemoveElementsByAttrConfig {
    /// IDs of the elements to remove.
    pub id: Vec<String>,
    /// Class names of the elements to remove.
    pub class: Vec<String>,
}

impl Default for RemoveElementsByAttrConfig {
    fn default() -> (r: Self)
        ensures
            r.id@.len() == 0,
            r.class@.len() == 0,
    {
        RemoveElementsByAttrConfig { id: Vec::new(), class: Vec::new() }
    }
}

/// Whether a class list names one of the listed classes.
pub open spec fn names_listed_class(classes: Seq<String>, c: Seq<char>) -> bool {
    exists|k: int| 0 <= k < words(c).len() && strings_contain(classes, #[trigger] words(c)[k])
}

/// Whether an element goes: its `id` is listed, or one of its class names is.
pub open spec fn element_removable(cfg: RemoveElementsByAttrConfig, m: ElemM) -> bool {
    ||| cfg.id@.len() > 0 && attr_get(m.attrs, "id"@) is Some && strings_contain(
        cfg.id@,
        attr_get(m.attrs, "id"@).unwrap(),
    )
    ||| cfg.class@.len() > 0 && attr_get(m.attrs, "class"@) is Some && names_listed_class(
        cfg.class@,
        attr_get(m.attrs, "class"@).unwrap(),
    )
}

/// Plugin that removes elements by ID or class name.
pub struct RemoveElementsByAttrPlugin {
    pub config: RemoveElementsByAttrConfig,
}

impl NodePrune for RemoveElementsByAttrPlugin {
    open spec fn spec_keep(&self, n: NodeM) -> bool {
        match n {
            NodeM::Element(c) => !element_removable(self.config, c),
            _ => true,
        }
    }

    fn keep(&self, n: &Node) -> (b: bool) {
        match n {
            Node::Element(c) => !self.should_remove_element(c),
            _ => true,
        }
    }
}

impl RemoveElementsByAttrPlugin {
    /// The plugin with nothing to remove.
    pub fn new() -> (r: Self)
        ensures
            r.config.id@.len() == 0,
            r.config.class@.len() == 0,
    {
        RemoveElementsByAttrPlugin { config: RemoveElementsByAttrConfig::default() }
    }

    /// The plugin with the given settings.
    pub fn with_config(config: RemoveElementsByAttrConfig) -> (r: Self)
        ensures
            r.config == config,
    {
        RemoveElementsByAttrPlugin { config }
    }

    /// The plugin's name.
    pub fn name(&self) -> (r: &'static str)
        ensures
            r@ == "removeElementsByAttr"@,
    {
        "removeElementsByAttr"
    }

    /// What the plugin does.
    pub fn description(&self) -> (r: &'static str)
        ensures
            r@ == "removes arbitrary elements by ID or className (disabled by default)"@,
    {
        "removes arbitrary elements by ID or className (disabled by default)"
    }

    /// Whether an element goes.
    pub fn should_remove_element(&self, e: &Element) -> (r: bool)
        ensures
            r == element_removable(self.config, elem_model(*e)),
    {
        if self.config.id.len() > 0 {
            if let Some(id) = e.attributes.get("id") {
                if vec_contains_str(&self.config.id, id.as_str()) {
                    return true;
                }
            }
        }
        if self.config.class.len() > 0 {
            if let Some(c) = e.attributes.get("class") {
                let v = chars_of(c.as_str());
                let ws = split_whitespace(&v);
                let n = ws.len();
                let mut k: usize = 0;
                while k < n
                    invariant
                        n == ws@.len(),
                        n == words(c@).len(),
                        v@ == c@,
                        attr_get(elem_model(*e).attrs, "class"@) == Some(c@),
                        self.config.class@.len() > 0,
                        forall|j: int| 0 <= j < ws@.len() ==> #[trigger] ws@[j]@ == words(v@)[j],
                        0 <= k <= n,
                        forall|j: int| 0 <= j < k ==> !strings_contain(self.config.class@, #[trigger] words(c@)[j]),
                    decreases n - k,
                {
                    let w = string_from(&ws[k]);
                    if vec_contains_str(&self.config.class, w.as_str()) {
                        assert(words(c@)[k as int] == w@);
                        assert(strings_contain(self.config.class@, words(c@)[k as int]));
                        assert(attr_get(elem_model(*e).attrs, "class"@) == Some(c@));
                        assert(names_listed_class(self.config.class@, c@));
                        return true;
                    }
                    k += 1;
                }
            }
        }
        false
    }

    /// Removes the elements that go, everywhere under the root; nothing happens when
    /// no ID and no class is listed.
    pub fn apply(&self, document: &mut Document) -> (r: Result<(), PluginError>)
        ensures
            r is Ok,
            doc_model(*final(document)) == if self.config.id@.len() == 0 && self.config.class@.len() == 0 {
                doc_model(*old(document))
            } else {
                doc_with_root(doc_model(*old(document)), prune_tree(*self, doc_model(*old(document)).root))
            },
    {
        if self.config.id.len() == 0 && self.config.class.len() == 0 {
            return Ok(());
        }
        prune_document(self, document);
        Ok(())
    }
}

} // verus!
