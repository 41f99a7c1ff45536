//! Removes DOCTYPE declarations.
use vstd::prelude::*;
use crate::ast::{doc_model, elem_model, node_model, nodes_model, take_root, DocM, Document, Element, Node, NodeM, PluginError};

verus! {

/// Settings of the plugin (there are none).
pub struct RemoveDoctypeConfig {}

impl Default for RemoveDoctypeConfig {
    fn default() -> (r: Self) {
        RemoveDoctypeConfig {}
    }
}

/// `s` without its DOCTYPE nodes.
pub open spec fn without_doctypes(s: Seq<NodeM>) -> Seq<NodeM> {
    s.filter(|n: NodeM| !(n is DocType))
}

/// The nodes of `v` that are not DOCTYPE declarations, in order.
pub fn drop_doctypes(v: Vec<Node>) -> (r: Vec<Node>)
    ensures
        nodes_model(r@) == without_doctypes(nodes_model(v@)),
{
    let ghost s = nodes_model(v@);
    let mut v = v;
    let mut out: Vec<Node> = Vec::new();
    let n = v.len();
    let mut i: usize = 0;
    assert(s.take(0) =~= Seq::<NodeM>::empty());
    assert(nodes_model(out@) =~= without_doctypes(s.take(0)));
    while i < n
        invariant
            n == v@.len(),
            s.len() == n,
            forall|j: int| i <= j < n ==> node_model(#[trigger] v@[j]) == s[j],
            0 <= i <= n,
            nodes_model(out@) == without_doctypes(s.take(i as int)),
        decreases n - i,
    {
        proof {
            reveal_with_fuel(Seq::filter, 1);
            assert(s.take(i + 1).drop_last() =~= s.take(i as int));
            assert(s.take(i + 1).last() == s[i as int]);
        }
        let mut tmp = Node::Text(String::new());
        std::mem::swap(&mut v[i], &mut tmp);
        assert(node_model(tmp) == s[i as int]);
        match tmp {
            Node::DocType(_) => {},
            other => {
                let ghost o0 = out@;
                out.push(other);
                assert(nodes_model(out@) =~= nodes_model(o0).push(s[i as int]));
            },
        }
        assert forall|j: int| i + 1 <= j < n implies node_model(#[trigger] v@[j]) == s[j] by {}
        i += 1;
    }
    assert(s.take(n as int) =~= s);
    out
}

/// Plugin that removes DOCTYPE declarations.
pub struct RemoveDoctypePlugin {
    pub config: RemoveDoctypeConfig,
}

impl RemoveDoctypePlugin {
    /// The plugin.
    pub fn new() -> (r: Self) {
        RemoveDoctypePlugin { config: RemoveDoctypeConfig::default() }
    }

    /// The plugin with the given settings.
    pub fn with_config(config: RemoveDoctypeConfig) -> (r: Self)
        ensures
            r.config == config,
    {
        RemoveDoctypePlugin { config }
    }

    /// The plugin's name.
    pub fn name(&self) -> (r: &'static str)
        ensures
            r@ == "removeDoctype"@,
    {
        "removeDoctype"
    }

    /// What the plugin does.
    pub fn description(&self) -> (r: &'static str)
        ensures
            r@ == "removes doctype declaration"@,
    {
        "removes doctype declaration"
    }

    /// Removes the DOCTYPE nodes of the prologue and of the root's children.
    pub fn apply(&self, document: &mut Document) -> (r: Result<(), PluginError>)
        ensures
            r is Ok,
            doc_model(*final(document)).prologue == without_doctypes(doc_model(*old(document)).prologue),
            doc_model(*final(document)).epilogue == doc_model(*old(document)).epilogue,
            doc_model(*final(document)).path == doc_model(*old(document)).path,
            doc_model(*final(document)).root.name == doc_model(*old(document)).root.name,
            doc_model(*final(document)).root.attrs == doc_model(*old(document)).root.attrs,
            doc_model(*final(document)).root.namespaces == doc_model(*old(document)).root.namespaces,
            doc_model(*final(document)).root.children == without_doctypes(doc_model(*old(document)).root.children),
    {
        let mut prologue: Vec<Node> = Vec::new();
        std::mem::swap(&mut prologue, &mut document.prologue);
        document.prologue = drop_doctypes(prologue);
        let root = take_root(document);
        let Element { name, attributes, namespaces, children } = root;
        proof {
            crate::ast::lemma_children_model(old(document).root);
        }
        let children = drop_doctypes(children);
        document.root = Element { name, attributes, namespaces, children };
        proof {
            crate::ast::lemma_children_model(document.root);
        }
        Ok(())
    }
}

} // verus!
