//! Moves the presentation attributes that all element children of a group share onto
//! the group.
use vstd::prelude::*;
use crate::ast::{
    attr_get, attr_set, attr_shift_remove, doc_model, doc_with_root, elem_model, has_key,
    node_model, nodes_model, AttrsM, Attributes, Document, ElemM, Element, Node, NodeM,
    PluginError,
};
use crate::plugins::move_group_attrs_to_elems::{
    elem_count, elem_of, element_children_info, first_elem, movable_attr_names, movable_attrs,
};
use crate::text::str_eq;
use crate::walk::{post_document, post_tree, PostRewrite};

verus! {

broadcast use vstd::string::group_string_axioms;

/// Settings of the plugin (there are none).
pub struct MoveElemsAttrsToGroupConfig {}

impl Default for MoveElemsAttrsToGroupConfig {
    fn default() -> (r: Self) {
        MoveElemsAttrsToGroupConfig {  }
    }
}

/// Plugin that moves shared child attributes onto their group.
pub struct MoveElemsAttrsToGroupPlugin {
    pub config: MoveElemsAttrsToGroupConfig,
}

/// Whether an attribute is one of the movable presentation attributes.
pub open spec fn is_movable(n: Seq<char>) -> bool {
    exists|i: int| 0 <= i < movable_attrs().len() && #[trigger] movable_attrs()[i]@ == n
}

/// Whether an element may take attributes from its children.
pub open spec fn group_like(name: Seq<char>) -> bool {
    ||| name == "g"@
    ||| name == "svg"@
    ||| name == "symbol"@
    ||| name == "defs"@
    ||| name == "clipPath"@
    ||| name == "mask"@
}

/// The elements that may take attributes from their children are `g`, `svg`, `symbol`,
/// `defs`, `clipPath` and `mask`.
pub proof fn lemma_group_like_names(name: Seq<char>)
    ensures
        group_like(name) <==> (name == "mask"@ || name == "clipPath"@ || name == "defs"@ || name == "symbol"@ || name == "svg"@ || name == "g"@),
{
}

/// Whether every element child other than the first has attribute `p.0` with value `p.1`.
pub open spec fn shared(kids: Seq<NodeM>, p: (Seq<char>, Seq<char>)) -> bool {
    forall|j: int|
        0 <= j < kids.len() && j != first_elem(kids) && #[trigger] kids[j] is Element ==> attr_get(
            elem_of(kids[j]).attrs,
            p.0,
        ) == Some(p.1)
}

/// Whether an attribute of the first element child is common to all element children.
pub open spec fn is_common(kids: Seq<NodeM>, p: (Seq<char>, Seq<char>)) -> bool {
    is_movable(p.0) && shared(kids, p)
}

/// The movable attributes, in the first element child's order, that all element
/// children share with equal values; none with fewer than two element children.
pub open spec fn common_attrs(kids: Seq<NodeM>) -> AttrsM {
    if elem_count(kids) < 2 {
        seq![]
    } else {
        elem_of(kids[first_elem(kids) as int]).attrs.filter(|p: (Seq<char>, Seq<char>)| is_common(kids, p))
    }
}

/// `a` without the first `k` names of `common`.
pub open spec fn stripped(a: AttrsM, common: AttrsM, k: nat) -> AttrsM
    decreases k,
{
    if k == 0 || k > common.len() {
        a
    } else {
        attr_shift_remove(stripped(a, common, (k - 1) as nat), common[k - 1].0)
    }
}

/// `a` with the first `k` entries of `common` added where their names are absent.
pub open spec fn with_common(a: AttrsM, common: AttrsM, k: nat) -> AttrsM
    decreases k,
{
    if k == 0 || k > common.len() {
        a
    } else if has_key(with_common(a, common, (k - 1) as nat), common[k - 1].0) {
        with_common(a, common, (k - 1) as nat)
    } else {
        attr_set(with_common(a, common, (k - 1) as nat), common[k - 1].0, common[k - 1].1)
    }
}

/// A node with the common attributes removed when it is an element.
pub open spec fn stripped_node(n: NodeM, common: AttrsM) -> NodeM {
    match n {
        NodeM::Element(c) => NodeM::Element(
            ElemM {
                name: c.name,
                attrs: stripped(c.attrs, common, common.len()),
                namespaces: c.namespaces,
                children: c.children,
            },
        ),
        _ => n,
    }
}

/// The children with the common attributes removed.
pub open spec fn stripped_kids(kids: Seq<NodeM>, common: AttrsM) -> Seq<NodeM> {
    Seq::new(kids.len(), |i: int| stripped_node(kids[i], common))
}

impl PostRewrite for MoveElemsAttrsToGroupPlugin {
    open spec fn spec_stops(&self, m: ElemM) -> bool {
        false
    }

    fn stops(&self, e: &Element) -> (b: bool) {
        false
    }

    open spec fn spec_post(&self, m: ElemM) -> ElemM {
        let common = common_attrs(m.children);
        if !group_like(m.name) || common.len() == 0 {
            m
        } else {
            ElemM {
                name: m.name,
                attrs: with_common(m.attrs, common, common.len()),
                namespaces: m.namespaces,
                children: stripped_kids(m.children, common),
            }
        }
    }

    fn post(&self, e: Element) -> (r: Element) {
        let ghost m = elem_model(e);
        proof {
            crate::ast::lemma_children_model(e);
        }
        if !(e.is_named("g") || e.is_named("svg") || e.is_named("symbol") || e.is_named("defs")
            || e.is_named("clipPath") || e.is_named("mask")) {
            return e;
        }
        let common = common_attributes(&e.children);
        if common.entries.len() == 0 {
            return e;
        }
        let ghost cm = common@;
        let Element { name, attributes, namespaces, children } = e;
        let mut children = children;
        let n = children.len();
        let mut j: usize = 0;
        while j < n
            invariant
                n == children@.len(),
                n == m.children.len(),
                m.children == nodes_model(e.children@),
                cm == common@,
                0 <= j <= n,
                forall|t: int|
                    0 <= t < j ==> node_model(#[trigger] children@[t]) == stripped_node(m.children[t], cm),
                forall|t: int| j <= t < n ==> children@[t] == e.children@[t],
            decreases n - j,
        {
            let mut tmp = Node::Text(String::new());
            std::mem::swap(&mut children[j], &mut tmp);
            assert(m.children[j as int] == node_model(tmp));
            let next = match tmp {
                Node::Element(c) => {
                    let ghost c0 = c;
                    let mut c = c;
                    let k = common.entries.len();
                    let mut t: usize = 0;
                    while t < k
                        invariant
                            k == cm.len(),
                            cm == common@,
                            0 <= t <= k,
                            c.attributes@ == stripped(c0.attributes@, cm, t as nat),
                            c.name == c0.name,
                            c.namespaces == c0.namespaces,
                            c.children == c0.children,
                        decreases k - t,
                    {
                        c.attributes.shift_remove(common.entries[t].0.as_str());
                        t += 1;
                    }
                    proof {
                        crate::ast::lemma_children_model(c);
                        crate::ast::lemma_children_model(c0);
                    }
                    Node::Element(c)
                },
                other => other,
            };
            children.set(j, next);
            j += 1;
        }
        let mut attributes = attributes;
        let ghost a0 = attributes@;
        let k = common.entries.len();
        let mut t: usize = 0;
        while t < k
            invariant
                k == cm.len(),
                cm == common@,
                0 <= t <= k,
                attributes@ == with_common(a0, cm, t as nat),
            decreases k - t,
        {
            if !attributes.contains_key(common.entries[t].0.as_str()) {
                attributes.insert(common.entries[t].0.clone(), common.entries[t].1.clone());
            }
            t += 1;
        }
        let r = Element { name, attributes, namespaces, children };
        assert(elem_model(r).children =~= stripped_kids(m.children, cm));
        r
    }
}

/// Whether an attribute name is movable (computed).
pub fn is_movable_name(n: &str) -> (r: bool)
    ensures
        r == is_movable(n@),
{
    let names = movable_attr_names();
    let k = names.len();
    let mut i: usize = 0;
    while i < k
        invariant
            k == movable_attrs().len(),
            names@ == movable_attrs(),
            0 <= i <= k,
            forall|t: int| 0 <= t < i ==> #[trigger] movable_attrs()[t]@ != n@,
        decreases k - i,
    {
        if str_eq(names[i], n) {
            return true;
        }
        i += 1;
    }
    false
}

/// The movable attributes that all element children share (computed).
pub fn common_attributes(children: &Vec<Node>) -> (r: Attributes)
    ensures
        r@ == common_attrs(nodes_model(children@)),
{
    let ghost kids = nodes_model(children@);
    let (count, first) = element_children_info(children);
    let mut out = Attributes::new();
    if count < 2 {
        return out;
    }
    assert(kids[first as int] == node_model(children@[first as int]));
    let fe = match &children[first] {
        Node::Element(c) => c,
        _ => {
            assert(false);
            return out;
        },
    };
    let ghost fa = fe.attributes@;
    assert(elem_of(kids[first as int]).attrs == fa);
    let na = fe.attributes.entries.len();
    let mut i: usize = 0;
    assert(fa.take(0) =~= Seq::<(Seq<char>, Seq<char>)>::empty());
    assert(fa.take(0).filter(|p: (Seq<char>, Seq<char>)| is_common(kids, p)) =~= Seq::<(Seq<char>, Seq<char>)>::empty());
    while i < na
        invariant
            na == fa.len(),
            fa == fe.attributes@,
            kids == nodes_model(children@),
            first == first_elem(kids),
            0 <= i <= na,
            out@ == fa.take(i as int).filter(|p: (Seq<char>, Seq<char>)| is_common(kids, p)),
        decreases na - i,
    {
        let ghost p = fa[i as int];
        proof {
            assert(fa.take(i + 1).drop_last() =~= fa.take(i as int));
            reveal_with_fuel(Seq::filter, 1);
        }
        let key = fe.attributes.entries[i].0.as_str();
        let val = fe.attributes.entries[i].1.as_str();
        let mut ok = is_movable_name(key);
        let n = children.len();
        let mut j: usize = 0;
        while ok && j < n
            invariant
                n == kids.len(),
                kids == nodes_model(children@),
                first == first_elem(kids),
                p == (key@, val@),
                0 <= j <= n,
                ok ==> forall|t: int|
                    0 <= t < j && t != first && #[trigger] kids[t] is Element ==> attr_get(
                        elem_of(kids[t]).attrs,
                        p.0,
                    ) == Some(p.1),
                !ok ==> !is_common(kids, p),
                ok ==> is_movable(p.0),
            decreases n - j,
        {
            assert(kids[j as int] == node_model(children@[j as int]));
            if j != first {
                match &children[j] {
                    Node::Element(c) => {
                        match c.attributes.get(key) {
                            Some(v) => {
                                if !str_eq(v.as_str(), val) {
                                    ok = false;
                                }
                            },
                            None => {
                                ok = false;
                            },
                        }
                    },
                    _ => {},
                }
            }
            j += 1;
        }
        if ok {
            out.entries.push((fe.attributes.entries[i].0.clone(), fe.attributes.entries[i].1.clone()));
        }
        assert(out@ =~= fa.take(i + 1).filter(|p: (Seq<char>, Seq<char>)| is_common(kids, p)));
        i += 1;
    }
    assert(fa.take(na as int) =~= fa);
    out
}

impl MoveElemsAttrsToGroupPlugin {
    /// The plugin.
    pub fn new() -> (r: Self) {
        MoveElemsAttrsToGroupPlugin { config: MoveElemsAttrsToGroupConfig::default() }
    }

    /// The plugin with the given settings.
    pub fn with_config(config: MoveElemsAttrsToGroupConfig) -> (r: Self)
        ensures
            r.config == config,
    {
        MoveElemsAttrsToGroupPlugin { config }
    }

    /// The plugin's name.
    pub fn name(&self) -> (r: &'static str)
        ensures
            r@ == "moveElemsAttrsToGroup"@,
    {
        "moveElemsAttrsToGroup"
    }

    /// What the plugin does.
    pub fn description(&self) -> (r: &'static str)
        ensures
            r@ == "move common attributes from elements to their group"@,
    {
        "move common attributes from elements to their group"
    }

    /// Moves shared child attributes onto their groups, bottom-up from the root.
    pub fn apply(&self, document: &mut Document) -> (r: Result<(), PluginError>)
        ensures
            r is Ok,
            doc_model(*final(document)) == doc_with_root(
                doc_model(*old(document)),
                post_tree(*self, doc_model(*old(document)).root),
            ),
    {
        post_document(self, document);
        Ok(())
    }
}

} // verus!
