//! Moves presentation attributes of a `<g>` with a single element child onto that child.
use vstd::prelude::*;
use crate::text::in_table;
use crate::ast::{
    attr_get, attr_set, attr_shift_remove, doc_model, doc_with_root, elem_model, has_key,
    node_model, AttrsM, Document, ElemM, Element, Node, NodeM, PluginError,
};
use crate::text::owned;
use crate::walk::{post_document, post_tree, PostRewrite};

verus! {

broadcast use vstd::string::group_string_axioms;

/// The presentation attributes that move between a group and its children, in order.
pub open spec fn movable_attrs() -> Seq<&'static str> {
    seq![
        "fill",
        "stroke",
        "stroke-width",
        "stroke-linecap",
        "stroke-linejoin",
        "stroke-miterlimit",
        "stroke-dasharray",
        "stroke-dashoffset",
        "stroke-opacity",
        "fill-opacity",
        "opacity",
        "color",
        "font-family",
        "font-size",
        "font-style",
        "font-variant",
        "font-weight",
        "text-anchor",
        "text-decoration",
        "letter-spacing",
        "word-spacing",
    ]
}

/// The attributes a group hands to its children are exactly those named in this
/// statement.
pub proof fn lemma_movable_attrs_members(n: Seq<char>)
    ensures
        in_table(movable_attrs(), n) <==> (n == "fill"@
            || n == "stroke"@
            || n == "stroke-width"@
            || n == "stroke-linecap"@
            || n == "stroke-linejoin"@
            || n == "stroke-miterlimit"@
            || n == "stroke-dasharray"@
            || n == "stroke-dashoffset"@
            || n == "stroke-opacity"@
            || n == "fill-opacity"@
            || n == "opacity"@
            || n == "color"@
            || n == "font-family"@
            || n == "font-size"@
            || n == "font-style"@
            || n == "font-variant"@
            || n == "font-weight"@
            || n == "text-anchor"@
            || n == "text-decoration"@
            || n == "letter-spacing"@
            || n == "word-spacing"@),
{
    if n == "fill"@ {
        assert(movable_attrs()[0]@ == n);
    }
    if n == "stroke"@ {
        assert(movable_attrs()[1]@ == n);
    }
    if n == "stroke-width"@ {
        assert(movable_attrs()[2]@ == n);
    }
    if n == "stroke-linecap"@ {
        assert(movable_attrs()[3]@ == n);
    }
    if n == "stroke-linejoin"@ {
        assert(movable_attrs()[4]@ == n);
    }
    if n == "stroke-miterlimit"@ {
        assert(movable_attrs()[5]@ == n);
    }
    if n == "stroke-dasharray"@ {
        assert(movable_attrs()[6]@ == n);
    }
    if n == "stroke-dashoffset"@ {
        assert(movable_attrs()[7]@ == n);
    }
    if n == "stroke-opacity"@ {
        assert(movable_attrs()[8]@ == n);
    }
    if n == "fill-opacity"@ {
        assert(movable_attrs()[9]@ == n);
    }
    if n == "opacity"@ {
        assert(movable_attrs()[10]@ == n);
    }
    if n == "color"@ {
        assert(movable_attrs()[11]@ == n);
    }
    if n == "font-family"@ {
        assert(movable_attrs()[12]@ == n);
    }
    if n == "font-size"@ {
        assert(movable_attrs()[13]@ == n);
    }
    if n == "font-style"@ {
        assert(movable_attrs()[14]@ == n);
    }
    if n == "font-variant"@ {
        assert(movable_attrs()[15]@ == n);
    }
    if n == "font-weight"@ {
        assert(movable_attrs()[16]@ == n);
    }
    if n == "text-anchor"@ {
        assert(movable_attrs()[17]@ == n);
    }
    if n == "text-decoration"@ {
        assert(movable_attrs()[18]@ == n);
    }
    if n == "letter-spacing"@ {
        assert(movable_attrs()[19]@ == n);
    }
    if n == "word-spacing"@ {
        assert(movable_attrs()[20]@ == n);
    }
    if in_table(movable_attrs(), n) {
        let k = choose|k: int| 0 <= k < movable_attrs().len() && #[trigger] movable_attrs()[k]@ == n;
        if k == 0 {
            assert(n == "fill"@);
        }
        if k == 1 {
            assert(n == "stroke"@);
        }
        if k == 2 {
            assert(n == "stroke-width"@);
        }
        if k == 3 {
            assert(n == "stroke-linecap"@);
        }
        if k == 4 {
            assert(n == "stroke-linejoin"@);
        }
        if k == 5 {
            assert(n == "stroke-miterlimit"@);
        }
        if k == 6 {
            assert(n == "stroke-dasharray"@);
        }
        if k == 7 {
            assert(n == "stroke-dashoffset"@);
        }
        if k == 8 {
            assert(n == "stroke-opacity"@);
        }
        if k == 9 {
            assert(n == "fill-opacity"@);
        }
        if k == 10 {
            assert(n == "opacity"@);
        }
        if k == 11 {
            assert(n == "color"@);
        }
        if k == 12 {
            assert(n == "font-family"@);
        }
        if k == 13 {
            assert(n == "font-size"@);
        }
        if k == 14 {
            assert(n == "font-style"@);
        }
        if k == 15 {
            assert(n == "font-variant"@);
        }
        if k == 16 {
            assert(n == "font-weight"@);
        }
        if k == 17 {
            assert(n == "text-anchor"@);
        }
        if k == 18 {
            assert(n == "text-decoration"@);
        }
        if k == 19 {
            assert(n == "letter-spacing"@);
        }
        if k == 20 {
            assert(n == "word-spacing"@);
        }
    }
}

/// The movable attributes (computed).
pub fn movable_attr_names() -> (v: Vec<&'static str>)
    ensures
        v@ == movable_attrs(),
{
    vec![
        "fill",
        "stroke",
        "stroke-width",
        "stroke-linecap",
        "stroke-linejoin",
        "stroke-miterlimit",
        "stroke-dasharray",
        "stroke-dashoffset",
        "stroke-opacity",
        "fill-opacity",
        "opacity",
        "color",
        "font-family",
        "font-size",
        "font-style",
        "font-variant",
        "font-weight",
        "text-anchor",
        "text-decoration",
        "letter-spacing",
        "word-spacing",
    ]
}

/// Settings of the plugin (there are none).
pub struct MoveGroupAttrsToElemsConfig {}

impl Default for MoveGroupAttrsToElemsConfig {
    fn default() -> (r: Self) {
        MoveGroupAttrsToElemsConfig {  }
    }
}

/// Plugin that moves group attributes onto a single child.
pub struct MoveGroupAttrsToElemsPlugin {
    pub config: MoveGroupAttrsToElemsConfig,
}

/// The number of elements among the nodes.
pub open spec fn elem_count(s: Seq<NodeM>) -> nat
    decreases s.len(),
{
    if s.len() == 0 {
        0
    } else {
        elem_count(s.drop_last()) + if s.last() is Element {
            1nat
        } else {
            0nat
        }
    }
}

/// The index of the first element among the nodes, or their number.
pub open spec fn first_elem(s: Seq<NodeM>) -> nat
    decreases s.len(),
{
    if s.len() == 0 {
        0
    } else if s[0] is Element {
        0
    } else {
        1 + first_elem(s.drop_first())
    }
}

/// The element inside a node (an empty one for other nodes).
pub open spec fn elem_of(n: NodeM) -> ElemM {
    match n {
        NodeM::Element(c) => c,
        _ => ElemM { name: seq![], attrs: seq![], namespaces: seq![], children: seq![] },
    }
}

/// Whether the `k`-th movable attribute moves from group attributes `g` to child attributes `c`.
pub open spec fn moves(g: AttrsM, c: AttrsM, k: int) -> bool {
    has_key(g, movable_attrs()[k]@) && !has_key(c, movable_attrs()[k]@)
}

/// The child's attributes after the first `k` movable attributes have been considered.
pub open spec fn child_gets(g: AttrsM, c: AttrsM, k: nat) -> AttrsM
    decreases k,
{
    if k == 0 || k > movable_attrs().len() {
        c
    } else if moves(g, c, k - 1) {
        attr_set(
            child_gets(g, c, (k - 1) as nat),
            movable_attrs()[k - 1]@,
            attr_get(g, movable_attrs()[k - 1]@).unwrap(),
        )
    } else {
        child_gets(g, c, (k - 1) as nat)
    }
}

/// The group's attributes after the first `k` movable attributes have been considered.
pub open spec fn group_keeps(g: AttrsM, c: AttrsM, k: nat) -> AttrsM
    decreases k,
{
    if k == 0 || k > movable_attrs().len() {
        g
    } else if moves(g, c, k - 1) {
        attr_shift_remove(group_keeps(g, c, (k - 1) as nat), movable_attrs()[k - 1]@)
    } else {
        group_keeps(g, c, (k - 1) as nat)
    }
}

/// A group whose movable attributes, absent from its first element child, have moved
/// onto that child.
pub open spec fn moved_into_child(m: ElemM) -> ElemM {
    let idx = first_elem(m.children) as int;
    let c = elem_of(m.children[idx]);
    let n = movable_attrs().len();
    ElemM {
        name: m.name,
        attrs: group_keeps(m.attrs, c.attrs, n),
        namespaces: m.namespaces,
        children: m.children.update(
            idx,
            NodeM::Element(
                ElemM {
                    name: c.name,
                    attrs: child_gets(m.attrs, c.attrs, n),
                    namespaces: c.namespaces,
                    children: c.children,
                },
            ),
        ),
    }
}

impl PostRewrite for MoveGroupAttrsToElemsPlugin {
    open spec fn spec_stops(&self, m: ElemM) -> bool {
        false
    }

    fn stops(&self, e: &Element) -> (b: bool) {
        false
    }

    open spec fn spec_post(&self, m: ElemM) -> ElemM {
        if m.name == "g"@ && elem_count(m.children) == 1 {
            moved_into_child(m)
        } else {
            m
        }
    }

    fn post(&self, e: Element) -> (r: Element) {
        let ghost m = elem_model(e);
        proof {
            crate::ast::lemma_children_model(e);
        }
        if !e.is_named("g") {
            return e;
        }
        let (count, first) = element_children_info(&e.children);
        let n = e.children.len();
        if count != 1 {
            return e;
        }
        let ghost g0 = m.attrs;
        let Element { name, attributes, namespaces, children } = e;
        let mut children = children;
        let mut attributes = attributes;
        let mut tmp = Node::Text(String::new());
        std::mem::swap(&mut children[first], &mut tmp);
        assert(m.children[first as int] == node_model(tmp));
        let mut c = match tmp {
            Node::Element(c) => c,
            _ => {
                assert(false);
                Element::new("g")
            },
        };
        let ghost c0 = c.attributes@;
        let ghost cfull = c;
        assert(elem_of(m.children[first as int]) == elem_model(c));
        let names = movable_attr_names();
        let total = names.len();
        let mut flags: Vec<bool> = Vec::new();
        let mut k: usize = 0;
        while k < total
            invariant
                total == movable_attrs().len(),
                names@ == movable_attrs(),
                attributes@ == g0,
                c.attributes@ == c0,
                0 <= k <= total,
                flags@.len() == k,
                forall|t: int| 0 <= t < k ==> #[trigger] flags@[t] == moves(g0, c0, t),
            decreases total - k,
        {
            flags.push(attributes.contains_key(names[k]) && !c.attributes.contains_key(names[k]));
            k += 1;
        }
        k = 0;
        while k < total
            invariant
                total == movable_attrs().len(),
                names@ == movable_attrs(),
                attributes@ == g0,
                flags@.len() == total,
                forall|t: int| 0 <= t < total ==> #[trigger] flags@[t] == moves(g0, c0, t),
                0 <= k <= total,
                c.attributes@ == child_gets(g0, c0, k as nat),
                c.name == cfull.name,
                c.namespaces == cfull.namespaces,
                c.children == cfull.children,
            decreases total - k,
        {
            if flags[k] {
                match attributes.get(names[k]) {
                    Some(v) => {
                        c.attributes.insert(owned(names[k]), v.clone());
                    },
                    None => {},
                }
            }
            k += 1;
        }
        k = 0;
        while k < total
            invariant
                total == movable_attrs().len(),
                names@ == movable_attrs(),
                flags@.len() == total,
                forall|t: int| 0 <= t < total ==> #[trigger] flags@[t] == moves(g0, c0, t),
                0 <= k <= total,
                attributes@ == group_keeps(g0, c0, k as nat),
            decreases total - k,
        {
            if flags[k] {
                attributes.shift_remove(names[k]);
            }
            k += 1;
        }
        let ghost cm = elem_model(c);
        let ghost before = children@;
        children.set(first, Node::Element(c));
        let r = Element { name, attributes, namespaces, children };
        proof {
            crate::ast::lemma_children_model(c);
            crate::ast::lemma_children_model(cfull);
        }
        assert(cm.children == elem_model(cfull).children);
        assert(cm == elem_of(moved_into_child(m).children[first as int]));
        assert forall|t: int| 0 <= t < n implies #[trigger] elem_model(r).children[t] == moved_into_child(m).children[t] by {
            if t != first {
                assert(children@[t] == e.children@[t]);
                assert(m.children[t] == node_model(e.children@[t]));
            }
        }
        assert(elem_model(r).children =~= moved_into_child(m).children);
        r
    }
}

/// The first element sits at index `i` when no element comes before it.
pub proof fn lemma_first_elem(s: Seq<NodeM>, i: int)
    requires
        0 <= i < s.len(),
        s[i] is Element,
        forall|t: int| 0 <= t < i ==> !(s[t] is Element),
    ensures
        first_elem(s) == i,
    decreases i,
{
    if i > 0 {
        assert forall|t: int| 0 <= t < i - 1 implies !(s.drop_first()[t] is Element) by {
            assert(s.drop_first()[t] == s[t + 1]);
        }
        lemma_first_elem(s.drop_first(), i - 1);
    }
}


/// The number of element children and the index of the first one (the number of
/// children when there is none).
pub fn element_children_info(children: &Vec<Node>) -> (r: (usize, usize))
    ensures
        r.0 == elem_count(crate::ast::nodes_model(children@)),
        r.1 == first_elem(crate::ast::nodes_model(children@)),
        r.0 > 0 ==> r.1 < children@.len() && crate::ast::nodes_model(children@)[r.1 as int] is Element,
{
    let ghost s = crate::ast::nodes_model(children@);
    let n = children.len();
    let mut count: usize = 0;
    let mut first: usize = n;
    let mut i: usize = 0;
    assert(s.take(0) =~= Seq::<NodeM>::empty());
    while i < n
        invariant
            n == children@.len(),
            s == crate::ast::nodes_model(children@),
            0 <= i <= n,
            count <= i,
            count == elem_count(s.take(i as int)),
            first <= n,
            count == 0 ==> first == n,
            count > 0 ==> first == first_elem(s) && first < i,
            count > 0 ==> s[first as int] is Element,
            count == 0 ==> forall|t: int| 0 <= t < i ==> !(s[t] is Element),
        decreases n - i,
    {
        assert(s.take(i + 1).drop_last() =~= s.take(i as int));
        assert(s[i as int] == node_model(children@[i as int]));
        let is_elem = match &children[i] {
            Node::Element(_) => true,
            _ => false,
        };
        if is_elem {
            if count == 0 {
                first = i;
                proof {
                    lemma_first_elem(s, i as int);
                }
            }
            count += 1;
        }
        i += 1;
    }
    assert(s.take(n as int) =~= s);
    if count == 0 {
        proof {
            lemma_first_elem_none(s);
        }
    }
    (count, first)
}

/// Without elements, the first element's index is the number of nodes.
pub proof fn lemma_first_elem_none(s: Seq<NodeM>)
    requires
        forall|t: int| 0 <= t < s.len() ==> !(s[t] is Element),
    ensures
        first_elem(s) == s.len(),
    decreases s.len(),
{
    if s.len() > 0 {
        assert forall|t: int| 0 <= t < s.len() - 1 implies !(s.drop_first()[t] is Element) by {
            assert(s.drop_first()[t] == s[t + 1]);
        }
        lemma_first_elem_none(s.drop_first());
    }
}

impl MoveGroupAttrsToElemsPlugin {
    /// The plugin.
    pub fn new() -> (r: Self) {
        MoveGroupAttrsToElemsPlugin { config: MoveGroupAttrsToElemsConfig::default() }
    }

    /// The plugin with the given settings.
    pub fn with_config(config: MoveGroupAttrsToElemsConfig) -> (r: Self)
        ensures
            r.config == config,
    {
        MoveGroupAttrsToElemsPlugin { config }
    }

    /// The plugin's name.
    pub fn name(&self) -> (r: &'static str)
        ensures
            r@ == "moveGroupAttrsToElems"@,
    {
        "moveGroupAttrsToElems"
    }

    /// What the plugin does.
    pub fn description(&self) -> (r: &'static str)
        ensures
            r@ == "Move group attributes to children when group has single child"@,
    {
        "Move group attributes to children when group has single child"
    }

    /// Moves group attributes onto single children, bottom-up from the root.
    pub fn apply(&self, document: &mut Document) -> (r: Result<(), PluginError>)
        ensures
            r is Ok,
            doc_model(*final(document)) == doc_with_root(
                doc_model(*old(document)),
                post_tree(*self, doc_model(*old(document)).root),
            ),
    {
        post_document(self, document);
        Ok(())
    }
}

} // verus!
