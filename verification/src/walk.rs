//! A pre-order rewrite of every element of a tree, one element at a time.
use vstd::prelude::*;
use crate::ast::{
    doc_model, doc_with_root, elem_model, node_model, nodes_model, take_root, AttrsM, DocM,
    Document, ElemM, Element, Node, NodeM,
};

verus! {

/// A rewrite of one element's name and attributes, which may depend on whether an
/// ancestor (or the element itself) is marked.
pub trait ElementRewrite {
    /// Whether the element marks itself and its descendants.
    spec fn spec_marks(&self, m: ElemM) -> bool;

    /// The new name of an element; `inside` says whether it or an ancestor is marked.
    spec fn spec_name(&self, m: ElemM, inside: bool) -> Seq<char>;

    /// The new attributes of an element.
    spec fn spec_attrs(&self, m: ElemM, inside: bool) -> AttrsM;

    /// Whether the element marks itself and its descendants (computed).
    fn marks(&self, e: &Element) -> (b: bool)
        ensures
            b == self.spec_marks(elem_model(*e)),
    ;

    /// Rewrites the name and attributes of one element, leaving its children.
    fn rewrite(&self, e: &mut Element, inside: bool)
        ensures
            final(e).children == old(e).children,
            final(e).namespaces == old(e).namespaces,
            final(e).name@ == self.spec_name(elem_model(*old(e)), inside),
            final(e).attributes@ == self.spec_attrs(elem_model(*old(e)), inside),
    ;
}

/// The tree with every element rewritten by `r`.
pub open spec fn rewrite_tree<R: ElementRewrite>(r: R, m: ElemM, inside: bool) -> ElemM
    decreases m,
{
    let ins = inside || r.spec_marks(m);
    ElemM {
        name: r.spec_name(m, ins),
        attrs: r.spec_attrs(m, ins),
        namespaces: m.namespaces,
        children: Seq::new(
            m.children.len(),
            |i: int|
                if 0 <= i < m.children.len() {
                    rewrite_node(r, m.children[i], ins)
                } else {
                    m.children[i]
                },
        ),
    }
}

/// A node with every element in it rewritten by `r`.
pub open spec fn rewrite_node<R: ElementRewrite>(r: R, n: NodeM, inside: bool) -> NodeM
    decreases n,
{
    match n {
        NodeM::Element(c) => NodeM::Element(rewrite_tree(r, c, inside)),
        _ => n,
    }
}

/// Rewrites `e` and every element below it, parents before children.
pub fn rewrite_element<R: ElementRewrite>(r: &R, e: Element, inside: bool) -> (res: Element)
    ensures
        elem_model(res) == rewrite_tree(*r, elem_model(e), inside),
    decreases e,
{
    let ghost e0 = e;
    let ins = inside || r.marks(&e);
    let mut cur = e;
    r.rewrite(&mut cur, ins);
    let Element { name, attributes, namespaces, children } = cur;
    let mut children = children;
    let n = children.len();
    let mut i: usize = 0;
    while i < n
        invariant
            e == e0,
            n == children@.len(),
            n == e0.children@.len(),
            0 <= i <= n,
            forall|j: int|
                0 <= j < i ==> node_model(#[trigger] children@[j]) == rewrite_node(
                    *r,
                    node_model(e0.children@[j]),
                    ins,
                ),
            forall|j: int| i <= j < n ==> children@[j] == e0.children@[j],
        decreases n - i,
    {
        let mut tmp = Node::Text(String::new());
        std::mem::swap(&mut children[i], &mut tmp);
        let next = match tmp {
            Node::Element(c) => {
                proof {
                    assert(decreases_to!(e0 => e0.children));
                    assert(decreases_to!(e0.children => e0.children[i as int]));
                    assert(decreases_to!(e0 => c));
                }
                Node::Element(rewrite_element(r, c, ins))
            },
            other => other,
        };
        children.set(i, next);
        i += 1;
    }
    let res = Element { name, attributes, namespaces, children };
    assert(elem_model(res).children =~= rewrite_tree(*r, elem_model(e0), inside).children);
    res
}

/// Rewrites every element of a document's root tree.
pub fn rewrite_document<R: ElementRewrite>(r: &R, document: &mut Document)
    ensures
        doc_model(*final(document)) == doc_with_root(
            doc_model(*old(document)),
            rewrite_tree(*r, doc_model(*old(document)).root, false),
        ),
{
    let root = take_root(document);
    document.root = rewrite_element(r, root, false);
}

/// A decision, made on each child of each element, whether the child stays.
pub trait NodePrune {
    /// Whether a child stays.
    spec fn spec_keep(&self, n: NodeM) -> bool;

    /// Whether a child stays (computed).
    fn keep(&self, n: &Node) -> (b: bool)
        ensures
            b == self.spec_keep(node_model(*n)),
    ;
}

/// The tree where each element first drops the children `p` rejects, then has its
/// remaining children pruned in turn.
pub open spec fn prune_tree<P: NodePrune>(p: P, m: ElemM) -> ElemM
    decreases m, 1int,
{
    ElemM {
        name: m.name,
        attrs: m.attrs,
        namespaces: m.namespaces,
        children: pruned_parts(p, m).flatten(),
    }
}

/// For each child of `m`: nothing when `p` rejects it, else the child pruned.
pub open spec fn pruned_parts<P: NodePrune>(p: P, m: ElemM) -> Seq<Seq<NodeM>>
    decreases m, 0int,
{
    Seq::new(
        m.children.len(),
        |i: int|
            if 0 <= i < m.children.len() && p.spec_keep(m.children[i]) {
                seq![prune_node(p, m.children[i])]
            } else {
                Seq::empty()
            },
    )
}

/// A node with every element in it pruned.
pub open spec fn prune_node<P: NodePrune>(p: P, n: NodeM) -> NodeM
    decreases n, 2int,
{
    match n {
        NodeM::Element(c) => NodeM::Element(prune_tree(p, c)),
        _ => n,
    }
}

/// Prunes `e` and every element below it.
pub fn prune_element<P: NodePrune>(p: &P, e: Element) -> (res: Element)
    ensures
        elem_model(res) == prune_tree(*p, elem_model(e)),
    decreases e,
{
    let ghost e0 = e;
    let ghost m = elem_model(e);
    let ghost parts = pruned_parts(*p, m);
    let Element { name, attributes, namespaces, children } = e;
    let mut children = children;
    let mut out: Vec<Node> = Vec::new();
    let n = children.len();
    let mut i: usize = 0;
    assert(parts.take(0).flatten() =~= Seq::<NodeM>::empty());
    assert(nodes_model(out@) =~= Seq::<NodeM>::empty());
    while i < n
        invariant
            e == e0,
            m == elem_model(e0),
            n == children@.len(),
            n == e0.children@.len(),
            0 <= i <= n,
            parts == pruned_parts(*p, m),
            nodes_model(out@) == parts.take(i as int).flatten(),
            forall|j: int| i <= j < n ==> children@[j] == e0.children@[j],
        decreases n - i,
    {
        proof {
            assert(parts.take(i + 1) =~= parts.take(i as int).push(parts[i as int]));
            parts.take(i as int).lemma_flatten_push(parts[i as int]);
            assert(m.children[i as int] == node_model(e0.children@[i as int]));
        }
        let mut tmp = Node::Text(String::new());
        std::mem::swap(&mut children[i], &mut tmp);
        if p.keep(&tmp) {
            let next = match tmp {
                Node::Element(c) => {
                    proof {
                        assert(decreases_to!(e0 => e0.children));
                        assert(decreases_to!(e0.children => e0.children[i as int]));
                        assert(decreases_to!(e0 => c));
                    }
                    Node::Element(prune_element(p, c))
                },
                other => other,
            };
            let ghost o0 = out@;
            out.push(next);
            assert(nodes_model(out@) =~= nodes_model(o0).push(node_model(next)));
            assert(parts[i as int] =~= seq![node_model(next)]);
        } else {
            assert(parts[i as int] =~= Seq::<NodeM>::empty());
            assert(parts.take(i as int).flatten() + parts[i as int] =~= parts.take(i as int).flatten());
        }
        i += 1;
    }
    let res = Element { name, attributes, namespaces, children: out };
    assert(parts.take(n as int) =~= parts);
    assert(elem_model(res).children =~= nodes_model(out@));
    res
}

/// Prunes every element of a document's root tree.
pub fn prune_document<P: NodePrune>(p: &P, document: &mut Document)
    ensures
        doc_model(*final(document)) == doc_with_root(
            doc_model(*old(document)),
            prune_tree(*p, doc_model(*old(document)).root),
        ),
{
    let root = take_root(document);
    document.root = prune_element(p, root);
}


/// A rewrite of one element, made after its children have been rewritten.
pub trait PostRewrite {
    /// Whether the walk leaves this element and everything below it as they are.
    spec fn spec_stops(&self, m: ElemM) -> bool;

    /// Whether the walk leaves this element and everything below it (computed).
    fn stops(&self, e: &Element) -> (b: bool)
        ensures
            b == self.spec_stops(elem_model(*e)),
    ;

    /// The element after the rewrite; its children are already rewritten.
    spec fn spec_post(&self, m: ElemM) -> ElemM;

    /// Rewrites one element whose children are already rewritten.
    fn post(&self, e: Element) -> (r: Element)
        ensures
            elem_model(r) == self.spec_post(elem_model(e)),
    ;
}

/// The tree rewritten bottom-up by `r`: children first, then the element itself.
pub open spec fn post_tree<R: PostRewrite>(r: R, m: ElemM) -> ElemM
    decreases m, 1int,
{
    if r.spec_stops(m) {
        m
    } else {
        r.spec_post(
        ElemM {
            name: m.name,
            attrs: m.attrs,
            namespaces: m.namespaces,
            children: post_children(r, m),
        },
    )
    }
}

/// The children of `m`, each rewritten bottom-up by `r`.
pub open spec fn post_children<R: PostRewrite>(r: R, m: ElemM) -> Seq<NodeM>
    decreases m, 0int,
{
    Seq::new(
        m.children.len(),
        |i: int|
            if 0 <= i < m.children.len() {
                post_node(r, m.children[i])
            } else {
                m.children[i]
            },
    )
}

/// A node with every element in it rewritten bottom-up by `r`.
pub open spec fn post_node<R: PostRewrite>(r: R, n: NodeM) -> NodeM
    decreases n, 2int,
{
    match n {
        NodeM::Element(c) => NodeM::Element(post_tree(r, c)),
        _ => n,
    }
}

/// Rewrites `e` and every element below it, children before parents.
pub fn post_element<R: PostRewrite>(r: &R, e: Element) -> (res: Element)
    ensures
        elem_model(res) == post_tree(*r, elem_model(e)),
    decreases e,
{
    if r.stops(&e) {
        return e;
    }
    let ghost e0 = e;
    let Element { name, attributes, namespaces, children } = e;
    let mut children = children;
    let n = children.len();
    let mut i: usize = 0;
    while i < n
        invariant
            e == e0,
            n == children@.len(),
            n == e0.children@.len(),
            0 <= i <= n,
            forall|j: int|
                0 <= j < i ==> node_model(#[trigger] children@[j]) == post_node(
                    *r,
                    node_model(e0.children@[j]),
                ),
            forall|j: int| i <= j < n ==> children@[j] == e0.children@[j],
        decreases n - i,
    {
        let mut tmp = Node::Text(String::new());
        std::mem::swap(&mut children[i], &mut tmp);
        let next = match tmp {
            Node::Element(c) => {
                proof {
                    assert(decreases_to!(e0 => e0.children));
                    assert(decreases_to!(e0.children => e0.children[i as int]));
                    assert(decreases_to!(e0 => c));
                }
                Node::Element(post_element(r, c))
            },
            other => other,
        };
        children.set(i, next);
        i += 1;
    }
    let mid = Element { name, attributes, namespaces, children };
    assert(elem_model(mid).children =~= post_children(*r, elem_model(e0)));
    r.post(mid)
}

/// Rewrites every element of a document's root tree bottom-up.
pub fn post_document<R: PostRewrite>(r: &R, document: &mut Document)
    ensures
        doc_model(*final(document)) == doc_with_root(
            doc_model(*old(document)),
            post_tree(*r, doc_model(*old(document)).root),
        ),
{
    let root = take_root(document);
    document.root = post_element(r, root);
}

} // verus!
