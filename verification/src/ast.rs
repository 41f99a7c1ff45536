//! The SVG document tree, and its mathematical model.
use vstd::prelude::*;
use crate::text::{owned, str_eq};

verus! {

broadcast use vstd::string::group_string_axioms;

/// An attribute list as a sequence of (name, value) pairs, in document order.
pub type AttrsM = Seq<(Seq<char>, Seq<char>)>;

/// Model of a node.
pub enum NodeM {
    Element(ElemM),
    Text(Seq<char>),
    Comment(Seq<char>),
    CData(Seq<char>),
    ProcessingInstruction(Seq<char>, Seq<char>),
    DocType(Seq<char>),
}

/// Model of an element.
pub struct ElemM {
    pub name: Seq<char>,
    pub attrs: AttrsM,
    pub namespaces: AttrsM,
    pub children: Seq<NodeM>,
}

/// Model of a document.
pub struct DocM {
    pub prologue: Seq<NodeM>,
    pub root: ElemM,
    pub epilogue: Seq<NodeM>,
    pub path: Option<Seq<char>>,
}

/// Position of the first entry named `k`, or the length when there is none.
pub open spec fn key_pos(s: AttrsM, k: Seq<char>) -> nat
    decreases s.len(),
{
    if s.len() == 0 {
        0
    } else if s[0].0 == k {
        0
    } else {
        1 + key_pos(s.drop_first(), k)
    }
}

/// Whether an entry is named `k`.
pub open spec fn has_key(s: AttrsM, k: Seq<char>) -> bool {
    key_pos(s, k) < s.len()
}

/// The value of the first entry named `k`.
pub open spec fn attr_get(s: AttrsM, k: Seq<char>) -> Option<Seq<char>> {
    if has_key(s, k) {
        Some(s[key_pos(s, k) as int].1)
    } else {
        None
    }
}

/// Sets `k` to `v`: the entry keeps its place when present, else it goes last.
pub open spec fn attr_set(s: AttrsM, k: Seq<char>, v: Seq<char>) -> AttrsM {
    if has_key(s, k) {
        s.update(key_pos(s, k) as int, (k, v))
    } else {
        s.push((k, v))
    }
}

/// Removes the entry named `k`, keeping the order of the others.
pub open spec fn attr_shift_remove(s: AttrsM, k: Seq<char>) -> AttrsM {
    if has_key(s, k) {
        s.remove(key_pos(s, k) as int)
    } else {
        s
    }
}

/// Removes the entry named `k` by moving the last entry into its place.
pub open spec fn attr_swap_remove(s: AttrsM, k: Seq<char>) -> AttrsM {
    if has_key(s, k) {
        s.update(key_pos(s, k) as int, s.last()).drop_last()
    } else {
        s
    }
}

/// Facts about `key_pos`.
pub proof fn lemma_key_pos(s: AttrsM, k: Seq<char>)
    ensures
        key_pos(s, k) <= s.len(),
        key_pos(s, k) < s.len() ==> s[key_pos(s, k) as int].0 == k,
        forall|j: int| 0 <= j < key_pos(s, k) ==> s[j].0 != k,
    decreases s.len(),
{
    if s.len() > 0 && s[0].0 != k {
        lemma_key_pos(s.drop_first(), k);
        assert forall|j: int| 0 <= j < key_pos(s, k) implies s[j].0 != k by {
            if j > 0 {
                assert(s[j] == s.drop_first()[j - 1]);
            }
        }
    }
}

/// `key_pos` is the first position whose entry is named `k`.
pub proof fn lemma_key_pos_unique(s: AttrsM, k: Seq<char>, p: int)
    requires
        0 <= p <= s.len(),
        p < s.len() ==> s[p].0 == k,
        forall|j: int| 0 <= j < p ==> s[j].0 != k,
    ensures
        key_pos(s, k) == p,
{
    lemma_key_pos(s, k);
    let kp = key_pos(s, k) as int;
    if kp < p {
        assert(s[kp].0 == k);
    } else if kp > p {
        assert(s[p].0 != k);
    }
}

/// Reading a name after setting one: the value set for that name, the old value for
/// any other.
pub proof fn lemma_attr_set_get(s: AttrsM, k: Seq<char>, v: Seq<char>, q: Seq<char>)
    ensures
        attr_get(attr_set(s, k, v), q) == if q == k {
            Some(v)
        } else {
            attr_get(s, q)
        },
{
    lemma_key_pos(s, k);
    lemma_key_pos(s, q);
    let t = attr_set(s, k, v);
    let pk = key_pos(s, k) as int;
    let pq = key_pos(s, q) as int;
    if has_key(s, k) {
        assert(t.len() == s.len());
        if q == k {
            lemma_key_pos_unique(t, q, pk);
        } else {
            assert forall|j: int| 0 <= j < pq implies t[j].0 != q by {
                if j != pk {
                    assert(t[j] == s[j]);
                }
            }
            if pq < s.len() {
                assert(t[pq] == s[pq]);
            }
            lemma_key_pos_unique(t, q, pq);
        }
    } else {
        assert(t.len() == s.len() + 1);
        if q == k {
            assert forall|j: int| 0 <= j < pk implies t[j].0 != q by {
                assert(t[j] == s[j]);
            }
            lemma_key_pos_unique(t, q, pk);
        } else {
            if pq < s.len() {
                assert forall|j: int| 0 <= j < pq implies t[j].0 != q by {
                    assert(t[j] == s[j]);
                }
                assert(t[pq] == s[pq]);
                lemma_key_pos_unique(t, q, pq);
            } else {
                assert forall|j: int| 0 <= j < t.len() implies t[j].0 != q by {
                    if j < s.len() {
                        assert(t[j] == s[j]);
                    }
                }
                lemma_key_pos_unique(t, q, t.len() as int);
            }
        }
    }
}

/// An ordered map from names to values with at most one entry per name.
pub struct Attributes {
    pub entries: Vec<(String, String)>,
}

impl View for Attributes {
    type V = AttrsM;

    open spec fn view(&self) -> AttrsM {
        Seq::new(self.entries@.len(), |i: int| (self.entries@[i].0@, self.entries@[i].1@))
    }
}

impl Attributes {
    /// An empty attribute list.
    pub fn new() -> (r: Self)
        ensures
            r@ == Seq::<(Seq<char>, Seq<char>)>::empty(),
    {
        let r = Attributes { entries: Vec::new() };
        assert(r@ =~= Seq::<(Seq<char>, Seq<char>)>::empty());
        r
    }

    /// Number of entries.
    pub fn len(&self) -> (n: usize)
        ensures
            n == self@.len(),
    {
        self.entries.len()
    }

    /// Whether there is no entry.
    pub fn is_empty(&self) -> (b: bool)
        ensures
            b == (self@.len() == 0),
    {
        self.entries.len() == 0
    }

    /// Position of the entry named `k`, or the length.
    pub fn position(&self, k: &str) -> (p: usize)
        ensures
            p == key_pos(self@, k@),
    {
        let n = self.entries.len();
        let mut i: usize = 0;
        assert(self@.skip(0) =~= self@);
        while i < n
            invariant
                n == self@.len(),
                0 <= i <= n,
                key_pos(self@, k@) == i + key_pos(self@.skip(i as int), k@),
            decreases n - i,
        {
            if str_eq(self.entries[i].0.as_str(), k) {
                return i;
            }
            assert(self@.skip(i as int).drop_first() =~= self@.skip(i + 1));
            i += 1;
        }
        i
    }

    /// Whether an entry is named `k`.
    pub fn contains_key(&self, k: &str) -> (b: bool)
        ensures
            b == has_key(self@, k@),
    {
        self.position(k) < self.entries.len()
    }

    /// The value of the entry named `k`.
    pub fn get(&self, k: &str) -> (r: Option<&String>)
        ensures
            match r {
                Some(v) => attr_get(self@, k@) == Some(v@),
                None => attr_get(self@, k@).is_none(),
            },
    {
        let p = self.position(k);
        if p < self.entries.len() {
            Some(&self.entries[p].1)
        } else {
            None
        }
    }

    /// A copy of the value of the entry named `k`.
    pub fn get_cloned(&self, k: &str) -> (r: Option<String>)
        ensures
            match r {
                Some(v) => attr_get(self@, k@) == Some(v@),
                None => attr_get(self@, k@).is_none(),
            },
    {
        match self.get(k) {
            Some(v) => Some(v.clone()),
            None => None,
        }
    }

    /// Sets the entry named `k` to `v`.
    pub fn insert(&mut self, k: String, v: String)
        ensures
            final(self)@ == attr_set(old(self)@, k@, v@),
    {
        let p = self.position(k.as_str());
        if p < self.entries.len() {
            self.entries.set(p, (k, v));
            assert(self@ =~= attr_set(old(self)@, k@, v@));
        } else {
            self.entries.push((k, v));
            assert(self@ =~= attr_set(old(self)@, k@, v@));
        }
    }

    /// Removes the entry named `k`, keeping the order of the others.
    pub fn shift_remove(&mut self, k: &str)
        ensures
            final(self)@ == attr_shift_remove(old(self)@, k@),
    {
        let p = self.position(k);
        if p < self.entries.len() {
            self.entries.remove(p);
            assert(self@ =~= attr_shift_remove(old(self)@, k@));
        }
    }

    /// Removes the entry named `k`; the last entry takes its place.
    pub fn swap_remove(&mut self, k: &str)
        ensures
            final(self)@ == attr_swap_remove(old(self)@, k@),
    {
        let p = self.position(k);
        if p < self.entries.len() {
            self.entries.swap_remove(p);
            assert(self@ =~= attr_swap_remove(old(self)@, k@));
        }
    }
}

/// A node of the tree.
pub enum Node {
    Element(Element),
    Text(String),
    Comment(String),
    CData(String),
    ProcessingInstruction(String, String),
    DocType(String),
}

/// An element: a name, attributes, namespace declarations and children.
pub struct Element {
    pub name: String,
    pub attributes: Attributes,
    pub namespaces: Attributes,
    pub children: Vec<Node>,
}

/// A document: nodes before the root, the root element, nodes after it, and the
/// path of the file it came from, when known.
pub struct Document {
    pub prologue: Vec<Node>,
    pub root: Element,
    pub epilogue: Vec<Node>,
    pub path: Option<String>,
}

/// Model of an element.
pub open spec fn elem_model(e: Element) -> ElemM
    decreases e, 1int,
{
    ElemM {
        name: e.name@,
        attrs: e.attributes@,
        namespaces: e.namespaces@,
        children: Seq::new(e.children@.len(), |i: int| child_model(e, i)),
    }
}

/// Model of the `i`-th child of `e`.
pub open spec fn child_model(e: Element, i: int) -> NodeM
    decreases e, 0int,
{
    if 0 <= i < e.children@.len() {
        proof {
            assert(decreases_to!(e => e.children));
        }
        node_model(e.children@[i])
    } else {
        NodeM::Text(Seq::empty())
    }
}

/// Model of a node.
pub open spec fn node_model(n: Node) -> NodeM
    decreases n, 2int,
{
    match n {
        Node::Element(c) => NodeM::Element(elem_model(c)),
        Node::Text(t) => NodeM::Text(t@),
        Node::Comment(t) => NodeM::Comment(t@),
        Node::CData(t) => NodeM::CData(t@),
        Node::ProcessingInstruction(a, b) => NodeM::ProcessingInstruction(a@, b@),
        Node::DocType(t) => NodeM::DocType(t@),
    }
}

/// Model of a sequence of nodes.
pub open spec fn nodes_model(v: Seq<Node>) -> Seq<NodeM> {
    Seq::new(v.len(), |i: int| node_model(v[i]))
}

/// Model of a document.
pub open spec fn doc_model(d: Document) -> DocM {
    DocM {
        prologue: nodes_model(d.prologue@),
        root: elem_model(d.root),
        epilogue: nodes_model(d.epilogue@),
        path: match d.path {
            Some(p) => Some(p@),
            None => None,
        },
    }
}

/// The children part of an element model equals the model of its child vector.
pub proof fn lemma_children_model(e: Element)
    ensures
        elem_model(e).children == nodes_model(e.children@),
{
    assert(elem_model(e).children =~= nodes_model(e.children@));
}

impl Element {
    /// An element with the given name and nothing else.
    pub fn new(name: &str) -> (r: Element)
        ensures
            elem_model(r) == (ElemM {
                name: name@,
                attrs: Seq::empty(),
                namespaces: Seq::empty(),
                children: Seq::empty(),
            }),
    {
        let r = Element {
            name: owned(name),
            attributes: Attributes::new(),
            namespaces: Attributes::new(),
            children: Vec::new(),
        };
        assert(elem_model(r).children =~= Seq::<NodeM>::empty());
        r
    }

    /// Whether the element is named `n`.
    pub fn is_named(&self, n: &str) -> (b: bool)
        ensures
            b == (self.name@ == n@),
    {
        str_eq(self.name.as_str(), n)
    }

    /// Whether the element has attribute `k`.
    pub fn has_attr(&self, k: &str) -> (b: bool)
        ensures
            b == has_key(self.attributes@, k@),
    {
        self.attributes.contains_key(k)
    }

    /// A copy of the value of attribute `k`.
    pub fn attr(&self, k: &str) -> (r: Option<String>)
        ensures
            match r {
                Some(v) => attr_get(self.attributes@, k@) == Some(v@),
                None => attr_get(self.attributes@, k@).is_none(),
            },
    {
        self.attributes.get_cloned(k)
    }

    /// Sets attribute `k` to `v`.
    pub fn set_attr(&mut self, k: &str, v: &str)
        ensures
            final(self).name == old(self).name,
            final(self).namespaces == old(self).namespaces,
            final(self).children == old(self).children,
            final(self).attributes@ == attr_set(old(self).attributes@, k@, v@),
    {
        self.attributes.insert(owned(k), owned(v));
    }

    /// Removes attribute `k`, keeping the order of the others.
    pub fn remove_attr(&mut self, k: &str)
        ensures
            final(self).name == old(self).name,
            final(self).namespaces == old(self).namespaces,
            final(self).children == old(self).children,
            final(self).attributes@ == attr_shift_remove(old(self).attributes@, k@),
    {
        self.attributes.shift_remove(k);
    }
}

impl Document {
    /// A document whose root is an empty `svg` element.
    pub fn new() -> (d: Document)
        ensures
            d.root.name@ == "svg"@,
            doc_model(d).root.attrs.len() == 0,
            doc_model(d).root.children.len() == 0,
            d.prologue@.len() == 0,
            d.epilogue@.len() == 0,
            d.path.is_none(),
    {
        let root = Element::new("svg");
        Document { prologue: Vec::new(), root, epilogue: Vec::new(), path: None }
    }
}

/// The elements of a tree in document order (parents before children).
pub open spec fn tree_elems(m: ElemM) -> Seq<ElemM>
    decreases m, 1int,
{
    seq![m] + children_elems(m).flatten()
}

/// For each child of `m`, the elements of its tree in document order.
pub open spec fn children_elems(m: ElemM) -> Seq<Seq<ElemM>>
    decreases m, 0int,
{
    Seq::new(
        m.children.len(),
        |i: int|
            if 0 <= i < m.children.len() {
                node_elems(m.children[i])
            } else {
                Seq::empty()
            },
    )
}

/// The elements of a node's tree in document order.
pub open spec fn node_elems(n: NodeM) -> Seq<ElemM>
    decreases n, 2int,
{
    match n {
        NodeM::Element(c) => tree_elems(c),
        _ => Seq::empty(),
    }
}

/// `d` with its root replaced by `r`.
pub open spec fn doc_with_root(d: DocM, r: ElemM) -> DocM {
    DocM { prologue: d.prologue, root: r, epilogue: d.epilogue, path: d.path }
}

/// Takes the root element out of a document, leaving an empty `svg` element in its place.
pub fn take_root(document: &mut Document) -> (r: Element)
    ensures
        r == old(document).root,
        final(document).prologue == old(document).prologue,
        final(document).epilogue == old(document).epilogue,
        final(document).path == old(document).path,
{
    let mut root = Element::new("svg");
    std::mem::swap(&mut root, &mut document.root);
    root
}

/// Why a plugin refused to run.
#[derive(Debug)]
pub enum PluginError {
    /// The configuration cannot be used; the text says why.
    InvalidConfig(String),
    /// Path data cannot be read; the text says why.
    InvalidPathData(String),
}

} // verus!
