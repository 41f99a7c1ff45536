//! Collapses groups that serve no purpose: empty-attribute groups give way to their
//! children, and a group with one element child hands its attributes to that child.
use vstd::prelude::*;
use crate::ast::{
    attr_get, attr_set, key_pos, doc_model, doc_with_root, elem_model, has_key, node_model, nodes_model,
    AttrsM, Attributes, Document, ElemM, Element, Node, NodeM, PluginError,
};
use crate::plugins::move_group_attrs_to_elems::elem_of;
use crate::text::{chars_of, extend_chars, in_table, owned, str_eq, string_from, table_has};
use crate::walk::{post_document, post_tree, PostRewrite};

verus! {

broadcast use vstd::string::group_string_axioms;

/// Plugin that collapses useless groups.
pub struct CollapseGroupsPlugin {}

/// The animation elements, whose presence keeps a group.
pub open spec fn animation_names() -> Seq<&'static str> {
    seq!["animate", "animateColor", "animateMotion", "animateTransform", "set"]
}

/// The children that keep a group from going are exactly the animation elements named in
/// this statement.
pub proof fn lemma_animation_names_members(n: Seq<char>)
    ensures
        in_table(animation_names(), n) <==> (n == "animate"@
            || n == "animateColor"@
            || n == "animateMotion"@
            || n == "animateTransform"@
            || n == "set"@),
{
    if n == "animate"@ {
        assert(animation_names()[0]@ == n);
    }
    if n == "animateColor"@ {
        assert(animation_names()[1]@ == n);
    }
    if n == "animateMotion"@ {
        assert(animation_names()[2]@ == n);
    }
    if n == "animateTransform"@ {
        assert(animation_names()[3]@ == n);
    }
    if n == "set"@ {
        assert(animation_names()[4]@ == n);
    }
    if in_table(animation_names(), n) {
        let k = choose|k: int| 0 <= k < animation_names().len() && #[trigger] animation_names()[k]@ == n;
        if k == 0 {
            assert(n == "animate"@);
        }
        if k == 1 {
            assert(n == "animateColor"@);
        }
        if k == 2 {
            assert(n == "animateMotion"@);
        }
        if k == 3 {
            assert(n == "animateTransform"@);
        }
        if k == 4 {
            assert(n == "set"@);
        }
    }
}

/// The attributes whose `inherit` value a child takes from its group.
pub open spec fn inheritable_names() -> Seq<&'static str> {
    seq![
        "clip-rule",
        "color",
        "color-interpolation",
        "color-interpolation-filters",
        "color-profile",
        "color-rendering",
        "cursor",
        "direction",
        "fill",
        "fill-opacity",
        "fill-rule",
        "font",
        "font-family",
        "font-size",
        "font-size-adjust",
        "font-stretch",
        "font-style",
        "font-variant",
        "font-weight",
        "glyph-orientation-horizontal",
        "glyph-orientation-vertical",
        "image-rendering",
        "kerning",
        "letter-spacing",
        "marker",
        "marker-end",
        "marker-mid",
        "marker-start",
        "pointer-events",
        "shape-rendering",
        "stroke",
        "stroke-dasharray",
        "stroke-dashoffset",
        "stroke-linecap",
        "stroke-linejoin",
        "stroke-miterlimit",
        "stroke-opacity",
        "stroke-width",
        "text-anchor",
        "text-rendering",
        "visibility",
        "word-spacing",
        "writing-mode",
    ]
}

/// The attributes a group's value replaces on its child when the child has them as
/// `inherit` are exactly the inheritable properties named in this statement.
pub proof fn lemma_inheritable_names_members(n: Seq<char>)
    ensures
        in_table(inheritable_names(), n) <==> (n == "clip-rule"@
            || n == "color"@
            || n == "color-interpolation"@
            || n == "color-interpolation-filters"@
            || n == "color-profile"@
            || n == "color-rendering"@
            || n == "cursor"@
            || n == "direction"@
            || n == "fill"@
            || n == "fill-opacity"@
            || n == "fill-rule"@
            || n == "font"@
            || n == "font-family"@
            || n == "font-size"@
            || n == "font-size-adjust"@
            || n == "font-stretch"@
            || n == "font-style"@
            || n == "font-variant"@
            || n == "font-weight"@
            || n == "glyph-orientation-horizontal"@
            || n == "glyph-orientation-vertical"@
            || n == "image-rendering"@
            || n == "kerning"@
            || n == "letter-spacing"@
            || n == "marker"@
            || n == "marker-end"@
            || n == "marker-mid"@
            || n == "marker-start"@
            || n == "pointer-events"@
            || n == "shape-rendering"@
            || n == "stroke"@
            || n == "stroke-dasharray"@
            || n == "stroke-dashoffset"@
            || n == "stroke-linecap"@
            || n == "stroke-linejoin"@
            || n == "stroke-miterlimit"@
            || n == "stroke-opacity"@
            || n == "stroke-width"@
            || n == "text-anchor"@
            || n == "text-rendering"@
            || n == "visibility"@
            || n == "word-spacing"@
            || n == "writing-mode"@),
{
    if n == "clip-rule"@ {
        assert(inheritable_names()[0]@ == n);
    }
    if n == "color"@ {
        assert(inheritable_names()[1]@ == n);
    }
    if n == "color-interpolation"@ {
        assert(inheritable_names()[2]@ == n);
    }
    if n == "color-interpolation-filters"@ {
        assert(inheritable_names()[3]@ == n);
    }
    if n == "color-profile"@ {
        assert(inheritable_names()[4]@ == n);
    }
    if n == "color-rendering"@ {
        assert(inheritable_names()[5]@ == n);
    }
    if n == "cursor"@ {
        assert(inheritable_names()[6]@ == n);
    }
    if n == "direction"@ {
        assert(inheritable_names()[7]@ == n);
    }
    if n == "fill"@ {
        assert(inheritable_names()[8]@ == n);
    }
    if n == "fill-opacity"@ {
        assert(inheritable_names()[9]@ == n);
    }
    if n == "fill-rule"@ {
        assert(inheritable_names()[10]@ == n);
    }
    if n == "font"@ {
        assert(inheritable_names()[11]@ == n);
    }
    if n == "font-family"@ {
        assert(inheritable_names()[12]@ == n);
    }
    if n == "font-size"@ {
        assert(inheritable_names()[13]@ == n);
    }
    if n == "font-size-adjust"@ {
        assert(inheritable_names()[14]@ == n);
    }
    if n == "font-stretch"@ {
        assert(inheritable_names()[15]@ == n);
    }
    if n == "font-style"@ {
        assert(inheritable_names()[16]@ == n);
    }
    if n == "font-variant"@ {
        assert(inheritable_names()[17]@ == n);
    }
    if n == "font-weight"@ {
        assert(inheritable_names()[18]@ == n);
    }
    if n == "glyph-orientation-horizontal"@ {
        assert(inheritable_names()[19]@ == n);
    }
    if n == "glyph-orientation-vertical"@ {
        assert(inheritable_names()[20]@ == n);
    }
    if n == "image-rendering"@ {
        assert(inheritable_names()[21]@ == n);
    }
    if n == "kerning"@ {
        assert(inheritable_names()[22]@ == n);
    }
    if n == "letter-spacing"@ {
        assert(inheritable_names()[23]@ == n);
    }
    if n == "marker"@ {
        assert(inheritable_names()[24]@ == n);
    }
    if n == "marker-end"@ {
        assert(inheritable_names()[25]@ == n);
    }
    if n == "marker-mid"@ {
        assert(inheritable_names()[26]@ == n);
    }
    if n == "marker-start"@ {
        assert(inheritable_names()[27]@ == n);
    }
    if n == "pointer-events"@ {
        assert(inheritable_names()[28]@ == n);
    }
    if n == "shape-rendering"@ {
        assert(inheritable_names()[29]@ == n);
    }
    if n == "stroke"@ {
        assert(inheritable_names()[30]@ == n);
    }
    if n == "stroke-dasharray"@ {
        assert(inheritable_names()[31]@ == n);
    }
    if n == "stroke-dashoffset"@ {
        assert(inheritable_names()[32]@ == n);
    }
    if n == "stroke-linecap"@ {
        assert(inheritable_names()[33]@ == n);
    }
    if n == "stroke-linejoin"@ {
        assert(inheritable_names()[34]@ == n);
    }
    if n == "stroke-miterlimit"@ {
        assert(inheritable_names()[35]@ == n);
    }
    if n == "stroke-opacity"@ {
        assert(inheritable_names()[36]@ == n);
    }
    if n == "stroke-width"@ {
        assert(inheritable_names()[37]@ == n);
    }
    if n == "text-anchor"@ {
        assert(inheritable_names()[38]@ == n);
    }
    if n == "text-rendering"@ {
        assert(inheritable_names()[39]@ == n);
    }
    if n == "visibility"@ {
        assert(inheritable_names()[40]@ == n);
    }
    if n == "word-spacing"@ {
        assert(inheritable_names()[41]@ == n);
    }
    if n == "writing-mode"@ {
        assert(inheritable_names()[42]@ == n);
    }
    if in_table(inheritable_names(), n) {
        let k = choose|k: int| 0 <= k < inheritable_names().len() && #[trigger] inheritable_names()[k]@ == n;
        if k == 0 {
            assert(n == "clip-rule"@);
        }
        if k == 1 {
            assert(n == "color"@);
        }
        if k == 2 {
            assert(n == "color-interpolation"@);
        }
        if k == 3 {
            assert(n == "color-interpolation-filters"@);
        }
        if k == 4 {
            assert(n == "color-profile"@);
        }
        if k == 5 {
            assert(n == "color-rendering"@);
        }
        if k == 6 {
            assert(n == "cursor"@);
        }
        if k == 7 {
            assert(n == "direction"@);
        }
        if k == 8 {
            assert(n == "fill"@);
        }
        if k == 9 {
            assert(n == "fill-opacity"@);
        }
        if k == 10 {
            assert(n == "fill-rule"@);
        }
        if k == 11 {
            assert(n == "font"@);
        }
        if k == 12 {
            assert(n == "font-family"@);
        }
        if k == 13 {
            assert(n == "font-size"@);
        }
        if k == 14 {
            assert(n == "font-size-adjust"@);
        }
        if k == 15 {
            assert(n == "font-stretch"@);
        }
        if k == 16 {
            assert(n == "font-style"@);
        }
        if k == 17 {
            assert(n == "font-variant"@);
        }
        if k == 18 {
            assert(n == "font-weight"@);
        }
        if k == 19 {
            assert(n == "glyph-orientation-horizontal"@);
        }
        if k == 20 {
            assert(n == "glyph-orientation-vertical"@);
        }
        if k == 21 {
            assert(n == "image-rendering"@);
        }
        if k == 22 {
            assert(n == "kerning"@);
        }
        if k == 23 {
            assert(n == "letter-spacing"@);
        }
        if k == 24 {
            assert(n == "marker"@);
        }
        if k == 25 {
            assert(n == "marker-end"@);
        }
        if k == 26 {
            assert(n == "marker-mid"@);
        }
        if k == 27 {
            assert(n == "marker-start"@);
        }
        if k == 28 {
            assert(n == "pointer-events"@);
        }
        if k == 29 {
            assert(n == "shape-rendering"@);
        }
        if k == 30 {
            assert(n == "stroke"@);
        }
        if k == 31 {
            assert(n == "stroke-dasharray"@);
        }
        if k == 32 {
            assert(n == "stroke-dashoffset"@);
        }
        if k == 33 {
            assert(n == "stroke-linecap"@);
        }
        if k == 34 {
            assert(n == "stroke-linejoin"@);
        }
        if k == 35 {
            assert(n == "stroke-miterlimit"@);
        }
        if k == 36 {
            assert(n == "stroke-opacity"@);
        }
        if k == 37 {
            assert(n == "stroke-width"@);
        }
        if k == 38 {
            assert(n == "text-anchor"@);
        }
        if k == 39 {
            assert(n == "text-rendering"@);
        }
        if k == 40 {
            assert(n == "visibility"@);
        }
        if k == 41 {
            assert(n == "word-spacing"@);
        }
        if k == 42 {
            assert(n == "writing-mode"@);
        }
    }
}

/// The inheritable attributes (computed).
fn inheritable_attributes() -> (v: Vec<&'static str>)
    ensures
        v@ == inheritable_names(),
{
    vec![
        "clip-rule",
        "color",
        "color-interpolation",
        "color-interpolation-filters",
        "color-profile",
        "color-rendering",
        "cursor",
        "direction",
        "fill",
        "fill-opacity",
        "fill-rule",
        "font",
        "font-family",
        "font-size",
        "font-size-adjust",
        "font-stretch",
        "font-style",
        "font-variant",
        "font-weight",
        "glyph-orientation-horizontal",
        "glyph-orientation-vertical",
        "image-rendering",
        "kerning",
        "letter-spacing",
        "marker",
        "marker-end",
        "marker-mid",
        "marker-start",
        "pointer-events",
        "shape-rendering",
        "stroke",
        "stroke-dasharray",
        "stroke-dashoffset",
        "stroke-linecap",
        "stroke-linejoin",
        "stroke-miterlimit",
        "stroke-opacity",
        "stroke-width",
        "text-anchor",
        "text-rendering",
        "visibility",
        "word-spacing",
        "writing-mode",
    ]
}

/// Whether some element child of `c` is an animation element.
pub open spec fn has_animation_child(c: ElemM) -> bool {
    exists|i: int|
        0 <= i < c.children.len() && #[trigger] c.children[i] is Element && in_table(
            animation_names(),
            elem_of(c.children[i]).name,
        )
}

/// Whether a group's attributes may move onto a child: the child has no `id`, the
/// group no `filter`, and they do not both have `class`, `clip-path` or `mask`.
pub open spec fn can_move(g: AttrsM, c: AttrsM) -> bool {
    &&& !has_key(c, "id"@)
    &&& !has_key(g, "filter"@)
    &&& !(has_key(g, "class"@) && has_key(c, "class"@))
    &&& !(has_key(g, "clip-path"@) && has_key(c, "clip-path"@))
    &&& !(has_key(g, "mask"@) && has_key(c, "mask"@))
}

/// The child's attributes after the first `k` group attributes have moved onto it:
/// a `transform` goes before the child's own, an attribute the child lacks is added,
/// and an inheritable attribute the child has as `inherit` is replaced.
pub open spec fn moved_attrs(g: AttrsM, c: AttrsM, k: nat) -> AttrsM
    decreases k,
{
    if k == 0 || k > g.len() {
        c
    } else {
        let prev = moved_attrs(g, c, (k - 1) as nat);
        let n = g[k - 1].0;
        let v = g[k - 1].1;
        if n == "transform"@ {
            if has_key(prev, n) {
                attr_set(prev, n, v + seq![' '] + attr_get(prev, n).unwrap())
            } else {
                attr_set(prev, n, v)
            }
        } else if has_key(prev, n) {
            if attr_get(prev, n).unwrap() == "inherit"@ && in_table(inheritable_names(), n) {
                attr_set(prev, n, v)
            } else {
                prev
            }
        } else {
            attr_set(prev, n, v)
        }
    }
}

/// Whether an attribute list names `n` at most once.
pub open spec fn key_once(a: AttrsM, n: Seq<char>) -> bool {
    forall|i: int, j: int| 0 <= i < a.len() && 0 <= j < a.len() && a[i].0 == n && a[j].0 == n ==> i == j
}

/// Reading `n` in the child's attributes while the group's move onto it, when the child
/// has no `n`: nothing before the group's `n` has moved, its value after.
proof fn lemma_moved_get(g: AttrsM, c: AttrsM, n: Seq<char>, k: nat)
    requires
        n != "transform"@,
        !has_key(c, n),
        key_once(g, n),
        k <= g.len(),
    ensures
        k <= key_pos(g, n) ==> attr_get(moved_attrs(g, c, k), n) is None,
        key_pos(g, n) < k ==> attr_get(moved_attrs(g, c, k), n) == Some(g[key_pos(g, n) as int].1),
    decreases k,
{
    crate::ast::lemma_key_pos(g, n);
    if k > 0 {
        lemma_moved_get(g, c, n, (k - 1) as nat);
        let prev = moved_attrs(g, c, (k - 1) as nat);
        let m = g[k - 1].0;
        let v = g[k - 1].1;
        let p = key_pos(g, n) as int;
        if m == n {
            assert(k - 1 == p) by {
                if k - 1 < p {
                } else if p < k - 1 {
                    assert(g[p].0 == n);
                }
            }
            crate::ast::lemma_attr_set_get(prev, n, v, n);
        } else {
            if m == "transform"@ {
                if has_key(prev, m) {
                    crate::ast::lemma_attr_set_get(prev, m, v + seq![' '] + attr_get(prev, m).unwrap(), n);
                } else {
                    crate::ast::lemma_attr_set_get(prev, m, v, n);
                }
            } else if has_key(prev, m) {
                if attr_get(prev, m).unwrap() == "inherit"@ && in_table(inheritable_names(), m) {
                    crate::ast::lemma_attr_set_get(prev, m, v, n);
                }
            } else {
                crate::ast::lemma_attr_set_get(prev, m, v, n);
            }
        }
    }
}

/// Collapsing a group into its child never loses the group's clip, mask or class: when
/// the attributes may move, the child ends up with the group's `clip-path`, `mask` and
/// `class` values. More generally, every group attribute other than `transform` that the child
/// lacks ends up on the child with the group's value.
pub proof fn lemma_group_values_kept(g: AttrsM, c: AttrsM, n: Seq<char>)
    requires
        can_move(g, c),
        has_key(g, n),
        key_once(g, n),
        n == "clip-path"@ || n == "mask"@ || n == "class"@ || (n != "transform"@ && !has_key(c, n)),
    ensures
        !has_key(c, n),
        attr_get(moved_attrs(g, c, g.len()), n) == attr_get(g, n),
{
    assert(n != "transform"@) by {
        reveal_strlit("clip-path");
        reveal_strlit("mask");
        reveal_strlit("transform");
        assert("clip-path"@[0] != "transform"@[0]);
        assert("mask"@.len() != "transform"@.len());
        reveal_strlit("class");
        assert("class"@.len() != "transform"@.len());
    }
    lemma_moved_get(g, c, n, g.len());
}

/// A group hands its attributes over only when it has no `filter` (a filter applies to
/// the group as a whole) and its child has no `id`.
pub proof fn lemma_move_refused(g: AttrsM, c: AttrsM)
    requires
        can_move(g, c),
    ensures
        attr_get(g, "filter"@) is None,
        attr_get(c, "id"@) is None,
        !(attr_get(g, "clip-path"@) is Some && attr_get(c, "clip-path"@) is Some),
        !(attr_get(g, "mask"@) is Some && attr_get(c, "mask"@) is Some),
        !(attr_get(g, "class"@) is Some && attr_get(c, "class"@) is Some),
{
}

/// Whether a group can go, leaving its children: it has no attributes, no animation
/// child, and its parent is not a `<switch>`.
pub open spec fn can_remove(c: ElemM, parent: Option<Seq<char>>) -> bool {
    c.attrs.len() == 0 && !has_animation_child(c) && !(parent is Some && parent.unwrap()
        == "switch"@)
}

/// What a group is replaced by, if anything: its children when it can go, or its
/// single element child carrying the group's attributes when they can move.
pub open spec fn replacement(c: ElemM, parent: Seq<char>) -> Option<Seq<NodeM>> {
    if can_remove(c, Some(parent)) {
        Some(c.children)
    } else if c.children.len() == 1 && c.children[0] is Element && can_move(
        c.attrs,
        elem_of(c.children[0]).attrs,
    ) {
        let ch = elem_of(c.children[0]);
        Some(
            seq![
                NodeM::Element(
                    ElemM {
                        name: ch.name,
                        attrs: moved_attrs(c.attrs, ch.attrs, c.attrs.len()),
                        namespaces: ch.namespaces,
                        children: ch.children,
                    },
                ),
            ],
        )
    } else {
        None
    }
}

/// What a child of an element named `parent` becomes.
pub open spec fn collapse_part(n: NodeM, parent: Seq<char>) -> Seq<NodeM> {
    if n is Element && elem_of(n).name == "g"@ && replacement(elem_of(n), parent) is Some {
        replacement(elem_of(n), parent).unwrap()
    } else {
        seq![n]
    }
}

/// For each child of `m`, what it becomes.
pub open spec fn collapse_parts(m: ElemM) -> Seq<Seq<NodeM>> {
    Seq::new(m.children.len(), |i: int| collapse_part(m.children[i], m.name))
}

impl PostRewrite for CollapseGroupsPlugin {
    open spec fn spec_stops(&self, m: ElemM) -> bool {
        false
    }

    fn stops(&self, e: &Element) -> (b: bool) {
        false
    }

    open spec fn spec_post(&self, m: ElemM) -> ElemM {
        ElemM {
            name: m.name,
            attrs: m.attrs,
            namespaces: m.namespaces,
            children: collapse_parts(m).flatten(),
        }
    }

    fn post(&self, e: Element) -> (r: Element) {
        let ghost m = elem_model(e);
        let ghost parts = collapse_parts(m);
        proof {
            crate::ast::lemma_children_model(e);
        }
        let Element { name, attributes, namespaces, children } = e;
        let mut children = children;
        let mut out: Vec<Node> = Vec::new();
        let n = children.len();
        let mut i: usize = 0;
        assert(parts.take(0).flatten() =~= Seq::<NodeM>::empty());
        assert(nodes_model(out@) =~= Seq::<NodeM>::empty());
        while i < n
            invariant
                n == children@.len(),
                n == m.children.len(),
                m == elem_model(e),
                m.children == nodes_model(e.children@),
                name@ == m.name,
                parts == collapse_parts(m),
                0 <= i <= n,
                nodes_model(out@) == parts.take(i as int).flatten(),
                forall|t: int| i <= t < n ==> children@[t] == e.children@[t],
            decreases n - i,
        {
            proof {
                assert(parts.take(i + 1) =~= parts.take(i as int).push(parts[i as int]));
                parts.take(i as int).lemma_flatten_push(parts[i as int]);
            }
            let mut tmp = Node::Text(String::new());
            std::mem::swap(&mut children[i], &mut tmp);
            assert(m.children[i as int] == node_model(tmp));
            let ghost o0 = nodes_model(out@);
            match tmp {
                Node::Element(c) => {
                    proof {
                        crate::ast::lemma_children_model(c);
                    }
                    if c.is_named("g") && Self::can_remove_group(&c, Some(name.as_str())) {
                        let Element { name: _, attributes: _, namespaces: _, children: gch } = c;
                        let ghost before = out@;
                        let mut gch = gch;
                        out.append(&mut gch);
                        assert(nodes_model(out@) =~= o0 + elem_model(c).children);
                    } else if c.is_named("g") && c.children.len() == 1 && Self::single_child_movable(&c) {
                        let Element { name: gn, attributes: ga, namespaces: gns, children: gch } = c;
                        let mut gch = gch;
                        let mut t2 = Node::Text(String::new());
                        std::mem::swap(&mut gch[0], &mut t2);
                        assert(elem_model(c).children[0] == node_model(t2));
                        match t2 {
                            Node::Element(ch) => {
                                let ghost ch0 = ch;
                                let mut ch = ch;
                                move_attrs_from(&ga, &mut ch);
                                proof {
                                    crate::ast::lemma_children_model(ch);
                                    crate::ast::lemma_children_model(ch0);
                                }
                                let ghost nm = node_model(Node::Element(ch));
                                out.push(Node::Element(ch));
                                assert(nodes_model(out@) =~= o0.push(nm));
                                assert(parts[i as int] =~= seq![nm]);
                            },
                            _ => {
                                assert(false);
                            },
                        }
                    } else {
                        let ghost nm = node_model(Node::Element(c));
                        out.push(Node::Element(c));
                        assert(nodes_model(out@) =~= o0.push(nm));
                        assert(parts[i as int] =~= seq![nm]);
                    }
                },
                other => {
                    let ghost nm = node_model(other);
                    out.push(other);
                    assert(nodes_model(out@) =~= o0.push(nm));
                    assert(parts[i as int] =~= seq![nm]);
                },
            }
            i += 1;
        }
        assert(parts.take(n as int) =~= parts);
        let r = Element { name, attributes, namespaces, children: out };
        assert(elem_model(r).children =~= nodes_model(out@));
        r
    }
}

/// Moves the attributes `ga` of a group onto `child`.
fn move_attrs_from(ga: &Attributes, child: &mut Element)
    ensures
        final(child).name == old(child).name,
        final(child).namespaces == old(child).namespaces,
        final(child).children == old(child).children,
        final(child).attributes@ == moved_attrs(ga@, old(child).attributes@, ga@.len()),
{
    let ghost c0 = child.attributes@;
    let inh = inheritable_attributes();
    let k = ga.entries.len();
    let mut t: usize = 0;
    while t < k
        invariant
            k == ga@.len(),
            inh@ == inheritable_names(),
            0 <= t <= k,
            child.name == old(child).name,
            child.namespaces == old(child).namespaces,
            child.children == old(child).children,
            c0 == old(child).attributes@,
            child.attributes@ == moved_attrs(ga@, c0, t as nat),
        decreases k - t,
    {
        let n = ga.entries[t].0.as_str();
        let v = ga.entries[t].1.as_str();
        assert(ga@[t as int] == (n@, v@));
        let ghost prev = child.attributes@;
        assert(moved_attrs(ga@, c0, (t + 1) as nat) == if n@ == "transform"@ {
            if has_key(prev, n@) {
                attr_set(prev, n@, v@ + seq![' '] + attr_get(prev, n@).unwrap())
            } else {
                attr_set(prev, n@, v@)
            }
        } else if has_key(prev, n@) {
            if attr_get(prev, n@).unwrap() == "inherit"@ && in_table(inheritable_names(), n@) {
                attr_set(prev, n@, v@)
            } else {
                prev
            }
        } else {
            attr_set(prev, n@, v@)
        });
        if str_eq(n, "transform") {
            match child.attributes.get_cloned("transform") {
                Some(ct) => {
                    let mut comb = chars_of(v);
                    comb.push(' ');
                    extend_chars(&mut comb, &chars_of(ct.as_str()));
                    assert(comb@ =~= v@ + seq![' '] + ct@);
                    child.attributes.insert(owned(n), string_from(&comb));
                },
                None => {
                    child.attributes.insert(owned(n), owned(v));
                },
            }
        } else {
            match child.attributes.get_cloned(n) {
                Some(cv) => {
                    if str_eq(cv.as_str(), "inherit") && table_has(&inh, n) {
                        child.attributes.insert(owned(n), owned(v));
                    }
                },
                None => {
                    child.attributes.insert(owned(n), owned(v));
                },
            }
        }
        t += 1;
    }
}

impl CollapseGroupsPlugin {
    /// The plugin.
    pub fn new() -> (r: Self) {
        CollapseGroupsPlugin {  }
    }

    /// The plugin's name.
    pub fn name(&self) -> (r: &'static str)
        ensures
            r@ == "collapseGroups"@,
    {
        "collapseGroups"
    }

    /// What the plugin does.
    pub fn description(&self) -> (r: &'static str)
        ensures
            r@ == "Collapse unnecessary group elements"@,
    {
        "Collapse unnecessary group elements"
    }

    /// The animation elements.
    pub fn animation_elements() -> (v: Vec<&'static str>)
        ensures
            v@ == animation_names(),
    {
        vec!["animate", "animateColor", "animateMotion", "animateTransform", "set"]
    }

    /// Whether some element child is an animation element.
    pub fn has_animation_children(element: &Element) -> (r: bool)
        ensures
            r == has_animation_child(elem_model(*element)),
    {
        let ghost m = elem_model(*element);
        proof {
            crate::ast::lemma_children_model(*element);
        }
        let anim = Self::animation_elements();
        let n = element.children.len();
        let mut i: usize = 0;
        while i < n
            invariant
                n == element.children@.len(),
                m == elem_model(*element),
                m.children == nodes_model(element.children@),
                anim@ == animation_names(),
                0 <= i <= n,
                forall|t: int|
                    0 <= t < i ==> !(#[trigger] m.children[t] is Element && in_table(
                        animation_names(),
                        elem_of(m.children[t]).name,
                    )),
            decreases n - i,
        {
            assert(m.children[i as int] == node_model(element.children@[i as int]));
            match &element.children[i] {
                Node::Element(c) => {
                    if table_has(&anim, c.name.as_str()) {
                        return true;
                    }
                },
                _ => {},
            }
            i += 1;
        }
        false
    }

    /// Whether the group's attributes may move onto `child`.
    pub fn can_move_attributes(group: &Element, child: &Element) -> (r: bool)
        ensures
            r == can_move(group.attributes@, child.attributes@),
    {
        !child.attributes.contains_key("id") && !group.attributes.contains_key("filter") && !(
        group.attributes.contains_key("class") && child.attributes.contains_key("class")) && !(
        group.attributes.contains_key("clip-path") && child.attributes.contains_key("clip-path"))
            && !(group.attributes.contains_key("mask") && child.attributes.contains_key("mask"))
    }

    /// Moves the group's attributes onto `child`.
    pub fn move_attributes(group: &Element, child: &mut Element)
        ensures
            final(child).name == old(child).name,
            final(child).namespaces == old(child).namespaces,
            final(child).children == old(child).children,
            final(child).attributes@ == moved_attrs(
                group.attributes@,
                old(child).attributes@,
                group.attributes@.len(),
            ),
    {
        move_attrs_from(&group.attributes, child);
    }

    /// Whether a group can go, leaving its children, under a parent named `parent_name`.
    pub fn can_remove_group(group: &Element, parent_name: Option<&str>) -> (r: bool)
        ensures
            r == can_remove(
                elem_model(*group),
                match parent_name {
                    Some(p) => Some(p@),
                    None => None,
                },
            ),
    {
        if !group.attributes.is_empty() {
            return false;
        }
        if Self::has_animation_children(group) {
            return false;
        }
        match parent_name {
            Some(p) => !str_eq(p, "switch"),
            None => true,
        }
    }

    /// Whether a group's single child is an element that can take its attributes.
    fn single_child_movable(c: &Element) -> (r: bool)
        requires
            c.children@.len() == 1,
        ensures
            r == (elem_model(*c).children[0] is Element && can_move(
                c.attributes@,
                elem_of(elem_model(*c).children[0]).attrs,
            )),
    {
        assert(elem_model(*c).children[0] == node_model(c.children@[0]));
        match &c.children[0] {
            Node::Element(ch) => Self::can_move_attributes(c, ch),
            _ => false,
        }
    }

    /// Collapses useless groups, bottom-up from the root.
    pub fn apply(&self, document: &mut Document) -> (r: Result<(), PluginError>)
        ensures
            r is Ok,
            doc_model(*final(document)) == doc_with_root(
                doc_model(*old(document)),
                post_tree(*self, doc_model(*old(document)).root),
            ),
    {
        post_document(self, document);
        Ok(())
    }
}

} // verus!
