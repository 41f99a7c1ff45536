//! Replaces the references to gradients with a single stop by that stop's colour,
//! then removes those gradients and the `<defs>` elements left empty.
use vstd::prelude::*;
use crate::text::in_table;
use crate::ast::{
    attr_get, attr_set, attr_shift_remove, attr_swap_remove, doc_model, doc_with_root, elem_model,
    has_key, node_model, nodes_model, take_root, Attributes, AttrsM, Document, ElemM, Element,
    Node, NodeM, PluginError,
};
use crate::plugins::inline_styles::{pairs_view, set_all};
use crate::plugins::move_group_attrs_to_elems::elem_of;
use crate::text::{
    char_pos, char_pos_exec, chars_eq, chars_of, ends_with_seq, ends_with_str, extend_chars,
    extend_str, find_first, find_first_exec, owned, replace_all, replace_all_exec, skip_chars,
    slice_chars, starts_with_seq, starts_with_str, string_from, trim_chars, trim_seq,
    trim_start_index, trim_start_seq,
};

verus! {

broadcast use vstd::string::group_string_axioms;

/// Settings of the plugin (there are none).
pub struct ConvertOneStopGradientsConfig {}

impl Default for ConvertOneStopGradientsConfig {
    fn default() -> (r: Self) {
        ConvertOneStopGradientsConfig {  }
    }
}

/// Plugin that turns one-stop gradients into plain colours.
pub struct ConvertOneStopGradientsPlugin {
    pub config: ConvertOneStopGradientsConfig,
}

/// Whether a name is that of a gradient element.
pub open spec fn is_gradient_name(n: Seq<char>) -> bool {
    n == "linearGradient"@ || n == "radialGradient"@
}

/// The gradients the plugin looks at are `linearGradient` and `radialGradient` elements.
pub proof fn lemma_is_gradient_name_names(n: Seq<char>)
    ensures
        is_gradient_name(n) <==> (n == "radialGradient"@ || n == "linearGradient"@),
{
}

/// Whether a node is a `<stop>` element.
pub open spec fn is_stop(n: NodeM) -> bool {
    n is Element && elem_of(n).name == "stop"@
}

/// The `<stop>` elements among the nodes, in order.
pub open spec fn stops_of(s: Seq<NodeM>) -> Seq<NodeM>
    decreases s.len(),
{
    if s.len() == 0 {
        seq![]
    } else {
        stops_of(s.drop_last()) + if is_stop(s.last()) {
            seq![s.last()]
        } else {
            seq![]
        }
    }
}

/// The value of the first `stop-color:` declaration in a `style` value: what follows
/// it up to the next `;`, trimmed.
pub open spec fn style_stop_color(st: Seq<char>) -> Option<Seq<char>> {
    match find_first(st, "stop-color:"@) {
        Some(i) => {
            let rest = trim_start_seq(st.skip(i + 11));
            Some(trim_seq(rest.take(char_pos(rest, ';') as int)))
        },
        None => None,
    }
}

/// The colour of a stop: its `stop-color`, else the `stop-color:` declaration of its
/// `style`, else black.
pub open spec fn stop_color(stop: ElemM) -> Seq<char> {
    match attr_get(stop.attrs, "stop-color"@) {
        Some(c) => c,
        None => match attr_get(stop.attrs, "style"@) {
            Some(st) => match style_stop_color(st) {
                Some(c) => c,
                None => "black"@,
            },
            None => "black"@,
        },
    }
}

/// Whether a gradient with an `id` has no stop but refers to another gradient; its
/// subtree is then left out of the search.
pub open spec fn skips(m: ElemM) -> bool {
    is_gradient_name(m.name) && has_key(m.attrs, "id"@) && stops_of(m.children).len() == 0 && (
    has_key(m.attrs, "xlink:href"@) || has_key(m.attrs, "href"@))
}

/// The one-stop gradient an element is, as its `id` and colour.
pub open spec fn own_found(m: ElemM) -> AttrsM {
    if is_gradient_name(m.name) && has_key(m.attrs, "id"@) && stops_of(m.children).len() == 1 {
        seq![(attr_get(m.attrs, "id"@).unwrap(), stop_color(elem_of(stops_of(m.children)[0])))]
    } else {
        seq![]
    }
}

/// The one-stop gradients of a tree, in document order.
pub open spec fn found(m: ElemM) -> AttrsM
    decreases m, 2int, 0nat,
{
    own_found(m) + if skips(m) {
        seq![]
    } else {
        found_kids(m, m.children.len())
    }
}

/// The one-stop gradients in the first `k` children of `m`.
pub open spec fn found_kids(m: ElemM, k: nat) -> AttrsM
    decreases m, 1int, k,
{
    if k == 0 || k > m.children.len() {
        seq![]
    } else {
        found_kids(m, (k - 1) as nat) + found_node(m.children[k - 1])
    }
}

/// The one-stop gradients in a node.
pub open spec fn found_node(n: NodeM) -> AttrsM
    decreases n, 0int, 0nat,
{
    match n {
        NodeM::Element(c) => found(c),
        _ => seq![],
    }
}

/// The `stop-color:` declaration of a `style` value (computed).
fn style_stop_color_exec(st: &str) -> (r: Option<String>)
    ensures
        match r {
            Some(c) => style_stop_color(st@) == Some(c@),
            None => style_stop_color(st@) is None,
        },
{
    let sv = chars_of(st);
    let pat = chars_of("stop-color:");
    match find_first_exec(&sv, &pat) {
        Some(i) => {
            proof {
                reveal_strlit("stop-color:");
            }
            assert(pat@.len() == 11);
            let len = sv.len();
            assert(i + 11 <= len);
            let tail = skip_chars(&sv, i + 11);
            let k = trim_start_index(&tail);
            let rest = skip_chars(&tail, k);
            assert(rest@ == trim_start_seq(st@.skip(i + 11)));
            let end = char_pos_exec(&rest, ';');
            let piece = slice_chars(&rest, 0, end);
            assert(piece@ =~= rest@.take(end as int));
            let r = string_from(&trim_chars(&piece));
            assert(r@ == trim_seq(rest@.take(char_pos(rest@, ';') as int)));
            Some(r)
        },
        None => None,
    }
}

/// The colour of a stop (computed).
fn stop_color_exec(stop: &Element) -> (r: String)
    ensures
        r@ == stop_color(elem_model(*stop)),
{
    match stop.attributes.get("stop-color") {
        Some(c) => c.clone(),
        None => match stop.attributes.get("style") {
            Some(st) => match style_stop_color_exec(st.as_str()) {
                Some(c) => c,
                None => owned("black"),
            },
            None => owned("black"),
        },
    }
}

/// Facts about the stops of a prefix.
proof fn lemma_stops_prefix(s: Seq<NodeM>, i: int)
    requires
        0 <= i < s.len(),
    ensures
        stops_of(s.take(i + 1)) == stops_of(s.take(i)) + if is_stop(s[i]) {
            seq![s[i]]
        } else {
            seq![]
        },
{
    assert(s.take(i + 1).drop_last() =~= s.take(i));
}

/// The number of `<stop>` children of `e` and the first of them.
fn stop_children(e: &Element) -> (r: (usize, usize))
    ensures
        r.0 == stops_of(elem_model(*e).children).len(),
        r.0 > 0 ==> r.1 < e.children@.len() && stops_of(elem_model(*e).children)[0] == node_model(
            e.children@[r.1 as int],
        ),
{
    let ghost s = elem_model(*e).children;
    proof {
        crate::ast::lemma_children_model(*e);
    }
    let n = e.children.len();
    let mut count: usize = 0;
    let mut first: usize = 0;
    let mut i: usize = 0;
    assert(s.take(0) =~= Seq::<NodeM>::empty());
    while i < n
        invariant
            n == e.children@.len(),
            s == nodes_model(e.children@),
            0 <= i <= n,
            count <= i,
            count == stops_of(s.take(i as int)).len(),
            count > 0 ==> first < i && stops_of(s.take(i as int))[0] == node_model(
                e.children@[first as int],
            ),
        decreases n - i,
    {
        proof {
            lemma_stops_prefix(s, i as int);
        }
        assert(s[i as int] == node_model(e.children@[i as int]));
        let st = match &e.children[i] {
            Node::Element(c) => c.is_named("stop"),
            _ => false,
        };
        if st {
            if count == 0 {
                first = i;
            }
            count += 1;
        }
        i += 1;
    }
    assert(s.take(n as int) =~= s);
    (count, first)
}

/// Appends the one-stop gradients of `e`'s tree, in document order.
fn find_gradients(e: &Element, out: &mut Vec<(String, String)>)
    ensures
        pairs_view(final(out)@) == pairs_view(old(out)@) + found(elem_model(*e)),
    decreases e,
{
    let ghost m = elem_model(*e);
    let ghost o0 = pairs_view(out@);
    let is_grad = e.is_named("linearGradient") || e.is_named("radialGradient");
    let mut skip = false;
    if is_grad {
        match e.attributes.get("id") {
            Some(id) => {
                let (count, first) = stop_children(e);
                let has_href = e.attributes.contains_key("xlink:href") || e.attributes.contains_key(
                    "href",
                );
                if count == 0 && has_href {
                    skip = true;
                }
                if count == 1 {
                    let color = match &e.children[first] {
                        Node::Element(stop) => stop_color_exec(stop),
                        _ => owned("black"),
                    };
                    let ghost before = out@;
                    out.push((id.clone(), color));
                    assert(pairs_view(out@) =~= pairs_view(before) + own_found(m));
                } else {
                    assert(pairs_view(out@) =~= o0 + own_found(m));
                }
            },
            None => {
                assert(pairs_view(out@) =~= o0 + own_found(m));
            },
        }
    } else {
        assert(pairs_view(out@) =~= o0 + own_found(m));
    }
    assert(skip == skips(m));
    let ghost o1 = pairs_view(out@);
    if skip {
        assert(pairs_view(out@) =~= o0 + found(m));
        return;
    }
    proof {
        crate::ast::lemma_children_model(*e);
    }
    let n = e.children.len();
    let mut i: usize = 0;
    assert(o1 =~= o1 + found_kids(m, 0));
    while i < n
        invariant
            n == m.children.len(),
            n == e.children@.len(),
            m == elem_model(*e),
            0 <= i <= n,
            pairs_view(out@) == o1 + found_kids(m, i as nat),
        decreases n - i,
    {
        assert(m.children[i as int] == node_model(e.children@[i as int]));
        let ghost before = pairs_view(out@);
        match &e.children[i] {
            Node::Element(c) => {
                find_gradients(c, out);
            },
            _ => {},
        }
        assert(found_kids(m, (i + 1) as nat) == found_kids(m, i as nat) + found_node(
            m.children[i as int],
        ));
        assert(pairs_view(out@) =~= o1 + found_kids(m, (i + 1) as nat));
        i += 1;
    }
    assert(pairs_view(out@) =~= o0 + found(m));
}

/// The attributes that may hold a colour.
pub open spec fn color_props() -> Seq<&'static str> {
    seq!["color", "fill", "flood-color", "lighting-color", "stop-color", "stroke"]
}

/// The attributes whose gradient references are replaced by the gradient's single color
/// are exactly those named in this statement.
pub proof fn lemma_color_props_members(n: Seq<char>)
    ensures
        in_table(color_props(), n) <==> (n == "color"@
            || n == "fill"@
            || n == "flood-color"@
            || n == "lighting-color"@
            || n == "stop-color"@
            || n == "stroke"@),
{
    if n == "color"@ {
        assert(color_props()[0]@ == n);
    }
    if n == "fill"@ {
        assert(color_props()[1]@ == n);
    }
    if n == "flood-color"@ {
        assert(color_props()[2]@ == n);
    }
    if n == "lighting-color"@ {
        assert(color_props()[3]@ == n);
    }
    if n == "stop-color"@ {
        assert(color_props()[4]@ == n);
    }
    if n == "stroke"@ {
        assert(color_props()[5]@ == n);
    }
    if in_table(color_props(), n) {
        let k = choose|k: int| 0 <= k < color_props().len() && #[trigger] color_props()[k]@ == n;
        if k == 0 {
            assert(n == "color"@);
        }
        if k == 1 {
            assert(n == "fill"@);
        }
        if k == 2 {
            assert(n == "flood-color"@);
        }
        if k == 3 {
            assert(n == "lighting-color"@);
        }
        if k == 4 {
            assert(n == "stop-color"@);
        }
        if k == 5 {
            assert(n == "stroke"@);
        }
    }
}

/// The colour attributes (computed).
fn color_prop_names() -> (v: Vec<&'static str>)
    ensures
        v@ == color_props(),
{
    vec!["color", "fill", "flood-color", "lighting-color", "stop-color", "stroke"]
}

/// The id a value `url(#id)` refers to.
pub open spec fn gradient_ref(v: Seq<char>) -> Option<Seq<char>> {
    if starts_with_seq(v, "url(#"@) && ends_with_seq(v, ")"@) {
        Some(v.subrange(5, v.len() - 1))
    } else {
        None
    }
}

/// A colour attribute that refers to a removed gradient set to that gradient's colour.
pub open spec fn replace_prop(map: AttrsM, a: AttrsM, prop: Seq<char>) -> AttrsM {
    match attr_get(a, prop) {
        Some(v) => match gradient_ref(v) {
            Some(id) => match attr_get(map, id) {
                Some(c) => attr_set(a, prop, c),
                None => a,
            },
            None => a,
        },
        None => a,
    }
}

/// The given colour attributes replaced in turn.
pub open spec fn replace_props(map: AttrsM, a: AttrsM, props: Seq<&'static str>) -> AttrsM
    decreases props.len(),
{
    if props.len() == 0 {
        a
    } else {
        replace_prop(map, replace_props(map, a, props.drop_last()), props.last()@)
    }
}

/// The reference `url(#id)`.
pub open spec fn url_of(id: Seq<char>) -> Seq<char> {
    "url(#"@ + id + ")"@
}

/// A `style` value with every `url(#id)` of a removed gradient replaced by its colour,
/// gradient by gradient in the order they were found.
pub open spec fn style_replaced(map: AttrsM, st: Seq<char>) -> Seq<char>
    decreases map.len(),
{
    if map.len() == 0 {
        st
    } else {
        replace_all(style_replaced(map.drop_last(), st), url_of(map.last().0), map.last().1)
    }
}

/// The attributes of an element with the references to removed gradients replaced.
pub open spec fn refs_attrs(map: AttrsM, a: AttrsM) -> AttrsM {
    let a1 = replace_props(map, a, color_props());
    match attr_get(a1, "style"@) {
        Some(st) => if style_replaced(map, st) != st {
            attr_set(a1, "style"@, style_replaced(map, st))
        } else {
            a1
        },
        None => a1,
    }
}

/// The tree with the references to removed gradients replaced in every element.
pub open spec fn refs_tree(map: AttrsM, m: ElemM) -> ElemM
    decreases m,
{
    ElemM {
        name: m.name,
        attrs: refs_attrs(map, m.attrs),
        namespaces: m.namespaces,
        children: Seq::new(
            m.children.len(),
            |i: int|
                if 0 <= i < m.children.len() {
                    refs_node(map, m.children[i])
                } else {
                    m.children[i]
                },
        ),
    }
}

/// A node with the references replaced.
pub open spec fn refs_node(map: AttrsM, n: NodeM) -> NodeM
    decreases n,
{
    match n {
        NodeM::Element(c) => NodeM::Element(refs_tree(map, c)),
        _ => n,
    }
}

/// Whether a child is a removed gradient: a gradient whose `id` is in the map.
pub open spec fn removed_gradient(map: AttrsM, n: NodeM) -> bool {
    n is Element && is_gradient_name(elem_of(n).name) && match attr_get(elem_of(n).attrs, "id"@) {
        Some(id) => has_key(map, id),
        None => false,
    }
}

/// The tree without the removed gradients (each element's children are filtered before
/// the kept ones are visited).
pub open spec fn grads_tree(map: AttrsM, m: ElemM) -> ElemM
    decreases m, 2int, 0nat,
{
    ElemM {
        name: m.name,
        attrs: m.attrs,
        namespaces: m.namespaces,
        children: grads_kids(map, m, m.children.len()),
    }
}

/// The first `k` children of `m` without the removed gradients, the others handled.
pub open spec fn grads_kids(map: AttrsM, m: ElemM, k: nat) -> Seq<NodeM>
    decreases m, 1int, k,
{
    if k == 0 || k > m.children.len() {
        seq![]
    } else {
        grads_kids(map, m, (k - 1) as nat) + if removed_gradient(map, m.children[k - 1]) {
            seq![]
        } else {
            seq![grads_node(map, m.children[k - 1])]
        }
    }
}

/// A node without the removed gradients below it.
pub open spec fn grads_node(map: AttrsM, n: NodeM) -> NodeM
    decreases n, 0int, 0nat,
{
    match n {
        NodeM::Element(c) => NodeM::Element(grads_tree(map, c)),
        _ => n,
    }
}

/// Whether a child is a `<defs>` element without children.
pub open spec fn is_empty_defs(n: NodeM) -> bool {
    n is Element && elem_of(n).name == "defs"@ && elem_of(n).children.len() == 0
}

/// The tree without the `<defs>` elements that are empty when their parent is visited.
pub open spec fn defs_tree(m: ElemM) -> ElemM
    decreases m, 2int, 0nat,
{
    ElemM {
        name: m.name,
        attrs: m.attrs,
        namespaces: m.namespaces,
        children: defs_kids(m, m.children.len()),
    }
}

/// The first `k` children of `m` without empty `<defs>`, the others handled.
pub open spec fn defs_kids(m: ElemM, k: nat) -> Seq<NodeM>
    decreases m, 1int, k,
{
    if k == 0 || k > m.children.len() {
        seq![]
    } else {
        defs_kids(m, (k - 1) as nat) + if is_empty_defs(m.children[k - 1]) {
            seq![]
        } else {
            seq![defs_node(m.children[k - 1])]
        }
    }
}

/// A node without the empty `<defs>` below it.
pub open spec fn defs_node(n: NodeM) -> NodeM
    decreases n, 0int, 0nat,
{
    match n {
        NodeM::Element(c) => NodeM::Element(defs_tree(c)),
        _ => n,
    }
}

/// Whether some element of the tree has an `xlink:href` attribute.
pub open spec fn xlink_in(m: ElemM) -> bool
    decreases m, 2int, 0nat,
{
    has_key(m.attrs, "xlink:href"@) || xlink_kids(m, m.children.len())
}

/// Whether some element in the first `k` children of `m` has `xlink:href`.
pub open spec fn xlink_kids(m: ElemM, k: nat) -> bool
    decreases m, 1int, k,
{
    if k == 0 || k > m.children.len() {
        false
    } else {
        xlink_kids(m, (k - 1) as nat) || xlink_node(m.children[k - 1])
    }
}

/// Whether some element in a node has `xlink:href`.
pub open spec fn xlink_node(n: NodeM) -> bool
    decreases n, 0int, 0nat,
{
    match n {
        NodeM::Element(c) => xlink_in(c),
        _ => false,
    }
}

/// The root after the plugin: when one-stop gradients were found, their references
/// replaced, the gradients removed, empty `<defs>` removed, and, when no `xlink:href`
/// is left, the `xlink` namespace and its `xmlns:xlink` declaration removed.
pub open spec fn one_stop_result(root: ElemM) -> ElemM {
    let map = set_all(seq![], found(root));
    if found(root).len() == 0 {
        root
    } else {
        let r = defs_tree(grads_tree(map, refs_tree(map, root)));
        if xlink_in(r) {
            r
        } else {
            ElemM {
                name: r.name,
                attrs: attr_shift_remove(r.attrs, "xmlns:xlink"@),
                namespaces: attr_swap_remove(r.namespaces, "xlink"@),
                children: r.children,
            }
        }
    }
}

/// The id a value `url(#id)` refers to (computed).
fn gradient_ref_exec(v: &str) -> (r: Option<String>)
    ensures
        match r {
            Some(id) => gradient_ref(v@) == Some(id@),
            None => gradient_ref(v@) is None,
        },
{
    if starts_with_str(v, "url(#") && ends_with_str(v, ")") {
        proof {
            reveal_strlit("url(#");
            reveal_strlit(")");
        }
        let c = chars_of(v);
        assert(c@.len() >= 6) by {
            assert(c@.subrange(0, 5) == "url(#"@);
            assert(c@.subrange(0, 5)[4] == '#');
            if c@.len() == 5 {
                assert(c@.subrange(4, 5) == ")"@);
                assert(c@.subrange(4, 5)[0] == ')');
                assert(c@[4] == ')');
            }
        }
        let id = slice_chars(&c, 5, c.len() - 1);
        Some(string_from(&id))
    } else {
        None
    }
}

/// A `style` value with the references replaced (computed).
fn style_replaced_exec(map: &Attributes, st: &str) -> (r: String)
    ensures
        r@ == style_replaced(map@, st@),
{
    let mut cur = chars_of(st);
    let n = map.entries.len();
    let mut i: usize = 0;
    assert(map@.take(0) =~= Seq::<(Seq<char>, Seq<char>)>::empty());
    while i < n
        invariant
            n == map@.len(),
            n == map.entries@.len(),
            0 <= i <= n,
            cur@ == style_replaced(map@.take(i as int), st@),
        decreases n - i,
    {
        assert(map@.take(i + 1).drop_last() =~= map@.take(i as int));
        assert(map@[i as int] == (map.entries@[i as int].0@, map.entries@[i as int].1@));
        let mut pat: Vec<char> = Vec::new();
        extend_str(&mut pat, "url(#");
        extend_str(&mut pat, map.entries[i].0.as_str());
        extend_str(&mut pat, ")");
        proof {
            reveal_strlit(")");
        }
        assert(pat@ =~= url_of(map@[i as int].0));
        let rep = chars_of(map.entries[i].1.as_str());
        cur = replace_all_exec(&cur, &pat, &rep);
        i += 1;
    }
    assert(map@.take(n as int) =~= map@);
    string_from(&cur)
}

/// Replaces the references to removed gradients in the attributes of one element.
fn replace_refs_attrs(map: &Attributes, e: &mut Element)
    ensures
        final(e).name == old(e).name,
        final(e).namespaces == old(e).namespaces,
        final(e).children == old(e).children,
        final(e).attributes@ == refs_attrs(map@, old(e).attributes@),
{
    let ghost a0 = e.attributes@;
    let props = color_prop_names();
    let n = props.len();
    let mut i: usize = 0;
    assert(props@.take(0) =~= Seq::<&'static str>::empty());
    while i < n
        invariant
            n == props@.len(),
            props@ == color_props(),
            0 <= i <= n,
            e.name == old(e).name,
            e.namespaces == old(e).namespaces,
            e.children == old(e).children,
            e.attributes@ == replace_props(map@, a0, props@.take(i as int)),
        decreases n - i,
    {
        assert(props@.take(i + 1).drop_last() =~= props@.take(i as int));
        assert(props@.take(i + 1).last() == props@[i as int]);
        let prop = props[i];
        match e.attributes.get_cloned(prop) {
            Some(v) => match gradient_ref_exec(v.as_str()) {
                Some(id) => match map.get_cloned(id.as_str()) {
                    Some(c) => {
                        e.attributes.insert(owned(prop), c);
                    },
                    None => {},
                },
                None => {},
            },
            None => {},
        }
        i += 1;
    }
    assert(props@.take(n as int) =~= props@);
    match e.attributes.get_cloned("style") {
        Some(st) => {
            let ns = style_replaced_exec(map, st.as_str());
            if !chars_eq(&chars_of(ns.as_str()), &chars_of(st.as_str())) {
                e.attributes.insert(owned("style"), ns);
            }
        },
        None => {},
    }
}

/// Replaces the references to removed gradients in `e` and every element below it.
fn replace_refs_element(map: &Attributes, e: Element) -> (res: Element)
    ensures
        elem_model(res) == refs_tree(map@, elem_model(e)),
    decreases e,
{
    let ghost e0 = e;
    let mut cur = e;
    replace_refs_attrs(map, &mut cur);
    let Element { name, attributes, namespaces, children } = cur;
    let mut children = children;
    let n = children.len();
    let mut i: usize = 0;
    while i < n
        invariant
            e == e0,
            n == children@.len(),
            n == e0.children@.len(),
            0 <= i <= n,
            forall|j: int|
                0 <= j < i ==> node_model(#[trigger] children@[j]) == refs_node(
                    map@,
                    node_model(e0.children@[j]),
                ),
            forall|j: int| i <= j < n ==> children@[j] == e0.children@[j],
        decreases n - i,
    {
        let mut tmp = Node::Text(String::new());
        std::mem::swap(&mut children[i], &mut tmp);
        let next = match tmp {
            Node::Element(c) => {
                proof {
                    assert(decreases_to!(e0 => e0.children));
                    assert(decreases_to!(e0.children => e0.children[i as int]));
                    assert(decreases_to!(e0 => c));
                }
                Node::Element(replace_refs_element(map, c))
            },
            other => other,
        };
        children.set(i, next);
        i += 1;
    }
    let res = Element { name, attributes, namespaces, children };
    assert(elem_model(res).children =~= refs_tree(map@, elem_model(e0)).children);
    res
}

/// Whether a node is a removed gradient (computed).
fn removed_gradient_exec(map: &Attributes, n: &Node) -> (r: bool)
    ensures
        r == removed_gradient(map@, node_model(*n)),
{
    match n {
        Node::Element(c) => {
            if c.is_named("linearGradient") || c.is_named("radialGradient") {
                match c.attributes.get("id") {
                    Some(id) => map.contains_key(id.as_str()),
                    None => false,
                }
            } else {
                false
            }
        },
        _ => false,
    }
}

/// Removes the removed gradients from `e` and the elements below it.
fn drop_gradients_element(map: &Attributes, e: Element) -> (res: Element)
    ensures
        elem_model(res) == grads_tree(map@, elem_model(e)),
    decreases e,
{
    let ghost e0 = e;
    let ghost m0 = elem_model(e);
    let Element { name, attributes, namespaces, children } = e;
    let mut rest = children;
    let mut kept: Vec<Node> = Vec::new();
    let n = rest.len();
    let mut i: usize = 0;
    assert(rest@.skip(0) =~= e0.children@);
    while i < n
        invariant
            e == e0,
            m0 == elem_model(e0),
            n == e0.children@.len(),
            0 <= i <= n,
            rest@ == e0.children@.skip(i as int),
            nodes_model(kept@) == grads_kids(map@, m0, i as nat),
        decreases n - i,
    {
        let ghost r0 = rest@;
        let node = rest.remove(0);
        assert(node == e0.children@[i as int]);
        assert(rest@ =~= e0.children@.skip(i + 1));
        assert(m0.children[i as int] == node_model(node));
        let ghost km = nodes_model(kept@);
        if !removed_gradient_exec(map, &node) {
            let next = match node {
                Node::Element(c) => {
                    proof {
                        assert(decreases_to!(e0 => e0.children));
                        assert(decreases_to!(e0.children => e0.children[i as int]));
                        assert(decreases_to!(e0 => c));
                    }
                    Node::Element(drop_gradients_element(map, c))
                },
                other => other,
            };
            kept.push(next);
            assert(nodes_model(kept@) =~= km + seq![grads_node(map@, m0.children[i as int])]);
        } else {
            assert(km =~= km + Seq::<NodeM>::empty());
        }
        i += 1;
    }
    let res = Element { name, attributes, namespaces, children: kept };
    assert(elem_model(res).children =~= nodes_model(kept@));
    res
}

/// Whether a node is an empty `<defs>` (computed).
fn empty_defs_exec(n: &Node) -> (r: bool)
    ensures
        r == is_empty_defs(node_model(*n)),
{
    match n {
        Node::Element(c) => {
            proof {
                crate::ast::lemma_children_model(*c);
            }
            c.is_named("defs") && c.children.len() == 0
        },
        _ => false,
    }
}

/// Removes the empty `<defs>` from `e` and the elements below it.
fn drop_empty_defs_element(e: Element) -> (res: Element)
    ensures
        elem_model(res) == defs_tree(elem_model(e)),
    decreases e,
{
    let ghost e0 = e;
    let ghost m0 = elem_model(e);
    let Element { name, attributes, namespaces, children } = e;
    let mut rest = children;
    let mut kept: Vec<Node> = Vec::new();
    let n = rest.len();
    let mut i: usize = 0;
    assert(rest@.skip(0) =~= e0.children@);
    while i < n
        invariant
            e == e0,
            m0 == elem_model(e0),
            n == e0.children@.len(),
            0 <= i <= n,
            rest@ == e0.children@.skip(i as int),
            nodes_model(kept@) == defs_kids(m0, i as nat),
        decreases n - i,
    {
        let ghost r0 = rest@;
        let node = rest.remove(0);
        assert(node == e0.children@[i as int]);
        assert(rest@ =~= e0.children@.skip(i + 1));
        assert(m0.children[i as int] == node_model(node));
        let ghost km = nodes_model(kept@);
        if !empty_defs_exec(&node) {
            let next = match node {
                Node::Element(c) => {
                    proof {
                        assert(decreases_to!(e0 => e0.children));
                        assert(decreases_to!(e0.children => e0.children[i as int]));
                        assert(decreases_to!(e0 => c));
                    }
                    Node::Element(drop_empty_defs_element(c))
                },
                other => other,
            };
            kept.push(next);
            assert(nodes_model(kept@) =~= km + seq![defs_node(m0.children[i as int])]);
        } else {
            assert(km =~= km + Seq::<NodeM>::empty());
        }
        i += 1;
    }
    let res = Element { name, attributes, namespaces, children: kept };
    assert(elem_model(res).children =~= nodes_model(kept@));
    res
}

/// Once some element of the first `k` children has `xlink:href`, so does one of the
/// first `l` for `l` at least `k`.
proof fn lemma_xlink_kids_mono(m: ElemM, k: nat, l: nat)
    requires
        k <= l <= m.children.len(),
        xlink_kids(m, k),
    ensures
        xlink_kids(m, l),
    decreases l,
{
    if l > k {
        lemma_xlink_kids_mono(m, k, (l - 1) as nat);
    }
}

/// Whether some element of `e`'s tree has `xlink:href`.
fn has_xlink(e: &Element) -> (r: bool)
    ensures
        r == xlink_in(elem_model(*e)),
    decreases e,
{
    let ghost m = elem_model(*e);
    if e.attributes.contains_key("xlink:href") {
        return true;
    }
    proof {
        crate::ast::lemma_children_model(*e);
    }
    let n = e.children.len();
    let mut i: usize = 0;
    while i < n
        invariant
            n == m.children.len(),
            n == e.children@.len(),
            m == elem_model(*e),
            !has_key(m.attrs, "xlink:href"@),
            0 <= i <= n,
            !xlink_kids(m, i as nat),
        decreases n - i,
    {
        assert(m.children[i as int] == node_model(e.children@[i as int]));
        let found = match &e.children[i] {
            Node::Element(c) => has_xlink(c),
            _ => false,
        };
        assert(xlink_kids(m, (i + 1) as nat) == (xlink_kids(m, i as nat) || xlink_node(
            m.children[i as int],
        )));
        if found {
            proof {
                lemma_xlink_kids_mono(m, (i + 1) as nat, n as nat);
            }
            return true;
        }
        i += 1;
    }
    false
}

/// The map from the ids of the gradients found to their colours, a later gradient of
/// an id replacing the colour of an earlier one.
fn gradient_map(found_list: &Vec<(String, String)>) -> (map: Attributes)
    ensures
        map@ == set_all(seq![], pairs_view(found_list@)),
{
    let ghost fl = pairs_view(found_list@);
    let mut map = Attributes::new();
    let n = found_list.len();
    let mut i: usize = 0;
    assert(fl.take(0) =~= Seq::<(Seq<char>, Seq<char>)>::empty());
    while i < n
        invariant
            n == found_list@.len(),
            fl == pairs_view(found_list@),
            0 <= i <= n,
            map@ == set_all(seq![], fl.take(i as int)),
        decreases n - i,
    {
        assert(fl.take(i + 1).drop_last() =~= fl.take(i as int));
        let k = found_list[i].0.clone();
        let v = found_list[i].1.clone();
        map.insert(k, v);
        i += 1;
    }
    assert(fl.take(n as int) =~= fl);
    map
}

/// Drops the `xlink` namespace and its declaration when no `xlink:href` is left.
fn drop_unused_xlink(e: Element) -> (r: Element)
    ensures
        elem_model(r) == (if xlink_in(elem_model(e)) {
            elem_model(e)
        } else {
            ElemM {
                name: elem_model(e).name,
                attrs: attr_shift_remove(elem_model(e).attrs, "xmlns:xlink"@),
                namespaces: attr_swap_remove(elem_model(e).namespaces, "xlink"@),
                children: elem_model(e).children,
            }
        }),
{
    let ghost e0 = e;
    let mut e = e;
    if !has_xlink(&e) {
        e.namespaces.swap_remove("xlink");
        e.attributes.shift_remove("xmlns:xlink");
    }
    assert(elem_model(e).children =~= elem_model(e0).children);
    e
}

impl ConvertOneStopGradientsPlugin {
    /// The plugin.
    pub fn new() -> (r: Self) {
        ConvertOneStopGradientsPlugin { config: ConvertOneStopGradientsConfig::default() }
    }

    /// The plugin with the given settings.
    pub fn with_config(config: ConvertOneStopGradientsConfig) -> (r: Self)
        ensures
            r.config == config,
    {
        ConvertOneStopGradientsPlugin { config }
    }

    /// The plugin's name.
    pub fn name(&self) -> (r: &'static str)
        ensures
            r@ == "convertOneStopGradients"@,
    {
        "convertOneStopGradients"
    }

    /// What the plugin does.
    pub fn description(&self) -> (r: &'static str)
        ensures
            r@ == "converts one-stop (single color) gradients to a plain color"@,
    {
        "converts one-stop (single color) gradients to a plain color"
    }

    /// The id a value `url(#id)` refers to, if it has that form.
    pub fn extract_gradient_id(&self, value: &str) -> (r: Option<String>)
        ensures
            match r {
                Some(id) => gradient_ref(value@) == Some(id@),
                None => gradient_ref(value@) is None,
            },
    {
        gradient_ref_exec(value)
    }

    /// Turns the one-stop gradients of the document into plain colours.
    pub fn apply(&self, document: &mut Document) -> (r: Result<(), PluginError>)
        ensures
            r is Ok,
            doc_model(*final(document)) == doc_with_root(
                doc_model(*old(document)),
                one_stop_result(doc_model(*old(document)).root),
            ),
    {
        let ghost m0 = doc_model(*document).root;
        let mut found_list: Vec<(String, String)> = Vec::new();
        assert(pairs_view(found_list@) =~= seq![]);
        find_gradients(&document.root, &mut found_list);
        assert(pairs_view(found_list@) =~= found(m0));
        if found_list.len() == 0 {
            return Ok(());
        }
        let map = gradient_map(&found_list);
        let root = take_root(document);
        let r1 = replace_refs_element(&map, root);
        let r2 = drop_gradients_element(&map, r1);
        let r3 = drop_unused_xlink(drop_empty_defs_element(r2));
        document.root = r3;
        Ok(())
    }
}


} // verus!
