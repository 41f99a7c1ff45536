//! Removes `width` and `height` from `<svg>` elements that have (or can be given) a
//! `viewBox`.
use vstd::prelude::*;
use crate::ast::{
    attr_get, attr_set, attr_shift_remove, doc_model, doc_with_root, elem_model, has_key,
    node_elems, node_model, tree_elems, AttrsM, Document, ElemM, Element, Node, PluginError,
};
use crate::text::{chars_eq, chars_of, owned};
use crate::walk::{rewrite_document, rewrite_tree, ElementRewrite};

verus! {

broadcast use vstd::string::group_string_axioms;

/// Settings of the plugin (there are none).
pub struct RemoveDimensionsConfig {}

impl Default for RemoveDimensionsConfig {
    fn default() -> (r: Self) {
        RemoveDimensionsConfig {  }
    }
}

/// Plugin that removes dimensions in favour of a `viewBox`.
pub struct RemoveDimensionsPlugin {
    pub config: RemoveDimensionsConfig,
}

/// The `viewBox` values for pairs of `width` and `height` texts: an entry
/// `(w, h, v)` says that `w` and `h` read as numbers give the `viewBox` `v`; a pair
/// without an entry does not read as two numbers.
pub struct ViewBoxTable {
    pub entries: Vec<(String, String, String)>,
}

/// Model of the table's entries.
pub open spec fn table_model(t: ViewBoxTable) -> Seq<(Seq<char>, Seq<char>, Seq<char>)> {
    t.entries@.map_values(|e: (String, String, String)| (e.0@, e.1@, e.2@))
}

/// The `viewBox` of the first entry for a pair, if any.
pub open spec fn viewbox_lookup(t: Seq<(Seq<char>, Seq<char>, Seq<char>)>, w: Seq<char>, h: Seq<char>) -> Option<
    Seq<char>,
>
    decreases t.len(),
{
    if t.len() == 0 {
        None
    } else if t[0].0 == w && t[0].1 == h {
        Some(t[0].2)
    } else {
        viewbox_lookup(t.drop_first(), w, h)
    }
}

/// Whether an element is an `<svg>` without `viewBox` with both a `width` and a
/// `height`.
pub open spec fn needs_viewbox(m: ElemM) -> bool {
    m.name == "svg"@ && !has_key(m.attrs, "viewBox"@) && has_key(m.attrs, "width"@) && has_key(
        m.attrs,
        "height"@,
    )
}

/// The attributes without `width` and `height`.
pub open spec fn without_dims(a: AttrsM) -> AttrsM {
    attr_shift_remove(attr_shift_remove(a, "width"@), "height"@)
}

/// The attributes of an element after the plugin: an `<svg>` with a `viewBox` loses
/// its `width` and `height`; one without gets the `viewBox` the table gives for its
/// `width` and `height`, and loses them, when there is one; anything else stays.
pub open spec fn dims_attrs(t: Seq<(Seq<char>, Seq<char>, Seq<char>)>, m: ElemM) -> AttrsM {
    if m.name != "svg"@ {
        m.attrs
    } else if has_key(m.attrs, "viewBox"@) {
        without_dims(m.attrs)
    } else if needs_viewbox(m) {
        match viewbox_lookup(
            t,
            attr_get(m.attrs, "width"@).unwrap(),
            attr_get(m.attrs, "height"@).unwrap(),
        ) {
            Some(v) => without_dims(attr_set(m.attrs, "viewBox"@, v)),
            None => m.attrs,
        }
    } else {
        m.attrs
    }
}

/// The `width` and `height` of the given elements that need a `viewBox`, in order.
pub open spec fn dim_pairs(s: Seq<ElemM>) -> Seq<(Seq<char>, Seq<char>)>
    decreases s.len(),
{
    if s.len() == 0 {
        seq![]
    } else {
        dim_pairs(s.drop_last()) + if needs_viewbox(s.last()) {
            seq![
                (
                    attr_get(s.last().attrs, "width"@).unwrap(),
                    attr_get(s.last().attrs, "height"@).unwrap(),
                ),
            ]
        } else {
            seq![]
        }
    }
}

/// `dim_pairs` over two lists joined.
proof fn lemma_dim_pairs_append(a: Seq<ElemM>, b: Seq<ElemM>)
    ensures
        dim_pairs(a + b) == dim_pairs(a) + dim_pairs(b),
    decreases b.len(),
{
    if b.len() == 0 {
        assert(a + b =~= a);
        assert(dim_pairs(a) + dim_pairs(b) =~= dim_pairs(a));
    } else {
        lemma_dim_pairs_append(a, b.drop_last());
        assert((a + b).drop_last() =~= a + b.drop_last());
    }
}

/// The first entry for a pair (computed).
fn viewbox_lookup_exec(t: &ViewBoxTable, w: &str, h: &str) -> (r: Option<String>)
    ensures
        match r {
            Some(v) => viewbox_lookup(table_model(*t), w@, h@) == Some(v@),
            None => viewbox_lookup(table_model(*t), w@, h@) is None,
        },
{
    let ghost tm = table_model(*t);
    let n = t.entries.len();
    let mut i: usize = 0;
    assert(tm.skip(0) =~= tm);
    while i < n
        invariant
            n == t.entries@.len(),
            tm == table_model(*t),
            0 <= i <= n,
            viewbox_lookup(tm, w@, h@) == viewbox_lookup(tm.skip(i as int), w@, h@),
        decreases n - i,
    {
        assert(tm.skip(i as int)[0] == tm[i as int]);
        if chars_eq(&chars_of(t.entries[i].0.as_str()), &chars_of(w)) && chars_eq(
            &chars_of(t.entries[i].1.as_str()),
            &chars_of(h),
        ) {
            return Some(t.entries[i].2.clone());
        }
        assert(tm.skip(i as int).drop_first() =~= tm.skip(i + 1));
        i += 1;
    }
    None
}

impl ElementRewrite for ViewBoxTable {
    open spec fn spec_marks(&self, m: ElemM) -> bool {
        false
    }

    open spec fn spec_name(&self, m: ElemM, inside: bool) -> Seq<char> {
        m.name
    }

    open spec fn spec_attrs(&self, m: ElemM, inside: bool) -> AttrsM {
        dims_attrs(table_model(*self), m)
    }

    fn marks(&self, e: &Element) -> (b: bool) {
        false
    }

    fn rewrite(&self, e: &mut Element, inside: bool) {
        if !e.is_named("svg") {
            return ;
        }
        if e.has_attr("viewBox") {
            e.remove_attr("width");
            e.remove_attr("height");
            return ;
        }
        match (e.attr("width"), e.attr("height")) {
            (Some(w), Some(h)) => match viewbox_lookup_exec(self, w.as_str(), h.as_str()) {
                Some(v) => {
                    e.set_attr("viewBox", v.as_str());
                    e.remove_attr("width");
                    e.remove_attr("height");
                },
                None => {},
            },
            _ => {},
        }
    }
}

/// Appends the `width` and `height` of the elements of `e`'s tree that need a
/// `viewBox`, in document order.
fn collect_pairs(e: &Element, out: &mut Vec<(String, String)>)
    ensures
        final(out)@.map_values(|p: (String, String)| (p.0@, p.1@)) == old(out)@.map_values(
            |p: (String, String)| (p.0@, p.1@),
        ) + dim_pairs(tree_elems(elem_model(*e))),
    decreases e,
{
    let ghost m = elem_model(*e);
    let ghost o0 = out@.map_values(|p: (String, String)| (p.0@, p.1@));
    let need = e.is_named("svg") && !e.has_attr("viewBox") && e.has_attr("width") && e.has_attr(
        "height",
    );
    let ghost own = if needs_viewbox(m) {
        seq![(attr_get(m.attrs, "width"@).unwrap(), attr_get(m.attrs, "height"@).unwrap())]
    } else {
        Seq::<(Seq<char>, Seq<char>)>::empty()
    };
    if need {
        match (e.attr("width"), e.attr("height")) {
            (Some(w), Some(h)) => {
                out.push((w, h));
            },
            _ => {},
        }
    }
    assert(out@.map_values(|p: (String, String)| (p.0@, p.1@)) =~= o0 + own);
    let ghost s1 = out@.map_values(|p: (String, String)| (p.0@, p.1@));
    let ghost parts = Seq::new(m.children.len(), |j: int| node_elems(m.children[j]));
    let n = e.children.len();
    let mut i: usize = 0;
    proof {
        crate::ast::lemma_children_model(*e);
    }
    assert(parts.take(0).flatten() =~= Seq::<ElemM>::empty());
    assert(s1 =~= s1 + dim_pairs(Seq::<ElemM>::empty()));
    while i < n
        invariant
            n == m.children.len(),
            n == e.children@.len(),
            m == elem_model(*e),
            parts == Seq::new(m.children.len(), |j: int| node_elems(m.children[j])),
            0 <= i <= n,
            out@.map_values(|p: (String, String)| (p.0@, p.1@)) == s1 + dim_pairs(
                parts.take(i as int).flatten(),
            ),
        decreases n - i,
    {
        proof {
            assert(parts.take(i + 1) =~= parts.take(i as int).push(parts[i as int]));
            parts.take(i as int).lemma_flatten_push(parts[i as int]);
            lemma_dim_pairs_append(parts.take(i as int).flatten(), parts[i as int]);
            assert(m.children[i as int] == node_model(e.children@[i as int]));
        }
        match &e.children[i] {
            Node::Element(c) => {
                collect_pairs(c, out);
            },
            _ => {
                assert(parts[i as int] =~= Seq::<ElemM>::empty());
                assert(parts.take(i as int).flatten() + parts[i as int] =~= parts.take(
                    i as int,
                ).flatten());
            },
        }
        i += 1;
    }
    proof {
        assert(parts.take(n as int) =~= parts);
        assert(crate::ast::children_elems(m) =~= parts);
        assert(tree_elems(m) == seq![m] + parts.flatten());
        lemma_dim_pairs_append(seq![m], parts.flatten());
        assert(seq![m].drop_last() =~= Seq::<ElemM>::empty());
        assert(dim_pairs(seq![m]) =~= own);
    }
}

impl RemoveDimensionsPlugin {
    /// The plugin.
    pub fn new() -> (r: Self) {
        RemoveDimensionsPlugin { config: RemoveDimensionsConfig::default() }
    }

    /// The plugin with the given settings.
    pub fn with_config(config: RemoveDimensionsConfig) -> (r: Self)
        ensures
            r.config == config,
    {
        RemoveDimensionsPlugin { config }
    }

    /// The plugin's name.
    pub fn name(&self) -> (r: &'static str)
        ensures
            r@ == "removeDimensions"@,
    {
        "removeDimensions"
    }

    /// What the plugin does.
    pub fn description(&self) -> (r: &'static str)
        ensures
            r@ == "removes width and height in presence of viewBox (opposite to removeViewBox)"@,
    {
        "removes width and height in presence of viewBox (opposite to removeViewBox)"
    }

    /// The `width` and `height` texts of the `<svg>` elements that need a `viewBox`
    /// worked out from them, in document order.
    pub fn dimension_pairs(&self, document: &Document) -> (r: Vec<(String, String)>)
        ensures
            r@.map_values(|p: (String, String)| (p.0@, p.1@)) == dim_pairs(
                tree_elems(doc_model(*document).root),
            ),
    {
        let mut out: Vec<(String, String)> = Vec::new();
        assert(out@.map_values(|p: (String, String)| (p.0@, p.1@)) =~= seq![]);
        collect_pairs(&document.root, &mut out);
        out
    }

    /// Removes the dimensions of every `<svg>` element, with the `viewBox` values the
    /// table gives for those without one.
    pub fn apply(&self, document: &mut Document, viewboxes: &ViewBoxTable) -> (r: Result<
        (),
        PluginError,
    >)
        ensures
            r is Ok,
            doc_model(*final(document)) == doc_with_root(
                doc_model(*old(document)),
                rewrite_tree(*viewboxes, doc_model(*old(document)).root, false),
            ),
    {
        rewrite_document(viewboxes, document);
        Ok(())
    }
}

} // verus!
