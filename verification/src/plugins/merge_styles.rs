//! Merges the `<style>` elements among the children of each element into one,
//! wrapping styles with a `media` attribute in `@media` rules, and drops empty ones.
use vstd::prelude::*;
use crate::ast::{
    attr_get, doc_model, doc_with_root, elem_model, node_model, nodes_model, AttrsM, Document,
    ElemM, Element, Node, NodeM, PluginError,
};
use crate::plugins::move_group_attrs_to_elems::elem_of;
use crate::text::{chars_of, extend_chars, extend_str, str_eq, string_from, trim_chars, trim_seq};
use crate::walk::{post_document, post_tree, PostRewrite};

verus! {

broadcast use vstd::string::group_string_axioms;

/// Settings of the plugin (there are none).
pub struct MergeStylesConfig {}

impl Default for MergeStylesConfig {
    fn default() -> (r: Self) {
        MergeStylesConfig {  }
    }
}

/// Plugin that merges style elements.
pub struct MergeStylesPlugin {
    pub config: MergeStylesConfig,
}

/// Whether a `type` attribute admits CSS: absent, empty or `text/css`.
pub open spec fn css_type(a: AttrsM) -> bool {
    attr_get(a, "type"@) is None || attr_get(a, "type"@).unwrap().len() == 0 || attr_get(
        a,
        "type"@,
    ).unwrap() == "text/css"@
}

/// Whether a node is a `<style>` element with a CSS type.
pub open spec fn is_css_style(n: NodeM) -> bool {
    n is Element && elem_of(n).name == "style"@ && css_type(elem_of(n).attrs)
}

/// The text a node contributes to a style sheet: text and CDATA contents.
pub open spec fn sheet_text(n: NodeM) -> Seq<char> {
    match n {
        NodeM::Text(t) => t,
        NodeM::CData(t) => t,
        _ => seq![],
    }
}

/// The style sheet of the given children: their text and CDATA joined.
pub open spec fn sheet_of(s: Seq<NodeM>) -> Seq<char>
    decreases s.len(),
{
    if s.len() == 0 {
        seq![]
    } else {
        sheet_of(s.drop_last()) + sheet_text(s.last())
    }
}

/// Whether a node is a CSS style whose sheet is not blank.
pub open spec fn is_filled_style(n: NodeM) -> bool {
    is_css_style(n) && trim_seq(sheet_of(elem_of(n).children)).len() > 0
}

/// The filled styles among the nodes, in order.
pub open spec fn filled_styles(s: Seq<NodeM>) -> Seq<NodeM> {
    s.filter(|n: NodeM| is_filled_style(n))
}

/// What one style adds to the merged sheet: its sheet, inside `@media M{...}` when
/// it has a `media` attribute `M`.
pub open spec fn style_piece(e: ElemM) -> Seq<char> {
    if attr_get(e.attrs, "media"@) is Some {
        "@media "@ + attr_get(e.attrs, "media"@).unwrap() + "{"@ + sheet_of(e.children) + "}"@
    } else {
        sheet_of(e.children)
    }
}

/// The merged sheet of the given styles.
pub open spec fn merged_sheet(ss: Seq<NodeM>) -> Seq<char>
    decreases ss.len(),
{
    if ss.len() == 0 {
        seq![]
    } else {
        merged_sheet(ss.drop_last()) + style_piece(elem_of(ss.last()))
    }
}

/// Whether some style has a CDATA child.
pub open spec fn any_cdata(ss: Seq<NodeM>) -> bool {
    exists|k: int, j: int|
        0 <= k < ss.len() && 0 <= j < elem_of(ss[k]).children.len() && #[trigger] elem_of(
            ss[k],
        ).children[j] is CData
}

/// The nodes that are not CSS styles, in order.
pub open spec fn non_styles(s: Seq<NodeM>) -> Seq<NodeM>
    decreases s.len(),
{
    if s.len() == 0 {
        seq![]
    } else if is_css_style(s[0]) {
        non_styles(s.drop_first())
    } else {
        seq![s[0]] + non_styles(s.drop_first())
    }
}

/// The nodes with the first filled style replaced by `m`, and every other CSS style
/// (blank ones before it, any one after it) dropped.
pub open spec fn styles_replaced(s: Seq<NodeM>, m: NodeM) -> Seq<NodeM>
    decreases s.len(),
{
    if s.len() == 0 {
        seq![]
    } else if is_filled_style(s[0]) {
        seq![m] + non_styles(s.drop_first())
    } else if is_css_style(s[0]) {
        styles_replaced(s.drop_first(), m)
    } else {
        seq![s[0]] + styles_replaced(s.drop_first(), m)
    }
}

/// What is left of the nodes once the merged style `m` is placed: only the nodes that
/// are not styles once it has been (`placed`), else as `styles_replaced`.
pub open spec fn styles_rest(s: Seq<NodeM>, m: NodeM, placed: bool) -> Seq<NodeM> {
    if placed {
        non_styles(s)
    } else {
        styles_replaced(s, m)
    }
}

/// The nodes without blank CSS styles.
pub open spec fn without_blank_styles(s: Seq<NodeM>) -> Seq<NodeM> {
    s.filter(|n: NodeM| !(is_css_style(n) && !is_filled_style(n)))
}

/// The merged style element.
pub open spec fn merged_style(ss: Seq<NodeM>) -> NodeM {
    NodeM::Element(
        ElemM {
            name: "style"@,
            attrs: seq![],
            namespaces: seq![],
            children: seq![
                if any_cdata(ss) {
                    NodeM::CData(merged_sheet(ss))
                } else {
                    NodeM::Text(merged_sheet(ss))
                },
            ],
        },
    )
}

/// The children after merging: with two or more filled styles, one style holding the
/// merged sheet of all of them stands where the first filled one stood and every
/// other CSS style goes; otherwise only the blank CSS styles go.
pub open spec fn merged_children(s: Seq<NodeM>) -> Seq<NodeM> {
    let ss = filled_styles(s);
    if ss.len() > 1 {
        styles_replaced(s, merged_style(ss))
    } else {
        without_blank_styles(s)
    }
}

impl MergeStylesPlugin {
    /// The plugin.
    pub fn new() -> (r: Self) {
        MergeStylesPlugin { config: MergeStylesConfig::default() }
    }

    /// The plugin with the given settings.
    pub fn with_config(config: MergeStylesConfig) -> (r: Self)
        ensures
            r.config == config,
    {
        MergeStylesPlugin { config }
    }

    /// The plugin's name.
    pub fn name(&self) -> (r: &'static str)
        ensures
            r@ == "mergeStyles"@,
    {
        "mergeStyles"
    }

    /// What the plugin does.
    pub fn description(&self) -> (r: &'static str)
        ensures
            r@ == "merge multiple style elements into one"@,
    {
        "merge multiple style elements into one"
    }

    /// Whether a style element's `type` admits CSS.
    pub fn is_valid_style_type(element: &Element) -> (r: bool)
        ensures
            r == css_type(element.attributes@),
    {
        match element.attributes.get("type") {
            Some(t) => t.as_str().is_empty() || str_eq(t.as_str(), "text/css"),
            None => true,
        }
    }

    /// The style sheet of an element: its text and CDATA children joined.
    pub fn extract_css_content(element: &Element) -> (r: String)
        ensures
            r@ == sheet_of(elem_model(*element).children),
    {
        proof {
            crate::ast::lemma_children_model(*element);
        }
        let ghost s = elem_model(*element).children;
        let mut out: Vec<char> = Vec::new();
        let n = element.children.len();
        let mut i: usize = 0;
        assert(s.take(0) =~= Seq::<NodeM>::empty());
        while i < n
            invariant
                n == element.children@.len(),
                s == nodes_model(element.children@),
                0 <= i <= n,
                out@ == sheet_of(s.take(i as int)),
            decreases n - i,
        {
            assert(s.take(i + 1).drop_last() =~= s.take(i as int));
            assert(s[i as int] == node_model(element.children@[i as int]));
            match &element.children[i] {
                Node::Text(t) => extend_str(&mut out, t.as_str()),
                Node::CData(t) => extend_str(&mut out, t.as_str()),
                _ => {
                    assert(out@ =~= out@ + Seq::<char>::empty());
                },
            }
            i += 1;
        }
        assert(s.take(n as int) =~= s);
        string_from(&out)
    }

    /// Whether some child is a CDATA section.
    pub fn has_cdata_content(element: &Element) -> (r: bool)
        ensures
            r == exists|j: int|
                0 <= j < elem_model(*element).children.len() && #[trigger] elem_model(
                    *element,
                ).children[j] is CData,
    {
        proof {
            crate::ast::lemma_children_model(*element);
        }
        let ghost s = elem_model(*element).children;
        let n = element.children.len();
        let mut i: usize = 0;
        while i < n
            invariant
                n == element.children@.len(),
                s == nodes_model(element.children@),
                0 <= i <= n,
                forall|j: int| 0 <= j < i ==> !(#[trigger] s[j] is CData),
            decreases n - i,
        {
            assert(s[i as int] == node_model(element.children@[i as int]));
            if let Node::CData(_) = &element.children[i] {
                assert(elem_model(*element).children[i as int] is CData);
                return true;
            }
            i += 1;
        }
        false
    }

    /// Whether a node is a filled CSS style (computed).
    fn filled_style_exec(n: &Node) -> (r: bool)
        ensures
            r == is_filled_style(node_model(*n)),
    {
        match n {
            Node::Element(e) => {
                if e.is_named("style") && Self::is_valid_style_type(e) {
                    let css = Self::extract_css_content(e);
                    trim_chars(&chars_of(css.as_str())).len() > 0
                } else {
                    false
                }
            },
            _ => false,
        }
    }

    /// Whether a node is a CSS style (computed).
    fn css_style_exec(n: &Node) -> (r: bool)
        ensures
            r == is_css_style(node_model(*n)),
    {
        match n {
            Node::Element(e) => e.is_named("style") && Self::is_valid_style_type(e),
            _ => false,
        }
    }

    /// Merges the style elements among the children of `e`.
    pub fn merge_styles_in_element(&self, e: Element) -> (r: Element)
        ensures
            elem_model(r) == (ElemM {
                name: elem_model(e).name,
                attrs: elem_model(e).attrs,
                namespaces: elem_model(e).namespaces,
                children: merged_children(elem_model(e).children),
            }),
    {
        proof {
            crate::ast::lemma_children_model(e);
        }
        let ghost s = elem_model(e).children;
        let Element { name, attributes, namespaces, children } = e;
        let n = children.len();
        let mut count: usize = 0;
        let mut sheet: Vec<char> = Vec::new();
        let mut cdata = false;
        let mut i: usize = 0;
        assert(s.take(0).filter(|n: NodeM| is_filled_style(n)) =~= Seq::<NodeM>::empty());
        while i < n
            invariant
                n == children@.len(),
                s == nodes_model(e.children@),
                children == e.children,
                0 <= i <= n,
                count == filled_styles(s.take(i as int)).len(),
                count <= i,
                sheet@ == merged_sheet(filled_styles(s.take(i as int))),
                cdata == any_cdata(filled_styles(s.take(i as int))),
            decreases n - i,
        {
            let ghost f0 = filled_styles(s.take(i as int));
            proof {
                assert(s.take(i + 1).drop_last() =~= s.take(i as int));
                reveal_with_fuel(Seq::filter, 1);
            }
            assert(s[i as int] == node_model(children@[i as int]));
            if Self::filled_style_exec(&children[i]) {
                assert(filled_styles(s.take(i + 1)) =~= f0.push(s[i as int]));
                match &children[i] {
                    Node::Element(st) => {
                        let piece_has_cdata = Self::has_cdata_content(st);
                        let css = Self::extract_css_content(st);
                        match st.attributes.get("media") {
                            Some(m) => {
                                extend_str(&mut sheet, "@media ");
                                extend_str(&mut sheet, m.as_str());
                                extend_str(&mut sheet, "{");
                                extend_str(&mut sheet, css.as_str());
                                extend_str(&mut sheet, "}");
                            },
                            None => {
                                extend_str(&mut sheet, css.as_str());
                            },
                        }
                        assert(f0.push(s[i as int]).drop_last() =~= f0);
                        assert(elem_of(s[i as int]) == elem_model(*st));
                        assert(sheet@ =~= merged_sheet(f0) + style_piece(elem_of(s[i as int])));
                        assert(sheet@ =~= merged_sheet(filled_styles(s.take(i + 1))));
                        let ghost nf = filled_styles(s.take(i + 1));
                        if piece_has_cdata {
                            proof {
                                let j = choose|j: int|
                                    0 <= j < elem_model(*st).children.len() && #[trigger] elem_model(
                                        *st,
                                    ).children[j] is CData;
                                assert(elem_of(nf[f0.len() as int]).children[j] is CData);
                            }
                            cdata = true;
                        } else if cdata {
                            proof {
                                let (k, j) = choose|k: int, j: int|
                                    0 <= k < f0.len() && 0 <= j < elem_of(f0[k]).children.len()
                                        && #[trigger] elem_of(f0[k]).children[j] is CData;
                                assert(nf[k] == f0[k]);
                                assert(elem_of(nf[k]).children[j] is CData);
                            }
                        } else {
                            assert forall|k: int, j: int|
                                0 <= k < nf.len() && 0 <= j < elem_of(nf[k]).children.len() implies !(
                                #[trigger] elem_of(nf[k]).children[j] is CData) by {
                                if k < f0.len() {
                                    assert(nf[k] == f0[k]);
                                } else {
                                    assert(nf[k] == s[i as int]);
                                    assert(!(elem_model(*st).children[j] is CData));
                                }
                            }
                        }
                    },
                    _ => {},
                }
                count += 1;
            } else {
                assert(filled_styles(s.take(i + 1)) =~= f0);
            }
            i += 1;
        }
        assert(s.take(n as int) =~= s);
        let mut children = children;
        let mut out: Vec<Node> = Vec::new();
        if count > 1 {
            let ghost m = merged_style(filled_styles(s));
            let mut placed = false;
            let mut j: usize = 0;
            assert(s.skip(0) =~= s);
            while j < n
                invariant
                    n == children@.len(),
                    n == s.len(),
                    s == nodes_model(e.children@),
                    forall|t: int| j <= t < n ==> children@[t] == e.children@[t],
                    0 <= j <= n,
                    sheet@ == merged_sheet(filled_styles(s)),
                    cdata == any_cdata(filled_styles(s)),
                    m == merged_style(filled_styles(s)),
                    styles_replaced(s, m) == nodes_model(out@) + styles_rest(
                        s.skip(j as int),
                        m,
                        placed,
                    ),
                decreases n - j,
            {
                assert(s.skip(j as int).drop_first() =~= s.skip(j + 1));
                assert(s.skip(j as int)[0] == s[j as int]);
                assert(s[j as int] == node_model(children@[j as int]));
                let mut tmp = Node::Text(String::new());
                std::mem::swap(&mut children[j], &mut tmp);
                let ghost nm = node_model(tmp);
                let ghost o0 = nodes_model(out@);
                if Self::css_style_exec(&tmp) {
                    if !placed && Self::filled_style_exec(&tmp) {
                        let mut merged = Element::new("style");
                        let text = string_from(&sheet);
                        if cdata {
                            merged.children.push(Node::CData(text));
                        } else {
                            merged.children.push(Node::Text(text));
                        }
                        proof {
                            crate::ast::lemma_children_model(merged);
                        }
                        assert(node_model(Node::Element(merged)) == m) by {
                            assert(elem_model(merged).children =~= m->Element_0.children);
                        }
                        out.push(Node::Element(merged));
                        assert(nodes_model(out@) =~= o0 + seq![m]);
                        placed = true;
                    }
                } else {
                    out.push(tmp);
                    assert(nodes_model(out@) =~= o0 + seq![nm]);
                }
                j += 1;
            }
            assert(s.skip(n as int) =~= Seq::<NodeM>::empty());
            assert(nodes_model(out@) + Seq::<NodeM>::empty() =~= nodes_model(out@));
        } else {
            let mut j: usize = 0;
            assert(s.take(0).filter(|n: NodeM| !(is_css_style(n) && !is_filled_style(n))) =~= Seq::<NodeM>::empty());
            while j < n
                invariant
                    n == children@.len(),
                    n == s.len(),
                    n == e.children@.len(),
                    s == nodes_model(e.children@),
                    forall|t: int| j <= t < n ==> children@[t] == e.children@[t],
                    0 <= j <= n,
                    nodes_model(out@) == without_blank_styles(s.take(j as int)),
                decreases n - j,
            {
                proof {
                    assert(s.take(j + 1).drop_last() =~= s.take(j as int));
                    reveal_with_fuel(Seq::filter, 1);
                }
                assert(s[j as int] == node_model(children@[j as int]));
                let mut tmp = Node::Text(String::new());
                std::mem::swap(&mut children[j], &mut tmp);
                let ghost nm = node_model(tmp);
                let ghost o0 = nodes_model(out@);
                if !(Self::css_style_exec(&tmp) && !Self::filled_style_exec(&tmp)) {
                    out.push(tmp);
                    assert(nodes_model(out@) =~= o0.push(nm));
                }
                j += 1;
            }
            assert(s.take(n as int) =~= s);
        }
        let r = Element { name, attributes, namespaces, children: out };
        assert(elem_model(r).children =~= nodes_model(out@));
        r
    }

    /// Merges style elements everywhere under the root, except inside `<foreignObject>`.
    pub fn apply(&self, document: &mut Document) -> (r: Result<(), PluginError>)
        ensures
            r is Ok,
            doc_model(*final(document)) == doc_with_root(
                doc_model(*old(document)),
                post_tree(*self, doc_model(*old(document)).root),
            ),
    {
        post_document(self, document);
        Ok(())
    }
}

impl PostRewrite for MergeStylesPlugin {
    open spec fn spec_stops(&self, m: ElemM) -> bool {
        m.name == "foreignObject"@
    }

    fn stops(&self, e: &Element) -> (b: bool) {
        e.is_named("foreignObject")
    }

    open spec fn spec_post(&self, m: ElemM) -> ElemM {
        ElemM {
            name: m.name,
            attrs: m.attrs,
            namespaces: m.namespaces,
            children: merged_children(m.children),
        }
    }

    fn post(&self, e: Element) -> (r: Element) {
        self.merge_styles_in_element(e)
    }
}

} // verus!
