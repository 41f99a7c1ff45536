//! Removes the namespace declarations, attributes and elements that SVG editors
//! (Inkscape, Illustrator, Sketch and others) leave behind.
use vstd::prelude::*;
use crate::ast::{
    doc_model, doc_with_root, elem_model, node_model, nodes_model, take_root, AttrsM, Document,
    ElemM, Element, Node, NodeM, PluginError,
};
use crate::plugins::move_group_attrs_to_elems::elem_of;
use crate::text::{
    char_pos, char_pos_exec, chars_of, in_table, skip_chars, slice_chars, starts_with_seq,
    starts_with_str, str_eq, string_from, strings_have, strings_view, table_has,
};

verus! {

broadcast use vstd::string::group_string_axioms;

/// The namespaces of editors, always removed.
pub open spec fn editor_namespaces() -> Seq<&'static str> {
    seq![
        "http://creativecommons.org/ns#",
        "http://inkscape.sourceforge.net/DTD/sodipodi-0.dtd",
        "http://krita.org/namespaces/svg/krita",
        "http://ns.adobe.com/AdobeIllustrator/10.0/",
        "http://ns.adobe.com/AdobeSVGViewerExtensions/3.0/",
        "http://ns.adobe.com/Extensibility/1.0/",
        "http://ns.adobe.com/Flows/1.0/",
        "http://ns.adobe.com/GenericCustomNamespace/1.0/",
        "http://ns.adobe.com/Graphs/1.0/",
        "http://ns.adobe.com/ImageReplacement/1.0/",
        "http://ns.adobe.com/SaveForWeb/1.0/",
        "http://ns.adobe.com/Variables/1.0/",
        "http://ns.adobe.com/XPath/1.0/",
        "http://purl.org/dc/elements/1.1/",
        "http://schemas.microsoft.com/visio/2003/SVGExtensions/",
        "http://sodipodi.sourceforge.net/DTD/sodipodi-0.dtd",
        "http://taptrix.com/vectorillustrator/svg_extensions",
        "http://www.bohemiancoding.com/sketch/ns",
        "http://www.figma.com/figma/ns",
        "http://www.inkscape.org/namespaces/inkscape",
        "http://www.serif.com/",
        "http://www.vector.evaxdesign.sk",
        "http://www.w3.org/1999/02/22-rdf-syntax-ns#",
        "https://boxy-svg.com",
    ]
}

/// The editor namespaces (computed).
fn editor_namespace_list() -> (v: Vec<&'static str>)
    ensures
        v@ == editor_namespaces(),
{
    vec![
        "http://creativecommons.org/ns#",
        "http://inkscape.sourceforge.net/DTD/sodipodi-0.dtd",
        "http://krita.org/namespaces/svg/krita",
        "http://ns.adobe.com/AdobeIllustrator/10.0/",
        "http://ns.adobe.com/AdobeSVGViewerExtensions/3.0/",
        "http://ns.adobe.com/Extensibility/1.0/",
        "http://ns.adobe.com/Flows/1.0/",
        "http://ns.adobe.com/GenericCustomNamespace/1.0/",
        "http://ns.adobe.com/Graphs/1.0/",
        "http://ns.adobe.com/ImageReplacement/1.0/",
        "http://ns.adobe.com/SaveForWeb/1.0/",
        "http://ns.adobe.com/Variables/1.0/",
        "http://ns.adobe.com/XPath/1.0/",
        "http://purl.org/dc/elements/1.1/",
        "http://schemas.microsoft.com/visio/2003/SVGExtensions/",
        "http://sodipodi.sourceforge.net/DTD/sodipodi-0.dtd",
        "http://taptrix.com/vectorillustrator/svg_extensions",
        "http://www.bohemiancoding.com/sketch/ns",
        "http://www.figma.com/figma/ns",
        "http://www.inkscape.org/namespaces/inkscape",
        "http://www.serif.com/",
        "http://www.vector.evaxdesign.sk",
        "http://www.w3.org/1999/02/22-rdf-syntax-ns#",
        "https://boxy-svg.com",
    ]
}

/// Settings of the plugin.
pub struct RemoveEditorsNSDataConfig {
    /// Namespace URIs to remove besides the editor namespaces.
    pub additional_namespaces: Vec<String>,
}

impl Default for RemoveEditorsNSDataConfig {
    fn default() -> (r: Self)
        ensures
            r.additional_namespaces@.len() == 0,
    {
        RemoveEditorsNSDataConfig { additional_namespaces: Vec::new() }
    }
}

/// Plugin that removes editor namespace data.
pub struct RemoveEditorsNSDataPlugin {
    pub config: RemoveEditorsNSDataConfig,
}

/// Whether a namespace URI is removed: an editor namespace or one of the extra ones.
pub open spec fn ns_removed(extra: Seq<Seq<char>>, uri: Seq<char>) -> bool {
    in_table(editor_namespaces(), uri) || extra.contains(uri)
}

/// Whether an attribute of an `<svg>` element declares a removed namespace, as
/// `xmlns:p` or as the default `xmlns`.
pub open spec fn ns_decl_removed(extra: Seq<Seq<char>>, a: (Seq<char>, Seq<char>)) -> bool {
    (starts_with_seq(a.0, "xmlns:"@) || a.0 == "xmlns"@) && ns_removed(extra, a.1)
}

/// The prefixes that the attributes of an `<svg>` element bind to removed namespaces,
/// in order.
pub open spec fn declared_prefixes(extra: Seq<Seq<char>>, s: AttrsM) -> Seq<Seq<char>>
    decreases s.len(),
{
    if s.len() == 0 {
        seq![]
    } else {
        declared_prefixes(extra, s.drop_last()) + if starts_with_seq(s.last().0, "xmlns:"@)
            && ns_removed(extra, s.last().1) {
            seq![s.last().0.skip(6)]
        } else {
            seq![]
        }
    }
}

/// The attributes without the declarations of removed namespaces.
pub open spec fn without_ns_decls(extra: Seq<Seq<char>>, s: AttrsM) -> AttrsM
    decreases s.len(),
{
    if s.len() == 0 {
        seq![]
    } else {
        without_ns_decls(extra, s.drop_last()) + if ns_decl_removed(extra, s.last()) {
            seq![]
        } else {
            seq![s.last()]
        }
    }
}

/// Whether a name has a prefix (the part before its first `:`) among `prefixes`.
pub open spec fn prefixed_by(prefixes: Seq<Seq<char>>, name: Seq<char>) -> bool {
    char_pos(name, ':') < name.len() && prefixes.contains(name.take(char_pos(name, ':') as int))
}

/// The attributes whose names have no prefix among `prefixes`.
pub open spec fn without_prefixed(prefixes: Seq<Seq<char>>, s: AttrsM) -> AttrsM
    decreases s.len(),
{
    if s.len() == 0 {
        seq![]
    } else {
        without_prefixed(prefixes, s.drop_last()) + if prefixed_by(prefixes, s.last().0) {
            seq![]
        } else {
            seq![s.last()]
        }
    }
}

/// Whether a node is an element whose name has a prefix among `prefixes`.
pub open spec fn editor_element(prefixes: Seq<Seq<char>>, n: NodeM) -> bool {
    n is Element && prefixed_by(prefixes, elem_of(n).name)
}

/// The nodes that are not editor elements.
pub open spec fn without_editor_elements(prefixes: Seq<Seq<char>>, s: Seq<NodeM>) -> Seq<NodeM>
    decreases s.len(),
{
    if s.len() == 0 {
        seq![]
    } else {
        without_editor_elements(prefixes, s.drop_last()) + if editor_element(
            prefixes,
            s.last(),
        ) {
            seq![]
        } else {
            seq![s.last()]
        }
    }
}

/// A tree with the editor data removed, with the prefixes known after it, given those
/// known before it. An element is handled on the way in: an `<svg>` element loses its
/// declarations of removed namespaces and their prefixes become known; then every
/// element loses its attributes with a known prefix. On the way out, the element
/// children whose names have a known prefix go.
pub open spec fn ns_cleaned(extra: Seq<Seq<char>>, m: ElemM, p: Seq<Seq<char>>) -> (
    ElemM,
    Seq<Seq<char>>,
)
    decreases m, 2int, 0nat,
{
    let svg = m.name == "svg"@;
    let p0 = if svg {
        p + declared_prefixes(extra, m.attrs)
    } else {
        p
    };
    let a1 = if svg {
        without_ns_decls(extra, m.attrs)
    } else {
        m.attrs
    };
    let kids = ns_kids(extra, m, p0, m.children.len());
    (
        ElemM {
            name: m.name,
            attrs: without_prefixed(p0, a1),
            namespaces: m.namespaces,
            children: without_editor_elements(kids.1, kids.0),
        },
        kids.1,
    )
}

/// The first `k` children of `m` handled in turn, with the prefixes known after them.
pub open spec fn ns_kids(extra: Seq<Seq<char>>, m: ElemM, p: Seq<Seq<char>>, k: nat) -> (
    Seq<NodeM>,
    Seq<Seq<char>>,
)
    decreases m, 1int, k,
{
    if k == 0 || k > m.children.len() {
        (seq![], p)
    } else {
        let prev = ns_kids(extra, m, p, (k - 1) as nat);
        let r = ns_node(extra, m.children[k - 1], prev.1);
        (prev.0.push(r.0), r.1)
    }
}

/// A node handled, with the prefixes known after it.
pub open spec fn ns_node(extra: Seq<Seq<char>>, n: NodeM, p: Seq<Seq<char>>) -> (
    NodeM,
    Seq<Seq<char>>,
)
    decreases n, 0int, 0nat,
{
    match n {
        NodeM::Element(c) => (NodeM::Element(ns_cleaned(extra, c, p).0), ns_cleaned(extra, c, p).1),
        _ => (n, p),
    }
}

/// Whether a namespace URI is removed (computed).
fn ns_removed_exec(extra: &Vec<String>, uri: &str) -> (r: bool)
    ensures
        r == ns_removed(strings_view(extra@), uri@),
{
    let t = editor_namespace_list();
    table_has(&t, uri) || strings_have(extra, &chars_of(uri))
}

/// Whether a name has a known prefix (computed).
fn prefixed_by_exec(prefixes: &Vec<String>, name: &str) -> (r: bool)
    ensures
        r == prefixed_by(strings_view(prefixes@), name@),
{
    let v = chars_of(name);
    let p = char_pos_exec(&v, ':');
    if p < v.len() {
        let pre = slice_chars(&v, 0, p);
        assert(pre@ =~= v@.take(p as int));
        strings_have(prefixes, &pre)
    } else {
        false
    }
}

/// Handles the attributes of an element on the way in: drops the declarations of
/// removed namespaces from an `<svg>` element and notes their prefixes, then drops
/// the attributes with a known prefix.
fn clean_attributes(extra: &Vec<String>, prefixes: &mut Vec<String>, e: &mut Element)
    ensures
        final(e).name == old(e).name,
        final(e).namespaces == old(e).namespaces,
        final(e).children == old(e).children,
        strings_view(final(prefixes)@) == (if old(e).name@ == "svg"@ {
            strings_view(old(prefixes)@) + declared_prefixes(
                strings_view(extra@),
                old(e).attributes@,
            )
        } else {
            strings_view(old(prefixes)@)
        }),
        final(e).attributes@ == without_prefixed(
            strings_view(final(prefixes)@),
            if old(e).name@ == "svg"@ {
                without_ns_decls(strings_view(extra@), old(e).attributes@)
            } else {
                old(e).attributes@
            },
        ),
{
    let ghost xm = strings_view(extra@);
    let ghost a0 = e.attributes@;
    let ghost p0 = strings_view(prefixes@);
    if e.is_named("svg") {
        let mut kept: Vec<(String, String)> = Vec::new();
        let n = e.attributes.entries.len();
        let mut i: usize = 0;
        assert(a0.take(0) =~= Seq::<(Seq<char>, Seq<char>)>::empty());
        assert(strings_view(prefixes@) =~= p0 + declared_prefixes(xm, a0.take(0)));
        while i < n
            invariant
                n == e.attributes.entries@.len(),
                a0 == e.attributes@,
                xm == strings_view(extra@),
                0 <= i <= n,
                strings_view(prefixes@) == p0 + declared_prefixes(xm, a0.take(i as int)),
                Seq::new(kept@.len(), |j: int| (kept@[j].0@, kept@[j].1@)) == without_ns_decls(
                    xm,
                    a0.take(i as int),
                ),
            decreases n - i,
        {
            assert(a0.take(i + 1).drop_last() =~= a0.take(i as int));
            let ghost ent = a0[i as int];
            assert(ent == (e.attributes.entries@[i as int].0@, e.attributes.entries@[i as int].1@));
            let name = e.attributes.entries[i].0.as_str();
            let value = e.attributes.entries[i].1.as_str();
            let removed = ns_removed_exec(extra, value);
            let is_prefixed = starts_with_str(name, "xmlns:");
            let ghost pv = strings_view(prefixes@);
            if is_prefixed && removed {
                proof {
                    reveal_strlit("xmlns:");
                }
                let nv = chars_of(name);
                let pre = skip_chars(&nv, 6);
                prefixes.push(string_from(&pre));
                assert(strings_view(prefixes@) =~= pv + seq![ent.0.skip(6)]);
            } else {
                assert(strings_view(prefixes@) =~= pv + Seq::<Seq<char>>::empty());
            }
            let drop = removed && (is_prefixed || str_eq(name, "xmlns"));
            let ghost km = Seq::new(kept@.len(), |j: int| (kept@[j].0@, kept@[j].1@));
            if !drop {
                let pair = (e.attributes.entries[i].0.clone(), e.attributes.entries[i].1.clone());
                kept.push(pair);
                assert(Seq::new(kept@.len(), |j: int| (kept@[j].0@, kept@[j].1@)) =~= km + seq![
                    ent,
                ]);
            } else {
                assert(km =~= km + Seq::<(Seq<char>, Seq<char>)>::empty());
            }
            i += 1;
        }
        assert(a0.take(n as int) =~= a0);
        e.attributes.entries = kept;
    } else {
        assert(strings_view(prefixes@) =~= p0);
    }
    let ghost a1 = e.attributes@;
    let ghost pf = strings_view(prefixes@);
    let mut kept2: Vec<(String, String)> = Vec::new();
    let n2 = e.attributes.entries.len();
    let mut k: usize = 0;
    assert(a1.take(0) =~= Seq::<(Seq<char>, Seq<char>)>::empty());
    while k < n2
        invariant
            n2 == e.attributes.entries@.len(),
            a1 == e.attributes@,
            pf == strings_view(prefixes@),
            0 <= k <= n2,
            Seq::new(kept2@.len(), |j: int| (kept2@[j].0@, kept2@[j].1@)) == without_prefixed(
                pf,
                a1.take(k as int),
            ),
        decreases n2 - k,
    {
        assert(a1.take(k + 1).drop_last() =~= a1.take(k as int));
        let ghost ent = a1[k as int];
        let ghost km = Seq::new(kept2@.len(), |j: int| (kept2@[j].0@, kept2@[j].1@));
        if !prefixed_by_exec(prefixes, e.attributes.entries[k].0.as_str()) {
            let pair = (e.attributes.entries[k].0.clone(), e.attributes.entries[k].1.clone());
            kept2.push(pair);
            assert(Seq::new(kept2@.len(), |j: int| (kept2@[j].0@, kept2@[j].1@)) =~= km + seq![
                ent,
            ]);
        } else {
            assert(km =~= km + Seq::<(Seq<char>, Seq<char>)>::empty());
        }
        k += 1;
    }
    assert(a1.take(n2 as int) =~= a1);
    e.attributes.entries = kept2;
}

/// Removes the editor data from `e` and the elements below it, with the prefixes
/// known so far in `prefixes`.
fn clean_element(extra: &Vec<String>, prefixes: &mut Vec<String>, e: Element) -> (res: Element)
    ensures
        (elem_model(res), strings_view(final(prefixes)@)) == ns_cleaned(
            strings_view(extra@),
            elem_model(e),
            strings_view(old(prefixes)@),
        ),
    decreases e,
{
    let ghost e0 = e;
    let ghost m0 = elem_model(e);
    let ghost xm = strings_view(extra@);
    let mut cur = e;
    clean_attributes(extra, prefixes, &mut cur);
    let ghost p0 = strings_view(prefixes@);
    let Element { name, attributes, namespaces, children } = cur;
    let mut children = children;
    let n = children.len();
    let mut j: usize = 0;
    while j < n
        invariant
            e == e0,
            m0 == elem_model(e0),
            xm == strings_view(extra@),
            n == children@.len(),
            n == e0.children@.len(),
            0 <= j <= n,
            ns_kids(xm, m0, p0, j as nat).0.len() == j,
            strings_view(prefixes@) == ns_kids(xm, m0, p0, j as nat).1,
            forall|t: int|
                0 <= t < j ==> node_model(#[trigger] children@[t]) == ns_kids(
                    xm,
                    m0,
                    p0,
                    j as nat,
                ).0[t],
            forall|t: int| j <= t < n ==> children@[t] == e0.children@[t],
        decreases n - j,
    {
        let ghost prev = ns_kids(xm, m0, p0, j as nat);
        assert(m0.children[j as int] == node_model(e0.children@[j as int]));
        let mut tmp = Node::Text(String::new());
        std::mem::swap(&mut children[j], &mut tmp);
        let next = match tmp {
            Node::Element(c) => {
                proof {
                    assert(decreases_to!(e0 => e0.children));
                    assert(decreases_to!(e0.children => e0.children[j as int]));
                    assert(decreases_to!(e0 => c));
                }
                Node::Element(clean_element(extra, prefixes, c))
            },
            other => other,
        };
        children.set(j, next);
        assert(ns_kids(xm, m0, p0, (j + 1) as nat) == (
            prev.0.push(ns_node(xm, m0.children[j as int], prev.1).0),
            ns_node(xm, m0.children[j as int], prev.1).1,
        ));
        j += 1;
    }
    let ghost kids = ns_kids(xm, m0, p0, n as nat);
    let ghost pf = strings_view(prefixes@);
    assert(nodes_model(children@) =~= kids.0);
    let mut kept: Vec<Node> = Vec::new();
    let mut rest = children;
    let mut k: usize = 0;
    assert(kids.0.take(0) =~= Seq::<NodeM>::empty());
    assert(nodes_model(rest@) =~= kids.0.skip(0));
    while k < n
        invariant
            n == kids.0.len(),
            pf == strings_view(prefixes@),
            pf == kids.1,
            0 <= k <= n,
            rest@.len() == n - k,
            nodes_model(rest@) == kids.0.skip(k as int),
            nodes_model(kept@) == without_editor_elements(pf, kids.0.take(k as int)),
        decreases n - k,
    {
        assert(kids.0.take(k + 1).drop_last() =~= kids.0.take(k as int));
        let ghost r0 = rest@;
        let node = rest.remove(0);
        assert(node_model(node) == kids.0[k as int]) by {
            assert(nodes_model(r0)[0] == kids.0.skip(k as int)[0]);
        }
        assert(nodes_model(rest@) =~= nodes_model(r0).drop_first());
        assert(kids.0.skip(k as int).drop_first() =~= kids.0.skip(k + 1));
        let ghost km = nodes_model(kept@);
        let drop = match &node {
            Node::Element(c) => prefixed_by_exec(prefixes, c.name.as_str()),
            _ => false,
        };
        if !drop {
            kept.push(node);
            assert(nodes_model(kept@) =~= km + seq![kids.0[k as int]]);
        } else {
            assert(km =~= km + Seq::<NodeM>::empty());
        }
        k += 1;
    }
    assert(kids.0.take(n as int) =~= kids.0);
    let res = Element { name, attributes, namespaces, children: kept };
    assert(elem_model(res).children =~= nodes_model(kept@));
    res
}

impl RemoveEditorsNSDataPlugin {
    /// The plugin with default settings.
    pub fn new() -> (r: Self)
        ensures
            r.config.additional_namespaces@.len() == 0,
    {
        RemoveEditorsNSDataPlugin { config: RemoveEditorsNSDataConfig::default() }
    }

    /// The plugin with the given settings.
    pub fn with_config(config: RemoveEditorsNSDataConfig) -> (r: Self)
        ensures
            r.config == config,
    {
        RemoveEditorsNSDataPlugin { config }
    }

    /// The plugin's name.
    pub fn name(&self) -> (r: &'static str)
        ensures
            r@ == "removeEditorsNSData"@,
    {
        "removeEditorsNSData"
    }

    /// What the plugin does.
    pub fn description(&self) -> (r: &'static str)
        ensures
            r@ == "Remove editors namespaces, elements and attributes"@,
    {
        "Remove editors namespaces, elements and attributes"
    }

    /// Removes the editor data from the document's root tree.
    pub fn apply(&self, document: &mut Document) -> (r: Result<(), PluginError>)
        ensures
            r is Ok,
            doc_model(*final(document)) == doc_with_root(
                doc_model(*old(document)),
                ns_cleaned(
                    strings_view(self.config.additional_namespaces@),
                    doc_model(*old(document)).root,
                    seq![],
                ).0,
            ),
    {
        let mut prefixes: Vec<String> = Vec::new();
        assert(strings_view(prefixes@) =~= seq![]);
        let root = take_root(document);
        document.root = clean_element(&self.config.additional_namespaces, &mut prefixes, root);
        Ok(())
    }
}


/// The namespaces removed are exactly the editor namespace URIs named in this statement
/// (RDF, Dublin Core, Creative Commons, Inkscape, Sodipodi, the Adobe extensions and the
/// others) and the extra ones configured; a declaration of any of them, as the default
/// namespace or under a prefix, is removed.
pub proof fn lemma_removed_namespaces(extra: Seq<Seq<char>>, uri: Seq<char>, prefix: Seq<char>)
    ensures
        ns_removed(extra, uri) <==> (uri == "http://creativecommons.org/ns#"@ || uri == "http://inkscape.sourceforge.net/DTD/sodipodi-0.dtd"@ || uri == "http://krita.org/namespaces/svg/krita"@ || uri == "http://ns.adobe.com/AdobeIllustrator/10.0/"@ || uri == "http://ns.adobe.com/AdobeSVGViewerExtensions/3.0/"@ || uri == "http://ns.adobe.com/Extensibility/1.0/"@ || uri == "http://ns.adobe.com/Flows/1.0/"@ || uri == "http://ns.adobe.com/GenericCustomNamespace/1.0/"@ || uri == "http://ns.adobe.com/Graphs/1.0/"@ || uri == "http://ns.adobe.com/ImageReplacement/1.0/"@ || uri == "http://ns.adobe.com/SaveForWeb/1.0/"@ || uri == "http://ns.adobe.com/Variables/1.0/"@ || uri == "http://ns.adobe.com/XPath/1.0/"@ || uri == "http://purl.org/dc/elements/1.1/"@ || uri == "http://schemas.microsoft.com/visio/2003/SVGExtensions/"@ || uri == "http://sodipodi.sourceforge.net/DTD/sodipodi-0.dtd"@ || uri == "http://taptrix.com/vectorillustrator/svg_extensions"@ || uri == "http://www.bohemiancoding.com/sketch/ns"@ || uri == "http://www.figma.com/figma/ns"@ || uri == "http://www.inkscape.org/namespaces/inkscape"@ || uri == "http://www.serif.com/"@ || uri == "http://www.vector.evaxdesign.sk"@ || uri == "http://www.w3.org/1999/02/22-rdf-syntax-ns#"@ || uri == "https://boxy-svg.com"@ || extra.contains(uri)),
        ns_removed(extra, uri) ==> ns_decl_removed(extra, ("xmlns"@, uri)) && ns_decl_removed(
            extra,
            ("xmlns:"@ + prefix, uri),
        ),
{
    if uri == "http://creativecommons.org/ns#"@ {
        assert(editor_namespaces()[0]@ == uri);
    }
    if uri == "http://inkscape.sourceforge.net/DTD/sodipodi-0.dtd"@ {
        assert(editor_namespaces()[1]@ == uri);
    }
    if uri == "http://krita.org/namespaces/svg/krita"@ {
        assert(editor_namespaces()[2]@ == uri);
    }
    if uri == "http://ns.adobe.com/AdobeIllustrator/10.0/"@ {
        assert(editor_namespaces()[3]@ == uri);
    }
    if uri == "http://ns.adobe.com/AdobeSVGViewerExtensions/3.0/"@ {
        assert(editor_namespaces()[4]@ == uri);
    }
    if uri == "http://ns.adobe.com/Extensibility/1.0/"@ {
        assert(editor_namespaces()[5]@ == uri);
    }
    if uri == "http://ns.adobe.com/Flows/1.0/"@ {
        assert(editor_namespaces()[6]@ == uri);
    }
    if uri == "http://ns.adobe.com/GenericCustomNamespace/1.0/"@ {
        assert(editor_namespaces()[7]@ == uri);
    }
    if uri == "http://ns.adobe.com/Graphs/1.0/"@ {
        assert(editor_namespaces()[8]@ == uri);
    }
    if uri == "http://ns.adobe.com/ImageReplacement/1.0/"@ {
        assert(editor_namespaces()[9]@ == uri);
    }
    if uri == "http://ns.adobe.com/SaveForWeb/1.0/"@ {
        assert(editor_namespaces()[10]@ == uri);
    }
    if uri == "http://ns.adobe.com/Variables/1.0/"@ {
        assert(editor_namespaces()[11]@ == uri);
    }
    if uri == "http://ns.adobe.com/XPath/1.0/"@ {
        assert(editor_namespaces()[12]@ == uri);
    }
    if uri == "http://purl.org/dc/elements/1.1/"@ {
        assert(editor_namespaces()[13]@ == uri);
    }
    if uri == "http://schemas.microsoft.com/visio/2003/SVGExtensions/"@ {
        assert(editor_namespaces()[14]@ == uri);
    }
    if uri == "http://sodipodi.sourceforge.net/DTD/sodipodi-0.dtd"@ {
        assert(editor_namespaces()[15]@ == uri);
    }
    if uri == "http://taptrix.com/vectorillustrator/svg_extensions"@ {
        assert(editor_namespaces()[16]@ == uri);
    }
    if uri == "http://www.bohemiancoding.com/sketch/ns"@ {
        assert(editor_namespaces()[17]@ == uri);
    }
    if uri == "http://www.figma.com/figma/ns"@ {
        assert(editor_namespaces()[18]@ == uri);
    }
    if uri == "http://www.inkscape.org/namespaces/inkscape"@ {
        assert(editor_namespaces()[19]@ == uri);
    }
    if uri == "http://www.serif.com/"@ {
        assert(editor_namespaces()[20]@ == uri);
    }
    if uri == "http://www.vector.evaxdesign.sk"@ {
        assert(editor_namespaces()[21]@ == uri);
    }
    if uri == "http://www.w3.org/1999/02/22-rdf-syntax-ns#"@ {
        assert(editor_namespaces()[22]@ == uri);
    }
    if uri == "https://boxy-svg.com"@ {
        assert(editor_namespaces()[23]@ == uri);
    }
    if in_table(editor_namespaces(), uri) {
        let k = choose|k: int| 0 <= k < editor_namespaces().len() && #[trigger] editor_namespaces()[k]@ == uri;
        if k == 0 {
            assert(uri == "http://creativecommons.org/ns#"@);
        }
        if k == 1 {
            assert(uri == "http://inkscape.sourceforge.net/DTD/sodipodi-0.dtd"@);
        }
        if k == 2 {
            assert(uri == "http://krita.org/namespaces/svg/krita"@);
        }
        if k == 3 {
            assert(uri == "http://ns.adobe.com/AdobeIllustrator/10.0/"@);
        }
        if k == 4 {
            assert(uri == "http://ns.adobe.com/AdobeSVGViewerExtensions/3.0/"@);
        }
        if k == 5 {
            assert(uri == "http://ns.adobe.com/Extensibility/1.0/"@);
        }
        if k == 6 {
            assert(uri == "http://ns.adobe.com/Flows/1.0/"@);
        }
        if k == 7 {
            assert(uri == "http://ns.adobe.com/GenericCustomNamespace/1.0/"@);
        }
        if k == 8 {
            assert(uri == "http://ns.adobe.com/Graphs/1.0/"@);
        }
        if k == 9 {
            assert(uri == "http://ns.adobe.com/ImageReplacement/1.0/"@);
        }
        if k == 10 {
            assert(uri == "http://ns.adobe.com/SaveForWeb/1.0/"@);
        }
        if k == 11 {
            assert(uri == "http://ns.adobe.com/Variables/1.0/"@);
        }
        if k == 12 {
            assert(uri == "http://ns.adobe.com/XPath/1.0/"@);
        }
        if k == 13 {
            assert(uri == "http://purl.org/dc/elements/1.1/"@);
        }
        if k == 14 {
            assert(uri == "http://schemas.microsoft.com/visio/2003/SVGExtensions/"@);
        }
        if k == 15 {
            assert(uri == "http://sodipodi.sourceforge.net/DTD/sodipodi-0.dtd"@);
        }
        if k == 16 {
            assert(uri == "http://taptrix.com/vectorillustrator/svg_extensions"@);
        }
        if k == 17 {
            assert(uri == "http://www.bohemiancoding.com/sketch/ns"@);
        }
        if k == 18 {
            assert(uri == "http://www.figma.com/figma/ns"@);
        }
        if k == 19 {
            assert(uri == "http://www.inkscape.org/namespaces/inkscape"@);
        }
        if k == 20 {
            assert(uri == "http://www.serif.com/"@);
        }
        if k == 21 {
            assert(uri == "http://www.vector.evaxdesign.sk"@);
        }
        if k == 22 {
            assert(uri == "http://www.w3.org/1999/02/22-rdf-syntax-ns#"@);
        }
        if k == 23 {
            assert(uri == "https://boxy-svg.com"@);
        }
    }
    assert(("xmlns:"@ + prefix).take(6) =~= "xmlns:"@) by {
        reveal_strlit("xmlns:");
    }
    reveal_strlit("xmlns:");
}
} // verus!
