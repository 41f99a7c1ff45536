//! Minifies the style sheets of `<style>` elements and the `style` attributes of
//! elements with lightningcss, and drops the style elements left blank.
use vstd::prelude::*;
use crate::ast::{
    attr_get, attr_set, attr_shift_remove, doc_model, doc_with_root, elem_model, has_key,
    node_elems, node_model, nodes_model, take_root, tree_elems, AttrsM, Document, ElemM,
    Element, Node, NodeM, PluginError,
};
use crate::css::{css_minified, minify_stylesheet};
use crate::plugins::move_group_attrs_to_elems::elem_of;
use crate::text::{
    chars_of, ends_with_seq, ends_with_str, extend_str, in_table, owned, slice_chars,
    split_whitespace, starts_with_seq, starts_with_str, string_from, strings_view, table_has,
    trim_chars, trim_seq, trim_start_index, trim_start_seq, words,
};

verus! {

broadcast use vstd::string::group_string_axioms;

/// Settings of the usage analysis (accepted, not acted on).
pub struct UsageConfig {
    pub force: bool,
    pub ids: bool,
    pub classes: bool,
    pub tags: bool,
}

impl Default for UsageConfig {
    fn default() -> (r: Self)
        ensures
            !r.force && r.ids && r.classes && r.tags,
    {
        UsageConfig { force: false, ids: true, classes: true, tags: true }
    }
}

/// Settings of the plugin (accepted, not acted on).
pub struct MinifyStylesConfig {
    pub restructure: bool,
    pub force_media_merge: bool,
    pub comments: bool,
    pub usage: Option<UsageConfig>,
}

impl Default for MinifyStylesConfig {
    fn default() -> (r: Self)
        ensures
            r.restructure && !r.force_media_merge && !r.comments && r.usage is None,
    {
        MinifyStylesConfig { restructure: true, force_media_merge: false, comments: false, usage: None }
    }
}

/// Plugin that minifies styles.
pub struct MinifyStylesPlugin {
    pub config: MinifyStylesConfig,
}

/// A sheet minified, or the sheet itself when lightningcss refuses it.
pub open spec fn minified_text(css: Seq<char>) -> Seq<char> {
    match css_minified(css) {
        Some(m) => m,
        None => css,
    }
}

/// `s` without its leading `c`s.
pub open spec fn strip_leading(s: Seq<char>, c: char) -> Seq<char>
    decreases s.len(),
{
    if s.len() > 0 && s[0] == c {
        strip_leading(s.drop_first(), c)
    } else {
        s
    }
}

/// `s` without its trailing `c`s.
pub open spec fn strip_trailing(s: Seq<char>, c: char) -> Seq<char>
    decreases s.len(),
{
    if s.len() > 0 && s.last() == c {
        strip_trailing(s.drop_last(), c)
    } else {
        s
    }
}

/// A `style` value minified: wrapped in braces, minified, the braces stripped, trimmed.
pub open spec fn style_attr_min(style: Seq<char>) -> Seq<char> {
    trim_seq(strip_trailing(strip_leading(minified_text("{"@ + style + "}"@), '{'), '}'))
}

/// The attributes of a child element with its `style` minified, or removed when that
/// leaves nothing.
pub open spec fn child_attrs(a: AttrsM) -> AttrsM {
    match attr_get(a, "style"@) {
        Some(st) => if style_attr_min(st).len() > 0 {
            attr_set(a, "style"@, style_attr_min(st))
        } else {
            attr_shift_remove(a, "style"@)
        },
        None => a,
    }
}

/// Whether an element is a `<style>` whose first child is text.
pub open spec fn style_with_text(c: ElemM) -> bool {
    c.name == "style"@ && c.children.len() > 0 && c.children[0] is Text
}

/// The text of the first child.
pub open spec fn first_text(c: ElemM) -> Seq<char> {
    match c.children[0] {
        NodeM::Text(t) => t,
        _ => seq![],
    }
}

/// Whether a style element goes: its minified sheet is blank.
pub open spec fn blank_style(c: ElemM) -> bool {
    style_with_text(c) && trim_seq(minified_text(first_text(c))).len() == 0
}

/// The processed children of a style element with its sheet replaced by the minified one.
pub open spec fn text_fixed(c: ElemM, kids: Seq<NodeM>) -> Seq<NodeM> {
    if style_with_text(c) {
        kids.update(0, NodeM::Text(minified_text(first_text(c))))
    } else {
        kids
    }
}

/// An element below the root after the plugin: its sheet and `style` minified, its
/// children processed.
pub open spec fn min_elem(c: ElemM) -> ElemM
    decreases c, 2int, 0nat,
{
    ElemM {
        name: c.name,
        attrs: child_attrs(c.attrs),
        namespaces: c.namespaces,
        children: text_fixed(c, min_kids(c, c.children.len())),
    }
}

/// The first `k` children of `m` processed, without the blank style elements.
pub open spec fn min_kids(m: ElemM, k: nat) -> Seq<NodeM>
    decreases m, 1int, k,
{
    if k == 0 || k > m.children.len() {
        seq![]
    } else {
        min_kids(m, (k - 1) as nat) + if m.children[k - 1] is Element && blank_style(
            elem_of(m.children[k - 1]),
        ) {
            seq![]
        } else {
            seq![min_node(m.children[k - 1])]
        }
    }
}

/// A node processed.
pub open spec fn min_node(n: NodeM) -> NodeM
    decreases n, 0int, 0nat,
{
    match n {
        NodeM::Element(c) => NodeM::Element(min_elem(c)),
        _ => n,
    }
}

/// The root after the plugin: its own attributes stay, its children are processed.
pub open spec fn minified_root(m: ElemM) -> ElemM {
    ElemM {
        name: m.name,
        attrs: m.attrs,
        namespaces: m.namespaces,
        children: min_kids(m, m.children.len()),
    }
}

/// `min_kids` keeps the non-element children in place: with a text first child, the
/// processed children start with it.
proof fn lemma_min_kids_first(m: ElemM, k: nat)
    requires
        0 < k <= m.children.len(),
        m.children[0] is Text,
    ensures
        min_kids(m, k).len() > 0,
        min_kids(m, k)[0] == m.children[0],
    decreases k,
{
    if k > 1 {
        lemma_min_kids_first(m, (k - 1) as nat);
        let prev = min_kids(m, (k - 1) as nat);
        let x = if m.children[k - 1] is Element && blank_style(elem_of(m.children[k - 1])) {
            Seq::<NodeM>::empty()
        } else {
            seq![min_node(m.children[k - 1])]
        };
        assert(min_kids(m, k) == prev + x);
        assert((prev + x)[0] == prev[0]);
    } else {
        assert(min_kids(m, 0) =~= Seq::<NodeM>::empty());
        assert(min_node(m.children[0]) == m.children[0]);
        assert(min_kids(m, 1) =~= seq![m.children[0]]);
    }
}

/// A sheet minified (computed).
fn minified_text_exec(css: &str) -> (r: String)
    ensures
        r@ == minified_text(css@),
{
    match minify_stylesheet(css) {
        Some(m) => m,
        None => owned(css),
    }
}

/// A `style` value minified (computed).
fn style_attr_min_exec(style: &str) -> (r: String)
    ensures
        r@ == style_attr_min(style@),
{
    let mut w: Vec<char> = Vec::new();
    extend_str(&mut w, "{");
    extend_str(&mut w, style);
    extend_str(&mut w, "}");
    let m = chars_of(minified_text_exec(string_from(&w).as_str()).as_str());
    let n = m.len();
    let mut a: usize = 0;
    assert(m@.skip(0) =~= m@);
    while a < n && m[a] == '{'
        invariant
            n == m@.len(),
            0 <= a <= n,
            strip_leading(m@, '{') == strip_leading(m@.skip(a as int), '{'),
        decreases n - a,
    {
        assert(m@.skip(a as int).drop_first() =~= m@.skip(a + 1));
        a += 1;
    }
    let mut b: usize = n;
    assert(m@.subrange(a as int, n as int) =~= m@.skip(a as int));
    while b > a && m[b - 1] == '}'
        invariant
            n == m@.len(),
            0 <= a <= b <= n,
            strip_trailing(strip_leading(m@, '{'), '}') == strip_trailing(
                m@.subrange(a as int, b as int),
                '}',
            ),
        decreases b - a,
    {
        assert(m@.subrange(a as int, b as int).drop_last() =~= m@.subrange(a as int, b - 1));
        b -= 1;
    }
    if a < n && m[a] == '{' {
    }
    proof {
        if a < n {
            assert(m@.skip(a as int)[0] == m@[a as int]);
        } else {
            assert(m@.skip(a as int) =~= Seq::<char>::empty());
        }
        if b > a {
            assert(m@.subrange(a as int, b as int).last() == m@[b - 1]);
        }
    }
    let mid = slice_chars(&m, a, b);
    string_from(&trim_chars(&mid))
}

/// Handles a child element: its children first, then its sheet and its `style`.
/// Says whether it goes (a style element whose minified sheet is blank).
fn process_child(c: Element) -> (r: (Element, bool))
    ensures
        r.1 == blank_style(elem_model(c)),
        !r.1 ==> elem_model(r.0) == min_elem(elem_model(c)),
    decreases c, 1int,
{
    let ghost m = elem_model(c);
    proof {
        crate::ast::lemma_children_model(c);
    }
    let mut sheet: Option<String> = None;
    if c.is_named("style") && c.children.len() > 0 {
        match &c.children[0] {
            Node::Text(t) => {
                assert(m.children[0] == node_model(c.children@[0]));
                let mt = minified_text_exec(t.as_str());
                if trim_chars(&chars_of(mt.as_str())).len() == 0 {
                    return (c, true);
                }
                sheet = Some(mt);
            },
            _ => {},
        }
    }
    assert(sheet is Some <==> style_with_text(m));
    assert(sheet is Some ==> sheet.unwrap()@ == minified_text(first_text(m))) by {
        if sheet is Some {
            assert(m.children[0] == node_model(c.children@[0]));
        }
    }
    let mut d = minify_kids(c);
    proof {
        if style_with_text(m) {
            lemma_min_kids_first(m, m.children.len());
        }
    }
    match sheet {
        Some(mt) => {
            let ghost before = elem_model(d).children;
            d.children.set(0, Node::Text(mt));
            assert(elem_model(d).children =~= before.update(0, NodeM::Text(minified_text(first_text(m)))));
        },
        None => {},
    }
    let ghost kids = elem_model(d).children;
    assert(kids == text_fixed(m, min_kids(m, m.children.len())));
    match d.attributes.get_cloned("style") {
        Some(st) => {
            let v = style_attr_min_exec(st.as_str());
            if !v.as_str().is_empty() {
                d.attributes.insert(owned("style"), v);
            } else {
                d.attributes.shift_remove("style");
            }
        },
        None => {},
    }
    assert(elem_model(d).children =~= kids);
    (d, false)
}

/// Processes the children of `e`, leaving its own attributes.
fn minify_kids(e: Element) -> (res: Element)
    ensures
        elem_model(res) == minified_root(elem_model(e)),
    decreases e, 0int,
{
    let ghost e0 = e;
    let ghost m0 = elem_model(e);
    let Element { name, attributes, namespaces, children } = e;
    let mut rest = children;
    let mut kept: Vec<Node> = Vec::new();
    let n = rest.len();
    let mut i: usize = 0;
    assert(rest@.skip(0) =~= e0.children@);
    while i < n
        invariant
            e == e0,
            m0 == elem_model(e0),
            n == e0.children@.len(),
            0 <= i <= n,
            rest@ == e0.children@.skip(i as int),
            nodes_model(kept@) == min_kids(m0, i as nat),
        decreases n - i,
    {
        let node = rest.remove(0);
        assert(node == e0.children@[i as int]);
        assert(rest@ =~= e0.children@.skip(i + 1));
        assert(m0.children[i as int] == node_model(node));
        let ghost km = nodes_model(kept@);
        match node {
            Node::Element(c) => {
                proof {
                    assert(decreases_to!(e0 => e0.children));
                    assert(decreases_to!(e0.children => e0.children[i as int]));
                    assert(decreases_to!(e0 => c));
                }
                let (c2, gone) = process_child(c);
                if !gone {
                    kept.push(Node::Element(c2));
                    assert(nodes_model(kept@) =~= km + seq![min_node(m0.children[i as int])]);
                } else {
                    assert(km =~= km + Seq::<NodeM>::empty());
                }
            },
            other => {
                kept.push(other);
                assert(nodes_model(kept@) =~= km + seq![min_node(m0.children[i as int])]);
            },
        }
        i += 1;
    }
    let res = Element { name, attributes, namespaces, children: kept };
    assert(elem_model(res).children =~= nodes_model(kept@));
    res
}

/// The attributes that hold event handlers.
pub open spec fn event_attrs() -> Seq<&'static str> {
    seq![
        "onload",
        "onclick",
        "onmouseover",
        "onmouseout",
        "onfocus",
        "onblur",
        "onchange",
        "onsubmit",
        "onreset",
        "onkeydown",
        "onkeyup",
        "onkeypress",
    ]
}

/// The event attributes that count as script are exactly those named in this statement.
pub proof fn lemma_event_attrs_members(n: Seq<char>)
    ensures
        in_table(event_attrs(), n) <==> (n == "onload"@
            || n == "onclick"@
            || n == "onmouseover"@
            || n == "onmouseout"@
            || n == "onfocus"@
            || n == "onblur"@
            || n == "onchange"@
            || n == "onsubmit"@
            || n == "onreset"@
            || n == "onkeydown"@
            || n == "onkeyup"@
            || n == "onkeypress"@),
{
    if n == "onload"@ {
        assert(event_attrs()[0]@ == n);
    }
    if n == "onclick"@ {
        assert(event_attrs()[1]@ == n);
    }
    if n == "onmouseover"@ {
        assert(event_attrs()[2]@ == n);
    }
    if n == "onmouseout"@ {
        assert(event_attrs()[3]@ == n);
    }
    if n == "onfocus"@ {
        assert(event_attrs()[4]@ == n);
    }
    if n == "onblur"@ {
        assert(event_attrs()[5]@ == n);
    }
    if n == "onchange"@ {
        assert(event_attrs()[6]@ == n);
    }
    if n == "onsubmit"@ {
        assert(event_attrs()[7]@ == n);
    }
    if n == "onreset"@ {
        assert(event_attrs()[8]@ == n);
    }
    if n == "onkeydown"@ {
        assert(event_attrs()[9]@ == n);
    }
    if n == "onkeyup"@ {
        assert(event_attrs()[10]@ == n);
    }
    if n == "onkeypress"@ {
        assert(event_attrs()[11]@ == n);
    }
    if in_table(event_attrs(), n) {
        let k = choose|k: int| 0 <= k < event_attrs().len() && #[trigger] event_attrs()[k]@ == n;
        if k == 0 {
            assert(n == "onload"@);
        }
        if k == 1 {
            assert(n == "onclick"@);
        }
        if k == 2 {
            assert(n == "onmouseover"@);
        }
        if k == 3 {
            assert(n == "onmouseout"@);
        }
        if k == 4 {
            assert(n == "onfocus"@);
        }
        if k == 5 {
            assert(n == "onblur"@);
        }
        if k == 6 {
            assert(n == "onchange"@);
        }
        if k == 7 {
            assert(n == "onsubmit"@);
        }
        if k == 8 {
            assert(n == "onreset"@);
        }
        if k == 9 {
            assert(n == "onkeydown"@);
        }
        if k == 10 {
            assert(n == "onkeyup"@);
        }
        if k == 11 {
            assert(n == "onkeypress"@);
        }
    }
}

/// Whether an attribute of a link is a `javascript:` reference.
pub open spec fn js_link(a: (Seq<char>, Seq<char>)) -> bool {
    (a.0 == "href"@ || ends_with_seq(a.0, ":href"@)) && starts_with_seq(
        trim_start_seq(a.1),
        "javascript:"@,
    )
}

/// Whether an element holds script: a `<script>` with content, a link to
/// `javascript:`, or an event handler attribute.
pub open spec fn element_has_scripts(m: ElemM) -> bool {
    ||| (m.name == "script"@ && m.children.len() > 0)
    ||| (m.name == "a"@ && exists|i: int| 0 <= i < m.attrs.len() && #[trigger] js_link(m.attrs[i]))
    ||| (exists|i: int| 0 <= i < event_attrs().len() && has_key(m.attrs, #[trigger] event_attrs()[i]@))
}

/// Whether an element holds script (computed).
pub fn has_scripts(element: &Element) -> (r: bool)
    ensures
        r == element_has_scripts(elem_model(*element)),
{
    let ghost m = elem_model(*element);
    proof {
        crate::ast::lemma_children_model(*element);
    }
    if element.is_named("script") && element.children.len() > 0 {
        return true;
    }
    let mut link = false;
    if element.is_named("a") {
        let n = element.attributes.entries.len();
        let mut i: usize = 0;
        while i < n
            invariant
                n == element.attributes@.len(),
                m == elem_model(*element),
                0 <= i <= n,
                link == exists|k: int| 0 <= k < i && #[trigger] js_link(m.attrs[k]),
            decreases n - i,
        {
            let name = element.attributes.entries[i].0.as_str();
            let value = element.attributes.entries[i].1.as_str();
            assert(m.attrs[i as int] == (name@, value@));
            let v = chars_of(value);
            let k = trim_start_index(&v);
            let tail = crate::text::skip_chars(&v, k);
            let hit = (crate::text::str_eq(name, "href") || ends_with_str(name, ":href"))
                && starts_with_str(string_from(&tail).as_str(), "javascript:");
            if hit {
                assert(js_link(m.attrs[i as int]));
                link = true;
            }
            i += 1;
        }
    }
    if link {
        return true;
    }
    let t: Vec<&'static str> = vec![
        "onload",
        "onclick",
        "onmouseover",
        "onmouseout",
        "onfocus",
        "onblur",
        "onchange",
        "onsubmit",
        "onreset",
        "onkeydown",
        "onkeyup",
        "onkeypress",
    ];
    assert(t@ == event_attrs());
    let n = t.len();
    let mut j: usize = 0;
    while j < n
        invariant
            n == t@.len(),
            t@ == event_attrs(),
            m == elem_model(*element),
            0 <= j <= n,
            forall|k: int| 0 <= k < j ==> !has_key(m.attrs, #[trigger] event_attrs()[k]@),
        decreases n - j,
    {
        if element.attributes.contains_key(t[j]) {
            assert(has_key(m.attrs, event_attrs()[j as int]@));
            return true;
        }
        j += 1;
    }
    false
}

/// Whether some element of the tree holds script.
pub open spec fn deoptimized(m: ElemM) -> bool
    decreases m, 2int, 0nat,
{
    element_has_scripts(m) || deopt_kids(m, m.children.len())
}

/// Whether some element in the first `k` children of `m` holds script.
pub open spec fn deopt_kids(m: ElemM, k: nat) -> bool
    decreases m, 1int, k,
{
    if k == 0 || k > m.children.len() {
        false
    } else {
        deopt_kids(m, (k - 1) as nat) || deopt_node(m.children[k - 1])
    }
}

/// Whether some element in a node holds script.
pub open spec fn deopt_node(n: NodeM) -> bool
    decreases n, 0int, 0nat,
{
    match n {
        NodeM::Element(c) => deoptimized(c),
        _ => false,
    }
}

/// Once some element of the first `k` children holds script, so does one of the first `l`.
proof fn lemma_deopt_kids_mono(m: ElemM, k: nat, l: nat)
    requires
        k <= l <= m.children.len(),
        deopt_kids(m, k),
    ensures
        deopt_kids(m, l),
    decreases l,
{
    if l > k {
        lemma_deopt_kids_mono(m, k, (l - 1) as nat);
    }
}

/// Whether some element of `element`'s tree holds script.
pub fn is_deoptimized(element: &Element) -> (r: bool)
    ensures
        r == deoptimized(elem_model(*element)),
    decreases element,
{
    let ghost m = elem_model(*element);
    if has_scripts(element) {
        return true;
    }
    proof {
        crate::ast::lemma_children_model(*element);
    }
    let n = element.children.len();
    let mut i: usize = 0;
    while i < n
        invariant
            n == m.children.len(),
            n == element.children@.len(),
            m == elem_model(*element),
            !element_has_scripts(m),
            0 <= i <= n,
            !deopt_kids(m, i as nat),
        decreases n - i,
    {
        assert(m.children[i as int] == node_model(element.children@[i as int]));
        let found = match &element.children[i] {
            Node::Element(c) => is_deoptimized(c),
            _ => false,
        };
        assert(deopt_kids(m, (i + 1) as nat) == (deopt_kids(m, i as nat) || deopt_node(
            m.children[i as int],
        )));
        if found {
            proof {
                lemma_deopt_kids_mono(m, (i + 1) as nat, n as nat);
            }
            return true;
        }
        i += 1;
    }
    false
}

/// The tag names, ids and class names of the given elements, in order.
pub open spec fn usage_of(s: Seq<ElemM>) -> (Seq<Seq<char>>, Seq<Seq<char>>, Seq<Seq<char>>)
    decreases s.len(),
{
    if s.len() == 0 {
        (seq![], seq![], seq![])
    } else {
        let prev = usage_of(s.drop_last());
        let m = s.last();
        (
            prev.0.push(m.name),
            prev.1 + match attr_get(m.attrs, "id"@) {
                Some(i) => seq![i],
                None => seq![],
            },
            prev.2 + match attr_get(m.attrs, "class"@) {
                Some(c) => words(c),
                None => seq![],
            },
        )
    }
}

/// `usage_of` over two lists joined.
proof fn lemma_usage_append(a: Seq<ElemM>, b: Seq<ElemM>)
    ensures
        usage_of(a + b).0 == usage_of(a).0 + usage_of(b).0,
        usage_of(a + b).1 == usage_of(a).1 + usage_of(b).1,
        usage_of(a + b).2 == usage_of(a).2 + usage_of(b).2,
    decreases b.len(),
{
    if b.len() == 0 {
        assert(a + b =~= a);
        assert(usage_of(a).0 + usage_of(b).0 =~= usage_of(a).0);
        assert(usage_of(a).1 + usage_of(b).1 =~= usage_of(a).1);
        assert(usage_of(a).2 + usage_of(b).2 =~= usage_of(a).2);
    } else {
        lemma_usage_append(a, b.drop_last());
        assert((a + b).drop_last() =~= a + b.drop_last());
        let ua = usage_of(a);
        let ub = usage_of(b.drop_last());
        assert(usage_of(a + b).0 =~= ua.0 + usage_of(b).0);
        assert(usage_of(a + b).1 =~= ua.1 + usage_of(b).1);
        assert(usage_of(a + b).2 =~= ua.2 + usage_of(b).2);
    }
}

/// Appends the tag names, ids and class names of `e`'s tree, in document order.
fn collect_usage_into(
    e: &Element,
    tags: &mut Vec<String>,
    ids: &mut Vec<String>,
    classes: &mut Vec<String>,
)
    ensures
        strings_view(final(tags)@) == strings_view(old(tags)@) + usage_of(tree_elems(elem_model(*e))).0,
        strings_view(final(ids)@) == strings_view(old(ids)@) + usage_of(tree_elems(elem_model(*e))).1,
        strings_view(final(classes)@) == strings_view(old(classes)@) + usage_of(
            tree_elems(elem_model(*e)),
        ).2,
    decreases e,
{
    let ghost m = elem_model(*e);
    let ghost t0 = strings_view(tags@);
    let ghost i0 = strings_view(ids@);
    let ghost c0 = strings_view(classes@);
    let ghost own = usage_of(seq![m]);
    assert(seq![m].drop_last() =~= Seq::<ElemM>::empty());
    assert(seq![m].last() == m);
    assert(usage_of(Seq::<ElemM>::empty()) == (
        Seq::<Seq<char>>::empty(),
        Seq::<Seq<char>>::empty(),
        Seq::<Seq<char>>::empty(),
    ));
    assert(own.0 =~= seq![m.name]);
    assert(own.1 =~= match attr_get(m.attrs, "id"@) {
        Some(i) => seq![i],
        None => Seq::<Seq<char>>::empty(),
    });
    assert(own.2 =~= match attr_get(m.attrs, "class"@) {
        Some(c) => words(c),
        None => Seq::<Seq<char>>::empty(),
    });
    tags.push(e.name.clone());
    assert(strings_view(tags@) =~= t0 + own.0);
    match e.attributes.get("id") {
        Some(i) => {
            ids.push(i.clone());
            assert(strings_view(ids@) =~= i0 + own.1);
        },
        None => {
            assert(strings_view(ids@) =~= i0 + own.1);
        },
    }
    match e.attributes.get("class") {
        Some(c) => {
            let ws = split_whitespace(&chars_of(c.as_str()));
            let ghost wm = words(c@);
            let n = ws.len();
            let mut k: usize = 0;
            assert(wm.take(0) =~= Seq::<Seq<char>>::empty());
            while k < n
                invariant
                    n == ws@.len(),
                    n == wm.len(),
                    forall|j: int| 0 <= j < n ==> #[trigger] ws@[j]@ == wm[j],
                    0 <= k <= n,
                    strings_view(classes@) == c0 + wm.take(k as int),
                decreases n - k,
            {
                let ghost before = strings_view(classes@);
                classes.push(string_from(&ws[k]));
                assert(wm.take(k + 1) =~= wm.take(k as int).push(wm[k as int]));
                assert(strings_view(classes@) =~= before.push(wm[k as int]));
                k += 1;
            }
            assert(wm.take(n as int) =~= wm);
            assert(own.2 =~= wm);
        },
        None => {
            assert(strings_view(classes@) =~= c0 + own.2);
        },
    }
    let ghost parts = Seq::new(m.children.len(), |j: int| node_elems(m.children[j]));
    let ghost t1 = strings_view(tags@);
    let ghost i1 = strings_view(ids@);
    let ghost c1 = strings_view(classes@);
    let n = e.children.len();
    let mut i: usize = 0;
    proof {
        crate::ast::lemma_children_model(*e);
    }
    assert(parts.take(0).flatten() =~= Seq::<ElemM>::empty());
    assert(usage_of(Seq::<ElemM>::empty()).0 =~= Seq::<Seq<char>>::empty());
    assert(t1 =~= t1 + usage_of(parts.take(0).flatten()).0);
    assert(i1 =~= i1 + usage_of(parts.take(0).flatten()).1);
    assert(c1 =~= c1 + usage_of(parts.take(0).flatten()).2);
    while i < n
        invariant
            n == m.children.len(),
            n == e.children@.len(),
            m == elem_model(*e),
            parts == Seq::new(m.children.len(), |j: int| node_elems(m.children[j])),
            0 <= i <= n,
            strings_view(tags@) == t1 + usage_of(parts.take(i as int).flatten()).0,
            strings_view(ids@) == i1 + usage_of(parts.take(i as int).flatten()).1,
            strings_view(classes@) == c1 + usage_of(parts.take(i as int).flatten()).2,
        decreases n - i,
    {
        proof {
            assert(parts.take(i + 1) =~= parts.take(i as int).push(parts[i as int]));
            parts.take(i as int).lemma_flatten_push(parts[i as int]);
            lemma_usage_append(parts.take(i as int).flatten(), parts[i as int]);
            assert(m.children[i as int] == node_model(e.children@[i as int]));
        }
        match &e.children[i] {
            Node::Element(c) => {
                collect_usage_into(c, tags, ids, classes);
            },
            _ => {
                assert(parts[i as int] =~= Seq::<ElemM>::empty());
                assert(parts.take(i as int).flatten() + parts[i as int] =~= parts.take(
                    i as int,
                ).flatten());
            },
        }
        i += 1;
    }
    proof {
        assert(parts.take(n as int) =~= parts);
        assert(crate::ast::children_elems(m) =~= parts);
        assert(tree_elems(m) == seq![m] + parts.flatten());
        lemma_usage_append(seq![m], parts.flatten());
    }
}

/// The tag names, ids and class names of a tree, in document order (with repetitions).
pub fn collect_usage(element: &Element) -> (r: (Vec<String>, Vec<String>, Vec<String>))
    ensures
        strings_view(r.0@) == usage_of(tree_elems(elem_model(*element))).0,
        strings_view(r.1@) == usage_of(tree_elems(elem_model(*element))).1,
        strings_view(r.2@) == usage_of(tree_elems(elem_model(*element))).2,
{
    let mut tags: Vec<String> = Vec::new();
    let mut ids: Vec<String> = Vec::new();
    let mut classes: Vec<String> = Vec::new();
    assert(strings_view(tags@) =~= seq![]);
    assert(strings_view(ids@) =~= seq![]);
    assert(strings_view(classes@) =~= seq![]);
    collect_usage_into(element, &mut tags, &mut ids, &mut classes);
    (tags, ids, classes)
}

impl MinifyStylesPlugin {
    /// The plugin with default settings.
    pub fn new() -> (r: Self)
        ensures
            r.config.restructure,
            !r.config.force_media_merge,
            !r.config.comments,
            r.config.usage is None,
    {
        MinifyStylesPlugin { config: MinifyStylesConfig::default() }
    }

    /// The plugin with the given settings.
    pub fn with_config(config: MinifyStylesConfig) -> (r: Self)
        ensures
            r.config == config,
    {
        MinifyStylesPlugin { config }
    }

    /// The plugin's name.
    pub fn name(&self) -> (r: &'static str)
        ensures
            r@ == "minifyStyles"@,
    {
        "minifyStyles"
    }

    /// What the plugin does.
    pub fn description(&self) -> (r: &'static str)
        ensures
            r@ == "minifies styles and removes unused styles"@,
    {
        "minifies styles and removes unused styles"
    }

    /// A style sheet minified by lightningcss, or left as it is when lightningcss
    /// refuses it.
    pub fn minify_css(&self, css_text: &str) -> (r: String)
        ensures
            r@ == minified_text(css_text@),
    {
        minified_text_exec(css_text)
    }

    /// Minifies the style sheets and `style` attributes below the root.
    pub fn apply(&self, document: &mut Document) -> (r: Result<(), PluginError>)
        ensures
            r is Ok,
            doc_model(*final(document)) == doc_with_root(
                doc_model(*old(document)),
                minified_root(doc_model(*old(document)).root),
            ),
    {
        let root = take_root(document);
        document.root = minify_kids(root);
        Ok(())
    }
}

} // verus!
