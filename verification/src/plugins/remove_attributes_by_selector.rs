//! Removes attributes from the elements that match simple CSS selectors.
use vstd::prelude::*;
use crate::ast::{
    attr_get, doc_model, doc_with_root, elem_model, has_key, node_model, take_root, AttrsM,
    DocM, Document, ElemM, Element, Node, NodeM, PluginError,
};
use crate::plugins::remove_deprecated_attrs::remove_all;
use crate::text::{
    char_pos, char_pos_exec, chars_eq, chars_of, skip_chars, slice_chars, split_whitespace,
    string_from, strings_view, trim_chars, trim_seq, words,
};

verus! {

broadcast use vstd::string::group_string_axioms;

/// One selector with the attributes to remove from the elements it matches.
pub struct SelectorConfig {
    pub selector: String,
    pub attributes: Vec<String>,
}

/// Settings of the plugin: one selector, or several.
pub enum RemoveAttributesBySelectorConfig {
    Single { selector: String, attributes: Vec<String> },
    Multiple { selectors: Vec<SelectorConfig> },
}

impl Default for RemoveAttributesBySelectorConfig {
    fn default() -> (r: Self)
        ensures
            r matches RemoveAttributesBySelectorConfig::Multiple { selectors } && selectors@.len()
                == 0,
    {
        RemoveAttributesBySelectorConfig::Multiple { selectors: Vec::new() }
    }
}

/// Plugin that removes attributes by selector.
pub struct RemoveAttributesBySelectorPlugin {
    pub config: RemoveAttributesBySelectorConfig,
}

/// Model of a selector with its attributes.
pub open spec fn selector_model(s: SelectorConfig) -> (Seq<char>, Seq<Seq<char>>) {
    (s.selector@, strings_view(s.attributes@))
}

/// The selectors of a configuration, in order.
pub open spec fn selectors_of(cfg: RemoveAttributesBySelectorConfig) -> Seq<(Seq<char>, Seq<Seq<char>>)> {
    match cfg {
        RemoveAttributesBySelectorConfig::Single { selector, attributes } => seq![
            (selector@, strings_view(attributes@)),
        ],
        RemoveAttributesBySelectorConfig::Multiple { selectors } => selectors@.map_values(
            |s: SelectorConfig| selector_model(s),
        ),
    }
}

/// Whether a selector is `[...]`.
pub open spec fn is_attr_selector(sel: Seq<char>) -> bool {
    sel.len() > 0 && sel[0] == '[' && sel.last() == ']'
}

/// Whether a selector is malformed: it holds `[` or `]` without being a class, id or
/// `[...]` selector.
pub open spec fn malformed(sel: Seq<char>) -> bool {
    !(sel.len() > 0 && (sel[0] == '.' || sel[0] == '#')) && !is_attr_selector(sel) && (sel.contains(
        '[',
    ) || sel.contains(']'))
}

/// Whether a value is enclosed in `"` or in `'` (a lone quote character is not).
pub open spec fn quoted(v: Seq<char>) -> bool {
    v.len() >= 2 && ((v[0] == '"' && v.last() == '"') || (v[0] == '\'' && v.last() == '\''))
}

/// Whether an `[...]` selector matches an element: `[a=v]` (with `v` unquoted) by
/// the value of `a`, `[a]` by its presence; names and values trimmed.
pub open spec fn attr_selector_matches(sel: Seq<char>, m: ElemM) -> bool {
    let content = sel.subrange(1, sel.len() - 1);
    let p = char_pos(content, '=') as int;
    if p < content.len() {
        let name = trim_seq(content.take(p));
        let v = trim_seq(content.skip(p + 1));
        let value = if quoted(v) {
            v.subrange(1, v.len() - 1)
        } else {
            v
        };
        attr_get(m.attrs, name) == Some(value)
    } else {
        has_key(m.attrs, trim_seq(content))
    }
}

/// Whether a selector matches an element: `.c` by a word of its `class`, `#i` by its
/// `id`, `[...]` by an attribute, anything else by its name.
pub open spec fn sel_matches(sel: Seq<char>, m: ElemM) -> bool {
    if sel.len() > 0 && sel[0] == '.' {
        match attr_get(m.attrs, "class"@) {
            Some(c) => words(c).contains(sel.drop_first()),
            None => false,
        }
    } else if sel.len() > 0 && sel[0] == '#' {
        attr_get(m.attrs, "id"@) == Some(sel.drop_first())
    } else if is_attr_selector(sel) {
        attr_selector_matches(sel, m)
    } else {
        m.name == sel
    }
}

/// The tree with the attributes removed from the elements the selector matches; the
/// elements below a matching element are not visited.
pub open spec fn sel_tree(sel: Seq<char>, names: Seq<Seq<char>>, m: ElemM) -> ElemM
    decreases m,
{
    if sel_matches(sel, m) {
        ElemM {
            name: m.name,
            attrs: remove_all(m.attrs, names),
            namespaces: m.namespaces,
            children: m.children,
        }
    } else {
        ElemM {
            name: m.name,
            attrs: m.attrs,
            namespaces: m.namespaces,
            children: Seq::new(
                m.children.len(),
                |i: int|
                    if 0 <= i < m.children.len() {
                        sel_node(sel, names, m.children[i])
                    } else {
                        m.children[i]
                    },
            ),
        }
    }
}

/// A node with the selector applied.
pub open spec fn sel_node(sel: Seq<char>, names: Seq<Seq<char>>, n: NodeM) -> NodeM
    decreases n,
{
    match n {
        NodeM::Element(c) => NodeM::Element(sel_tree(sel, names, c)),
        _ => n,
    }
}

/// The root after the first `k` selectors, or `None` when one of them is malformed.
pub open spec fn after_selectors(sels: Seq<(Seq<char>, Seq<Seq<char>>)>, root: ElemM, k: nat) -> Option<
    ElemM,
>
    decreases k,
{
    if k == 0 || k > sels.len() {
        Some(root)
    } else {
        match after_selectors(sels, root, (k - 1) as nat) {
            Some(r) => if malformed(sels[k - 1].0) {
                None
            } else {
                Some(sel_tree(sels[k - 1].0, sels[k - 1].1, r))
            },
            None => None,
        }
    }
}

/// The number of selectors applied before the first malformed one.
pub open spec fn first_malformed(sels: Seq<(Seq<char>, Seq<Seq<char>>)>) -> nat
    decreases sels.len(),
{
    if sels.len() == 0 {
        0
    } else if malformed(sels[0].0) {
        0
    } else {
        1 + first_malformed(sels.drop_first())
    }
}

/// Whether a selector is malformed (computed).
fn malformed_exec(sel: &Vec<char>) -> (r: bool)
    ensures
        r == malformed(sel@),
{
    if sel.len() > 0 && (sel[0] == '.' || sel[0] == '#') {
        return false;
    }
    if sel.len() > 0 && sel[0] == '[' && sel[sel.len() - 1] == ']' {
        return false;
    }
    let a = char_pos_exec(sel, '[');
    let b = char_pos_exec(sel, ']');
    proof {
        lemma_char_pos_contains(sel@, '[');
        lemma_char_pos_contains(sel@, ']');
    }
    a < sel.len() || b < sel.len()
}

/// `char_pos` finds `c` exactly when `s` contains it.
proof fn lemma_char_pos_contains(s: Seq<char>, c: char)
    ensures
        (char_pos(s, c) < s.len()) == s.contains(c),
        char_pos(s, c) < s.len() ==> s[char_pos(s, c) as int] == c,
        char_pos(s, c) <= s.len(),
    decreases s.len(),
{
    if s.len() > 0 {
        lemma_char_pos_contains(s.drop_first(), c);
        if s[0] != c {
            if s.contains(c) {
                let i = choose|i: int| 0 <= i < s.len() && s[i] == c;
                assert(s.drop_first()[i - 1] == c);
            }
            if s.drop_first().contains(c) {
                let i = choose|i: int| 0 <= i < s.drop_first().len() && s.drop_first()[i] == c;
                assert(s[i + 1] == c);
            }
        } else {
            assert(s[0] == c);
        }
    }
}

/// Whether an `[...]` selector matches (computed).
fn attr_selector_matches_exec(sel: &Vec<char>, e: &Element) -> (r: bool)
    requires
        is_attr_selector(sel@),
        !(sel@.len() > 0 && (sel@[0] == '.' || sel@[0] == '#')),
    ensures
        r == attr_selector_matches(sel@, elem_model(*e)),
{
    let content = slice_chars(sel, 1, sel.len() - 1);
    let p = char_pos_exec(&content, '=');
    if p < content.len() {
        let head = slice_chars(&content, 0, p);
        assert(head@ =~= content@.take(p as int));
        let name = trim_chars(&head);
        let v = trim_chars(&skip_chars(&content, p + 1));
        let value = if v.len() >= 2 && ((v[0] == '"' && v[v.len() - 1] == '"') || (v[0] == '\''
            && v[v.len() - 1] == '\'')) {
            slice_chars(&v, 1, v.len() - 1)
        } else {
            v
        };
        let name_s = string_from(&name);
        match e.attributes.get(name_s.as_str()) {
            Some(x) => chars_eq(&chars_of(x.as_str()), &value),
            None => false,
        }
    } else {
        let name = string_from(&trim_chars(&content));
        e.attributes.contains_key(name.as_str())
    }
}

/// Whether a selector matches an element (computed).
fn sel_matches_exec(sel: &Vec<char>, e: &Element) -> (r: bool)
    ensures
        r == sel_matches(sel@, elem_model(*e)),
{
    if sel.len() > 0 && sel[0] == '.' {
        let name = skip_chars(sel, 1);
        assert(name@ =~= sel@.drop_first());
        match e.attributes.get("class") {
            Some(c) => {
                let ws = split_whitespace(&chars_of(c.as_str()));
                let ghost wm = words(c@);
                let n = ws.len();
                let mut i: usize = 0;
                while i < n
                    invariant
                        n == ws@.len(),
                        n == wm.len(),
                        wm == words(c@),
                        attr_get(e.attributes@, "class"@) == Some(c@),
                        sel@.len() > 0 && sel@[0] == '.',
                        name@ == sel@.drop_first(),
                        forall|k: int| 0 <= k < n ==> #[trigger] ws@[k]@ == wm[k],
                        0 <= i <= n,
                        forall|k: int| 0 <= k < i ==> wm[k] != name@,
                    decreases n - i,
                {
                    if chars_eq(&ws[i], &name) {
                        assert(wm[i as int] == name@);
                        return true;
                    }
                    i += 1;
                }
                false
            },
            None => false,
        }
    } else if sel.len() > 0 && sel[0] == '#' {
        let id = skip_chars(sel, 1);
        assert(id@ =~= sel@.drop_first());
        match e.attributes.get("id") {
            Some(v) => chars_eq(&chars_of(v.as_str()), &id),
            None => false,
        }
    } else if sel.len() > 0 && sel[0] == '[' && sel[sel.len() - 1] == ']' {
        attr_selector_matches_exec(sel, e)
    } else {
        chars_eq(&chars_of(e.name.as_str()), sel)
    }
}

/// Removes the named attributes of `e`, in order.
fn remove_named(names: &Vec<String>, e: &mut Element)
    ensures
        final(e).name == old(e).name,
        final(e).namespaces == old(e).namespaces,
        final(e).children == old(e).children,
        final(e).attributes@ == remove_all(old(e).attributes@, strings_view(names@)),
{
    let ghost a0 = e.attributes@;
    let ghost nv = strings_view(names@);
    let n = names.len();
    let mut i: usize = 0;
    assert(nv.take(0) =~= Seq::<Seq<char>>::empty());
    while i < n
        invariant
            n == names@.len(),
            nv == strings_view(names@),
            0 <= i <= n,
            e.name == old(e).name,
            e.namespaces == old(e).namespaces,
            e.children == old(e).children,
            e.attributes@ == remove_all(a0, nv.take(i as int)),
        decreases n - i,
    {
        assert(nv.take(i + 1).drop_last() =~= nv.take(i as int));
        e.attributes.shift_remove(names[i].as_str());
        i += 1;
    }
    assert(nv.take(n as int) =~= nv);
}

/// Applies a selector to `e` and the elements below it.
fn sel_element(sel: &Vec<char>, names: &Vec<String>, e: Element) -> (res: Element)
    ensures
        elem_model(res) == sel_tree(sel@, strings_view(names@), elem_model(e)),
    decreases e,
{
    let ghost e0 = e;
    let ghost nv = strings_view(names@);
    if sel_matches_exec(sel, &e) {
        let mut cur = e;
        remove_named(names, &mut cur);
        assert(elem_model(cur).children =~= elem_model(e0).children);
        return cur;
    }
    let Element { name, attributes, namespaces, children } = e;
    let mut children = children;
    let n = children.len();
    let mut i: usize = 0;
    while i < n
        invariant
            e == e0,
            nv == strings_view(names@),
            n == children@.len(),
            n == e0.children@.len(),
            0 <= i <= n,
            forall|j: int|
                0 <= j < i ==> node_model(#[trigger] children@[j]) == sel_node(
                    sel@,
                    nv,
                    node_model(e0.children@[j]),
                ),
            forall|j: int| i <= j < n ==> children@[j] == e0.children@[j],
        decreases n - i,
    {
        let mut tmp = Node::Text(String::new());
        std::mem::swap(&mut children[i], &mut tmp);
        let next = match tmp {
            Node::Element(c) => {
                proof {
                    assert(decreases_to!(e0 => e0.children));
                    assert(decreases_to!(e0.children => e0.children[i as int]));
                    assert(decreases_to!(e0 => c));
                }
                Node::Element(sel_element(sel, names, c))
            },
            other => other,
        };
        children.set(i, next);
        i += 1;
    }
    let res = Element { name, attributes, namespaces, children };
    assert(elem_model(res).children =~= sel_tree(sel@, nv, elem_model(e0)).children);
    res
}

impl RemoveAttributesBySelectorPlugin {
    /// The plugin with default settings (no selector).
    pub fn new() -> (r: Self)
        ensures
            selectors_of(r.config).len() == 0,
    {
        RemoveAttributesBySelectorPlugin { config: RemoveAttributesBySelectorConfig::default() }
    }

    /// The plugin with the given settings.
    pub fn with_config(config: RemoveAttributesBySelectorConfig) -> (r: Self)
        ensures
            r.config == config,
    {
        RemoveAttributesBySelectorPlugin { config }
    }

    /// The plugin's name.
    pub fn name(&self) -> (r: &'static str)
        ensures
            r@ == "removeAttributesBySelector"@,
    {
        "removeAttributesBySelector"
    }

    /// What the plugin does.
    pub fn description(&self) -> (r: &'static str)
        ensures
            r@ == "removes attributes of elements that match a css selector"@,
    {
        "removes attributes of elements that match a css selector"
    }

    /// The selectors of the configuration, in order.
    pub fn get_selectors(&self) -> (r: Vec<(String, Vec<String>)>)
        ensures
            r@.len() == selectors_of(self.config).len(),
            forall|i: int|
                0 <= i < r@.len() ==> (#[trigger] r@[i].0@, strings_view(r@[i].1@)) == selectors_of(
                    self.config,
                )[i],
    {
        match &self.config {
            RemoveAttributesBySelectorConfig::Single { selector, attributes } => {
                let mut v: Vec<(String, Vec<String>)> = Vec::new();
                v.push((selector.clone(), crate::text::clone_strings(attributes)));
                v
            },
            RemoveAttributesBySelectorConfig::Multiple { selectors } => {
                let mut v: Vec<(String, Vec<String>)> = Vec::new();
                let n = selectors.len();
                let mut i: usize = 0;
                while i < n
                    invariant
                        n == selectors@.len(),
                        self.config == (RemoveAttributesBySelectorConfig::Multiple {
                            selectors: *selectors,
                        }),
                        0 <= i <= n,
                        v@.len() == i,
                        forall|k: int|
                            0 <= k < i ==> (#[trigger] v@[k].0@, strings_view(v@[k].1@))
                                == selector_model(selectors@[k]),
                    decreases n - i,
                {
                    v.push((selectors[i].selector.clone(), crate::text::clone_strings(&selectors[i].attributes)));
                    i += 1;
                }
                v
            },
        }
    }

    /// Applies the selectors in order; stops with an error at the first malformed
    /// selector, the earlier ones applied.
    pub fn apply(&self, document: &mut Document) -> (r: Result<(), PluginError>)
        ensures
            r is Ok <==> first_malformed(selectors_of(self.config)) == selectors_of(self.config).len(),
            doc_model(*final(document)) == doc_with_root(
                doc_model(*old(document)),
                after_selectors(
                    selectors_of(self.config),
                    doc_model(*old(document)).root,
                    first_malformed(selectors_of(self.config)),
                ).unwrap(),
            ),
    {
        let sels = self.get_selectors();
        let ghost sm = selectors_of(self.config);
        let ghost m0 = doc_model(*document).root;
        let n = sels.len();
        let mut i: usize = 0;
        assert(sm.skip(0) =~= sm);
        while i < n
            invariant
                n == sm.len(),
                n == sels@.len(),
                m0 == doc_model(*old(document)).root,
                sm == selectors_of(self.config),
                forall|k: int| 0 <= k < n ==> (#[trigger] sels@[k].0@, strings_view(sels@[k].1@)) == sm[k],
                0 <= i <= n,
                first_malformed(sm) == i + first_malformed(sm.skip(i as int)),
                after_selectors(sm, m0, i as nat) == Some(doc_model(*document).root),
                doc_model(*document) == doc_with_root(doc_model(*old(document)), doc_model(*document).root),
            decreases n - i,
        {
            assert(sm.skip(i as int)[0] == sm[i as int]);
            let sel = chars_of(sels[i].0.as_str());
            assert(sels@[i as int].0@ == sm[i as int].0);
            if malformed_exec(&sel) {
                assert(first_malformed(sm.skip(i as int)) == 0);
                return Err(PluginError::InvalidConfig(String::from_str("Malformed CSS selector")));
            }
            assert(sm.skip(i as int).drop_first() =~= sm.skip(i + 1));
            assert(i < first_malformed(sm));
            let root = take_root(document);
            document.root = sel_element(&sel, &sels[i].1, root);
            i += 1;
        }
        assert(sm.skip(n as int) =~= Seq::<(Seq<char>, Seq<Seq<char>>)>::empty());
        Ok(())
    }
}

} // verus!
