//! Cleans attribute values of newlines, surrounding and repeated white space.
use vstd::prelude::*;
use crate::ast::{
    doc_model, doc_with_root, elem_model, node_model, take_root, Attributes, AttrsM, Document,
    ElemM, Element, Node, NodeM, PluginError,
};
use crate::text::{
    chars_of, is_whitespace, is_ws, str_eq, string_from, trim_chars, trim_end_seq, trim_seq,
    trim_start_seq,
};

verus! {

broadcast use vstd::string::group_string_axioms;

/// Which cleanups to perform.
pub struct CleanupAttrsParams {
    /// Turn `\n` and `\r` into spaces.
    pub newlines: bool,
    /// Remove white space at both ends.
    pub trim: bool,
    /// Collapse each run of white space into one space.
    pub spaces: bool,
}

impl Clone for CleanupAttrsParams {
    fn clone(&self) -> (r: Self)
        ensures
            r == *self,
    {
        CleanupAttrsParams { newlines: self.newlines, trim: self.trim, spaces: self.spaces }
    }
}

impl Default for CleanupAttrsParams {
    fn default() -> (r: Self)
        ensures
            r.newlines && r.trim && r.spaces,
    {
        CleanupAttrsParams { newlines: true, trim: true, spaces: true }
    }
}

/// `s` with every `\n` and `\r` replaced by a space.
pub open spec fn newlines_to_spaces(s: Seq<char>) -> Seq<char> {
    Seq::new(s.len(), |i: int| if s[i] == '\n' || s[i] == '\r' { ' ' } else { s[i] })
}

/// `s` with every run of white space replaced by one space; `prev` says whether the
/// character before `s` was white space.
pub open spec fn collapse_ws_from(s: Seq<char>, prev: bool) -> Seq<char>
    decreases s.len(),
{
    if s.len() == 0 {
        seq![]
    } else if is_ws(s[0]) {
        if prev {
            collapse_ws_from(s.drop_first(), true)
        } else {
            seq![' '] + collapse_ws_from(s.drop_first(), true)
        }
    } else {
        seq![s[0]] + collapse_ws_from(s.drop_first(), false)
    }
}

/// The cleaned form of an attribute value.
pub open spec fn clean_value(p: CleanupAttrsParams, v: Seq<char>) -> Seq<char> {
    let a = if p.newlines { newlines_to_spaces(v) } else { v };
    let b = if p.trim { trim_seq(a) } else { a };
    let c = if p.spaces { collapse_ws_from(b, false) } else { b };
    if p.newlines || p.spaces { trim_seq(c) } else { c }
}

/// Whether a text holds no `\n` and no `\r`.
pub open spec fn no_line_breaks(s: Seq<char>) -> bool {
    forall|i: int| 0 <= i < s.len() ==> #[trigger] s[i] != '\n' && s[i] != '\r'
}

/// Whether the only white space of a text is single spaces.
pub open spec fn single_spaced(s: Seq<char>) -> bool {
    &&& forall|i: int| 0 <= i < s.len() && is_ws(#[trigger] s[i]) ==> s[i] == ' '
    &&& forall|i: int| 0 <= i < s.len() - 1 ==> !(is_ws(#[trigger] s[i]) && is_ws(s[i + 1]))
}

/// Whether a text neither starts nor ends with white space.
pub open spec fn trimmed(s: Seq<char>) -> bool {
    s.len() > 0 ==> !is_ws(s[0]) && !is_ws(s.last())
}

/// Trimming the start drops a prefix of white space.
proof fn lemma_trim_start(s: Seq<char>) -> (k: int)
    ensures
        0 <= k <= s.len(),
        trim_start_seq(s) == s.skip(k),
        k < s.len() ==> !is_ws(s[k]),
    decreases s.len(),
{
    if s.len() > 0 && is_ws(s[0]) {
        let k = lemma_trim_start(s.drop_first());
        assert(s.drop_first().skip(k) =~= s.skip(k + 1));
        k + 1
    } else {
        assert(s.skip(0) =~= s);
        0
    }
}

/// Trimming the end drops a suffix of white space.
proof fn lemma_trim_end(s: Seq<char>) -> (k: int)
    ensures
        0 <= k <= s.len(),
        trim_end_seq(s) == s.take(k),
        k > 0 ==> !is_ws(s[k - 1]),
    decreases s.len(),
{
    if s.len() > 0 && is_ws(s.last()) {
        let k = lemma_trim_end(s.drop_last());
        assert(s.drop_last().take(k) =~= s.take(k));
        k
    } else {
        assert(s.take(s.len() as int) =~= s);
        s.len() as int
    }
}

/// Trimming keeps a stretch of the text that neither starts nor ends with white space.
proof fn lemma_trim(s: Seq<char>) -> (ab: (int, int))
    ensures
        0 <= ab.0 <= ab.1 <= s.len(),
        trim_seq(s) == s.subrange(ab.0, ab.1),
        trimmed(trim_seq(s)),
{
    let a = lemma_trim_start(s);
    let t = s.skip(a);
    let k = lemma_trim_end(t);
    assert(t.take(k) =~= s.subrange(a, a + k));
    if k > 0 {
        assert(s.subrange(a, a + k)[0] == s[a]);
        assert(s.subrange(a, a + k).last() == t[k - 1]);
    }
    (a, a + k)
}

/// Collapsing white space leaves single spaces; after white space it starts with
/// none.
proof fn lemma_collapse(s: Seq<char>, prev: bool)
    ensures
        single_spaced(collapse_ws_from(s, prev)),
        prev && collapse_ws_from(s, prev).len() > 0 ==> !is_ws(collapse_ws_from(s, prev)[0]),
    decreases s.len(),
{
    if s.len() > 0 {
        let c = collapse_ws_from(s, prev);
        if is_ws(s[0]) {
            lemma_collapse(s.drop_first(), true);
            let r = collapse_ws_from(s.drop_first(), true);
            if !prev {
                assert forall|i: int| 0 <= i < c.len() && is_ws(#[trigger] c[i]) implies c[i] == ' ' by {
                    if i > 0 {
                        assert(c[i] == r[i - 1]);
                    }
                }
                assert forall|i: int| 0 <= i < c.len() - 1 implies !(is_ws(#[trigger] c[i]) && is_ws(
                    c[i + 1],
                )) by {
                    assert(c[i + 1] == r[i]);
                    if i > 0 {
                        assert(c[i] == r[i - 1]);
                    }
                }
            }
        } else {
            lemma_collapse(s.drop_first(), false);
            let r = collapse_ws_from(s.drop_first(), false);
            assert forall|i: int| 0 <= i < c.len() && is_ws(#[trigger] c[i]) implies c[i] == ' ' by {
                if i > 0 {
                    assert(c[i] == r[i - 1]);
                }
            }
            assert forall|i: int| 0 <= i < c.len() - 1 implies !(is_ws(#[trigger] c[i]) && is_ws(c[i + 1])) by {
                assert(c[i + 1] == r[i]);
                if i > 0 {
                    assert(c[i] == r[i - 1]);
                }
            }
        }
    }
}

/// Replacing line breaks leaves none.
proof fn lemma_newlines(v: Seq<char>)
    ensures
        no_line_breaks(newlines_to_spaces(v)),
{
}

/// The properties kept by taking a stretch of a text.
proof fn lemma_stretch(s: Seq<char>, a: int, b: int)
    requires
        0 <= a <= b <= s.len(),
    ensures
        no_line_breaks(s) ==> no_line_breaks(s.subrange(a, b)),
        single_spaced(s) ==> single_spaced(s.subrange(a, b)),
{
    let t = s.subrange(a, b);
    if single_spaced(s) {
        assert forall|i: int| 0 <= i < t.len() - 1 implies !(is_ws(#[trigger] t[i]) && is_ws(t[i + 1])) by {
            assert(t[i] == s[a + i] && t[i + 1] == s[a + i + 1]);
        }
        assert forall|i: int| 0 <= i < t.len() && is_ws(#[trigger] t[i]) implies t[i] == ' ' by {
            assert(t[i] == s[a + i]);
        }
    }
    if no_line_breaks(s) {
        assert forall|i: int| 0 <= i < t.len() implies #[trigger] t[i] != '\n' && t[i] != '\r' by {
            assert(t[i] == s[a + i]);
        }
    }
}

/// A single-spaced text holds no line break.
proof fn lemma_single_spaced_no_breaks(s: Seq<char>)
    requires
        single_spaced(s),
    ensures
        no_line_breaks(s),
{
    assert forall|i: int| 0 <= i < s.len() implies #[trigger] s[i] != '\n' && s[i] != '\r' by {
        if s[i] == '\n' || s[i] == '\r' {
            assert(is_ws(s[i]));
        }
    }
}

/// What cleaning leaves of a value: no line break when line breaks are turned into
/// spaces or white space is collapsed; only single spaces when white space is
/// collapsed; no white space at either end when any cleanup is on.
pub proof fn lemma_clean_value_shape(p: CleanupAttrsParams, v: Seq<char>)
    ensures
        p.newlines || p.spaces ==> no_line_breaks(clean_value(p, v)),
        p.spaces ==> single_spaced(clean_value(p, v)),
        p.newlines || p.trim || p.spaces ==> trimmed(clean_value(p, v)),
{
    let a = if p.newlines { newlines_to_spaces(v) } else { v };
    let b = if p.trim { trim_seq(a) } else { a };
    let c = if p.spaces { collapse_ws_from(b, false) } else { b };
    lemma_newlines(v);
    if p.trim {
        let (x, y) = lemma_trim(a);
        lemma_stretch(a, x, y);
    }
    if p.spaces {
        lemma_collapse(b, false);
        lemma_single_spaced_no_breaks(c);
    }
    if p.newlines || p.spaces {
        let (x, y) = lemma_trim(c);
        lemma_stretch(c, x, y);
    }
}

/// Attributes whose formatting is kept as it is.
pub open spec fn keeps_format(name: Seq<char>) -> bool {
    name == "xml:space"@ || name == "preserveAspectRatio"@ || name == "viewBox"@ || name
        == "points"@ || name == "d"@
}

/// An attribute list with each value cleaned where the name allows it.
pub open spec fn clean_attrs(p: CleanupAttrsParams, a: AttrsM) -> AttrsM {
    Seq::new(
        a.len(),
        |i: int|
            (a[i].0, if !keeps_format(a[i].0) && a[i].1.len() > 0 {
                clean_value(p, a[i].1)
            } else {
                a[i].1
            }),
    )
}

/// Cleaning keeps every attribute's name and place; the values of `xml:space`,
/// `preserveAspectRatio`, `viewBox`, `points` and `d` stay as written, and every other
/// non-empty value is cleaned.
pub proof fn lemma_clean_attrs_names(p: CleanupAttrsParams, a: AttrsM, i: int)
    requires
        0 <= i < a.len(),
    ensures
        clean_attrs(p, a).len() == a.len(),
        clean_attrs(p, a)[i].0 == a[i].0,
        (a[i].0 == "xml:space"@ || a[i].0 == "preserveAspectRatio"@ || a[i].0 == "viewBox"@ || a[i].0
            == "points"@ || a[i].0 == "d"@) ==> clean_attrs(p, a)[i].1 == a[i].1,
        !(a[i].0 == "xml:space"@ || a[i].0 == "preserveAspectRatio"@ || a[i].0 == "viewBox"@ || a[i].0
            == "points"@ || a[i].0 == "d"@) && a[i].1.len() > 0 ==> clean_attrs(p, a)[i].1 == clean_value(
            p,
            a[i].1,
        ),
{
}

/// The element tree with the attributes of every element cleaned.
pub open spec fn clean_tree(p: CleanupAttrsParams, m: ElemM) -> ElemM
    decreases m,
{
    ElemM {
        name: m.name,
        attrs: clean_attrs(p, m.attrs),
        namespaces: m.namespaces,
        children: Seq::new(
            m.children.len(),
            |i: int|
                if 0 <= i < m.children.len() {
                    clean_node(p, m.children[i])
                } else {
                    m.children[i]
                },
        ),
    }
}

/// A node with every element in it cleaned.
pub open spec fn clean_node(p: CleanupAttrsParams, n: NodeM) -> NodeM
    decreases n,
{
    match n {
        NodeM::Element(c) => NodeM::Element(clean_tree(p, c)),
        _ => n,
    }
}

/// Plugin that cleans attribute values.
pub struct CleanupAttrsPlugin {
    pub params: CleanupAttrsParams,
}

impl CleanupAttrsPlugin {
    /// The plugin with every cleanup on.
    pub fn new() -> (r: Self)
        ensures
            r.params.newlines && r.params.trim && r.params.spaces,
    {
        CleanupAttrsPlugin { params: CleanupAttrsParams::default() }
    }

    /// The plugin with the given cleanups.
    pub fn with_params(params: CleanupAttrsParams) -> (r: Self)
        ensures
            r.params == params,
    {
        CleanupAttrsPlugin { params }
    }

    /// The plugin's name.
    pub fn name(&self) -> (r: &'static str)
        ensures
            r@ == "cleanupAttrs"@,
    {
        "cleanupAttrs"
    }

    /// What the plugin does.
    pub fn description(&self) -> (r: &'static str)
        ensures
            r@ == "Cleanup attributes from newlines, trailing and repeating spaces"@,
    {
        "Cleanup attributes from newlines, trailing and repeating spaces"
    }

    /// Cleans the attribute values of every element under the root.
    pub fn apply(&self, document: &mut Document) -> (r: Result<(), PluginError>)
        ensures
            r is Ok,
            doc_model(*final(document)) == doc_with_root(
                doc_model(*old(document)),
                clean_tree(self.params, doc_model(*old(document)).root),
            ),
    {
        let visitor = CleanupAttrsVisitor::new(self.params.clone());
        let root = take_root(document);
        document.root = visitor.clean_element(root);
        assert(doc_model(*document).prologue == doc_model(*old(document)).prologue);
        Ok(())
    }
}

/// Cleans attribute values, one element at a time.
pub struct CleanupAttrsVisitor {
    pub params: CleanupAttrsParams,
}

impl CleanupAttrsVisitor {
    /// A visitor performing the given cleanups.
    pub fn new(params: CleanupAttrsParams) -> (r: Self)
        ensures
            r.params == params,
    {
        CleanupAttrsVisitor { params }
    }

    /// The cleaned form of one attribute value.
    pub fn clean_attribute_value(&self, value: &str) -> (r: String)
        ensures
            r@ == clean_value(self.params, value@),
    {
        let mut v = chars_of(value);
        if self.params.newlines {
            let n = v.len();
            let mut i: usize = 0;
            let ghost v0 = v@;
            while i < n
                invariant
                    n == v@.len(),
                    v0.len() == n,
                    0 <= i <= n,
                    forall|j: int| 0 <= j < i ==> v@[j] == newlines_to_spaces(v0)[j],
                    forall|j: int| i <= j < n ==> v@[j] == v0[j],
                decreases n - i,
            {
                if v[i] == '\n' || v[i] == '\r' {
                    v.set(i, ' ');
                }
                i += 1;
            }
            assert(v@ =~= newlines_to_spaces(v0));
        }
        if self.params.trim {
            v = trim_chars(&v);
        }
        if self.params.spaces {
            v = collapse_whitespace(&v);
        }
        if self.params.newlines || self.params.spaces {
            v = trim_chars(&v);
        }
        string_from(&v)
    }

    /// Whether the value of attribute `name` may be cleaned.
    pub fn should_cleanup_attribute(&self, name: &str) -> (r: bool)
        ensures
            r == !keeps_format(name@),
    {
        !(str_eq(name, "xml:space") || str_eq(name, "preserveAspectRatio") || str_eq(
            name,
            "viewBox",
        ) || str_eq(name, "points") || str_eq(name, "d"))
    }

    /// Cleans every value of an attribute list that may be cleaned.
    pub fn clean_attributes(&self, attrs: &mut Attributes)
        ensures
            final(attrs)@ == clean_attrs(self.params, old(attrs)@),
    {
        let n = attrs.entries.len();
        let mut i: usize = 0;
        while i < n
            invariant
                n == attrs@.len(),
                old(attrs)@.len() == n,
                0 <= i <= n,
                forall|j: int|
                    0 <= j < i ==> #[trigger] attrs@[j] == clean_attrs(self.params, old(attrs)@)[j],
                forall|j: int| i <= j < n ==> #[trigger] attrs@[j] == old(attrs)@[j],
            decreases n - i,
        {
            let name = attrs.entries[i].0.clone();
            let ghost before = attrs@;
            assert(before[i as int] == old(attrs)@[i as int]);
            assert(name@ == before[i as int].0);
            if self.should_cleanup_attribute(name.as_str()) && !attrs.entries[i].1.as_str().is_empty() {
                let cleaned = self.clean_attribute_value(attrs.entries[i].1.as_str());
                attrs.entries.set(i, (name, cleaned));
                assert(attrs@[i as int] == (name@, cleaned@));
                assert forall|j: int| 0 <= j < n && j != i implies #[trigger] attrs@[j] == before[j] by {
                }
            }
            assert(attrs@[i as int] == clean_attrs(self.params, old(attrs)@)[i as int]);
            i += 1;
        }
        assert(attrs@ =~= clean_attrs(self.params, old(attrs)@));
    }

    /// Cleans the attributes of `e` and of every element below it.
    pub fn clean_element(&self, e: Element) -> (r: Element)
        ensures
            elem_model(r) == clean_tree(self.params, elem_model(e)),
        decreases e,
    {
        let ghost e0 = e;
        let Element { name, attributes, namespaces, children } = e;
        let mut attributes = attributes;
        self.clean_attributes(&mut attributes);
        let mut children = children;
        let n = children.len();
        let mut i: usize = 0;
        while i < n
            invariant
                e == e0,
                n == children@.len(),
                n == e0.children@.len(),
                0 <= i <= n,
                forall|j: int|
                    0 <= j < i ==> node_model(#[trigger] children@[j]) == clean_node(
                        self.params,
                        node_model(e0.children@[j]),
                    ),
                forall|j: int| i <= j < n ==> children@[j] == e0.children@[j],
            decreases n - i,
        {
            let mut tmp = Node::Text(String::new());
            std::mem::swap(&mut children[i], &mut tmp);
            let next = match tmp {
                Node::Element(c) => {
                    proof {
                        assert(decreases_to!(e0 => e0.children));
                        assert(decreases_to!(e0.children => e0.children[i as int]));
                        assert(decreases_to!(e0 => c));
                    }
                    Node::Element(self.clean_element(c))
                },
                other => other,
            };
            children.set(i, next);
            i += 1;
        }
        let r = Element { name, attributes, namespaces, children };
        assert(elem_model(r).children =~= clean_tree(self.params, elem_model(e0)).children);
        r
    }
}

/// `v` with every run of white space replaced by one space.
pub fn collapse_whitespace(v: &Vec<char>) -> (r: Vec<char>)
    ensures
        r@ == collapse_ws_from(v@, false),
{
    let n = v.len();
    let mut out: Vec<char> = Vec::new();
    let mut prev = false;
    let mut i: usize = 0;
    assert(v@.skip(0) =~= v@);
    while i < n
        invariant
            n == v@.len(),
            0 <= i <= n,
            collapse_ws_from(v@, false) == out@ + collapse_ws_from(v@.skip(i as int), prev),
        decreases n - i,
    {
        let c = v[i];
        assert(v@.skip(i as int).drop_first() =~= v@.skip(i + 1));
        assert(v@.skip(i as int)[0] == c);
        if is_whitespace(c) {
            if !prev {
                out.push(' ');
                prev = true;
            }
        } else {
            out.push(c);
            prev = false;
        }
        i += 1;
    }
    assert(v@.skip(n as int) =~= Seq::<char>::empty());
    out
}

} // verus!
