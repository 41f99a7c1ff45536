//! Merges runs of adjacent, compatible `<path>` elements into one path.
use vstd::prelude::*;
use crate::text::in_table;
use crate::ast::{
    attr_get, attr_set, doc_model, doc_with_root, elem_model, has_key, node_model, nodes_model,
    AttrsM, Document, ElemM, Element, Node, NodeM, PluginError,
};
use crate::plugins::move_group_attrs_to_elems::elem_of;
use crate::text::{chars_of, contains_str, ends_with_seq, extend_chars, has_sub, owned, str_eq, string_from};
use crate::walk::{post_document, post_tree, PostRewrite};

verus! {

broadcast use vstd::string::group_string_axioms;

/// Settings of the plugin.
pub struct MergePathsConfig {
    pub force: bool,
    pub float_precision: u8,
    pub no_space_after_flags: bool,
}

impl Default for MergePathsConfig {
    fn default() -> (r: Self)
        ensures
            !r.force,
            r.float_precision == 3,
            !r.no_space_after_flags,
    {
        MergePathsConfig { force: false, float_precision: 3, no_space_after_flags: false }
    }
}

/// Plugin that merges compatible paths.
pub struct MergePathsPlugin {
    pub config: MergePathsConfig,
}

/// The attributes that must be equal on paths that merge.
pub open spec fn style_attr_names() -> Seq<&'static str> {
    seq![
        "fill",
        "stroke",
        "stroke-width",
        "stroke-linecap",
        "stroke-linejoin",
        "stroke-dasharray",
        "stroke-dashoffset",
        "opacity",
        "fill-opacity",
        "stroke-opacity",
        "fill-rule",
        "clip-path",
        "mask",
        "filter",
        "marker-start",
        "marker-mid",
        "marker-end",
        "class",
        "style",
        "transform",
    ]
}

/// The attributes whose `url(` references keep paths apart.
pub open spec fn url_attr_names() -> Seq<&'static str> {
    seq!["fill", "stroke", "clip-path", "mask", "filter"]
}

/// The attributes whose `url(` references keep paths from merging are exactly those
/// named in this statement.
pub proof fn lemma_url_attr_names_members(n: Seq<char>)
    ensures
        in_table(url_attr_names(), n) <==> (n == "fill"@
            || n == "stroke"@
            || n == "clip-path"@
            || n == "mask"@
            || n == "filter"@),
{
    if n == "fill"@ {
        assert(url_attr_names()[0]@ == n);
    }
    if n == "stroke"@ {
        assert(url_attr_names()[1]@ == n);
    }
    if n == "clip-path"@ {
        assert(url_attr_names()[2]@ == n);
    }
    if n == "mask"@ {
        assert(url_attr_names()[3]@ == n);
    }
    if n == "filter"@ {
        assert(url_attr_names()[4]@ == n);
    }
    if in_table(url_attr_names(), n) {
        let k = choose|k: int| 0 <= k < url_attr_names().len() && #[trigger] url_attr_names()[k]@ == n;
        if k == 0 {
            assert(n == "fill"@);
        }
        if k == 1 {
            assert(n == "stroke"@);
        }
        if k == 2 {
            assert(n == "clip-path"@);
        }
        if k == 3 {
            assert(n == "mask"@);
        }
        if k == 4 {
            assert(n == "filter"@);
        }
    }
}

/// Whether attribute `n` of `a` holds a `url(` reference.
pub open spec fn has_url(a: AttrsM, n: Seq<char>) -> bool {
    attr_get(a, n) is Some && has_sub(attr_get(a, n).unwrap(), "url("@)
}

/// Whether two elements are paths that can merge: both paths with path data and no
/// children, equal in every style attribute and in `transform` (joining paths drawn
/// under different transforms would move one of them, so they cannot be combined into
/// a single path), without markers, and without `url(` references in their paint,
/// clip, mask or filter.
pub open spec fn can_merge(p: ElemM, q: ElemM) -> bool {
    &&& p.name == "path"@ && q.name == "path"@
    &&& has_key(p.attrs, "d"@) && has_key(q.attrs, "d"@)
    &&& p.children.len() == 0 && q.children.len() == 0
    &&& forall|i: int|
        0 <= i < style_attr_names().len() ==> attr_get(p.attrs, #[trigger] style_attr_names()[i]@)
            == attr_get(q.attrs, style_attr_names()[i]@)
    &&& !has_key(p.attrs, "marker-start"@) && !has_key(q.attrs, "marker-start"@)
    &&& !has_key(p.attrs, "marker-mid"@) && !has_key(q.attrs, "marker-mid"@)
    &&& !has_key(p.attrs, "marker-end"@) && !has_key(q.attrs, "marker-end"@)
    &&& forall|i: int|
        0 <= i < url_attr_names().len() ==> !has_url(p.attrs, #[trigger] url_attr_names()[i]@)
            && !has_url(q.attrs, url_attr_names()[i]@)
}

/// Two path data joined: either alone when the other is empty, else with a space
/// between them unless the first already ends with one.
pub open spec fn joined_data(d1: Seq<char>, d2: Seq<char>) -> Seq<char> {
    if d1.len() == 0 {
        d2
    } else if d2.len() == 0 {
        d1
    } else if ends_with_seq(d1, " "@) {
        d1 + d2
    } else {
        d1 + seq![' '] + d2
    }
}

/// Whether a node is a `<path>` element.
pub open spec fn is_path(n: NodeM) -> bool {
    n is Element && elem_of(n).name == "path"@
}

/// The end of the run of paths from `j` on that can merge with the path at `i`.
pub open spec fn run_end(kids: Seq<NodeM>, i: int, j: int) -> int
    decreases kids.len() - j,
{
    if 0 <= j < kids.len() && is_path(kids[j]) && can_merge(elem_of(kids[i]), elem_of(kids[j])) {
        run_end(kids, i, j + 1)
    } else {
        j
    }
}

/// The path data of a node (`d`, empty when absent).
pub open spec fn data_of(n: NodeM) -> Seq<char> {
    if attr_get(elem_of(n).attrs, "d"@) is Some {
        attr_get(elem_of(n).attrs, "d"@).unwrap()
    } else {
        seq![]
    }
}

/// The path data of the nodes from `i` up to `k`, joined in order.
pub open spec fn run_data(kids: Seq<NodeM>, i: int, k: int) -> Seq<char>
    decreases k - i,
{
    if k <= i {
        seq![]
    } else {
        joined_data(run_data(kids, i, k - 1), data_of(kids[k - 1]))
    }
}

/// The children from `i` on with each run of two or more mergeable paths replaced by
/// its first path carrying the joined path data.
pub open spec fn merged_from(kids: Seq<NodeM>, i: int) -> Seq<NodeM>
    decreases kids.len() - i,
{
    if i < 0 || i >= kids.len() {
        seq![]
    } else if is_path(kids[i]) && run_end(kids, i, i + 1) > i + 1 {
        let k = run_end(kids, i, i + 1);
        let p = elem_of(kids[i]);
        proof {
            lemma_run_end(kids, i, i + 1);
        }
        seq![
            NodeM::Element(
                ElemM {
                    name: p.name,
                    attrs: attr_set(p.attrs, "d"@, run_data(kids, i, k)),
                    namespaces: p.namespaces,
                    children: p.children,
                },
            ),
        ] + merged_from(kids, k)
    } else {
        seq![kids[i]] + merged_from(kids, i + 1)
    }
}

/// `run_end` stays within bounds.
pub proof fn lemma_run_end(kids: Seq<NodeM>, i: int, j: int)
    requires
        0 <= j <= kids.len(),
    ensures
        j <= run_end(kids, i, j) <= kids.len(),
    decreases kids.len() - j,
{
    if 0 <= j < kids.len() && is_path(kids[j]) && can_merge(elem_of(kids[i]), elem_of(kids[j])) {
        lemma_run_end(kids, i, j + 1);
    }
}

/// Every path of a run is one the run's first path can merge with.
proof fn lemma_run_members(kids: Seq<NodeM>, i: int, j: int, t: int)
    requires
        0 <= i < kids.len(),
        0 <= j <= t < run_end(kids, i, j),
    ensures
        is_path(kids[t]) && can_merge(elem_of(kids[i]), elem_of(kids[t])),
    decreases kids.len() - j,
{
    if 0 <= j < kids.len() && is_path(kids[j]) && can_merge(elem_of(kids[i]), elem_of(kids[j])) {
        if t > j {
            lemma_run_members(kids, i, j + 1, t);
        }
    }
}

/// Paths that merge draw alike: any two paths that `can_merge` accepts, and so the
/// first path of a merged run and every later path of it, have the same value (or
/// absence) of each presentation attribute: `fill`, `stroke`, `stroke-width`,
/// `stroke-linecap`, `stroke-linejoin`, `stroke-dasharray`, `stroke-dashoffset`,
/// `opacity`, `fill-opacity`, `stroke-opacity`, `fill-rule`, `clip-path`, `mask`,
/// `filter`, the markers, `class`, `style` and `transform`.
pub proof fn lemma_merged_paths_agree(kids: Seq<NodeM>, i: int, t: int, n: Seq<char>)
    requires
        0 <= i < kids.len(),
        i < t < run_end(kids, i, i + 1),
        n == "fill"@ || n == "stroke"@ || n == "stroke-width"@ || n == "stroke-linecap"@ || n == "stroke-linejoin"@ || n == "stroke-dasharray"@ || n == "stroke-dashoffset"@ || n == "opacity"@ || n == "fill-opacity"@ || n == "stroke-opacity"@ || n == "fill-rule"@ || n == "clip-path"@ || n == "mask"@ || n == "filter"@ || n == "marker-start"@ || n == "marker-mid"@ || n == "marker-end"@ || n == "class"@ || n == "style"@ || n == "transform"@,
    ensures
        can_merge(elem_of(kids[i]), elem_of(kids[t])),
        attr_get(elem_of(kids[i]).attrs, n) == attr_get(elem_of(kids[t]).attrs, n),
{
    lemma_run_members(kids, i, i + 1, t);
    lemma_can_merge_agree(elem_of(kids[i]), elem_of(kids[t]), n);
}

/// Two paths that can merge have the same value (or absence) of each presentation
/// attribute listed in `lemma_merged_paths_agree`.
pub proof fn lemma_can_merge_agree(p: ElemM, q: ElemM, n: Seq<char>)
    requires
        can_merge(p, q),
        n == "fill"@ || n == "stroke"@ || n == "stroke-width"@ || n == "stroke-linecap"@ || n == "stroke-linejoin"@ || n == "stroke-dasharray"@ || n == "stroke-dashoffset"@ || n == "opacity"@ || n == "fill-opacity"@ || n == "stroke-opacity"@ || n == "fill-rule"@ || n == "clip-path"@ || n == "mask"@ || n == "filter"@ || n == "marker-start"@ || n == "marker-mid"@ || n == "marker-end"@ || n == "class"@ || n == "style"@ || n == "transform"@,
    ensures
        attr_get(p.attrs, n) == attr_get(q.attrs, n),
{
    if n == "fill"@ {
        assert(style_attr_names()[0]@ == n);
    }
    if n == "stroke"@ {
        assert(style_attr_names()[1]@ == n);
    }
    if n == "stroke-width"@ {
        assert(style_attr_names()[2]@ == n);
    }
    if n == "stroke-linecap"@ {
        assert(style_attr_names()[3]@ == n);
    }
    if n == "stroke-linejoin"@ {
        assert(style_attr_names()[4]@ == n);
    }
    if n == "stroke-dasharray"@ {
        assert(style_attr_names()[5]@ == n);
    }
    if n == "stroke-dashoffset"@ {
        assert(style_attr_names()[6]@ == n);
    }
    if n == "opacity"@ {
        assert(style_attr_names()[7]@ == n);
    }
    if n == "fill-opacity"@ {
        assert(style_attr_names()[8]@ == n);
    }
    if n == "stroke-opacity"@ {
        assert(style_attr_names()[9]@ == n);
    }
    if n == "fill-rule"@ {
        assert(style_attr_names()[10]@ == n);
    }
    if n == "clip-path"@ {
        assert(style_attr_names()[11]@ == n);
    }
    if n == "mask"@ {
        assert(style_attr_names()[12]@ == n);
    }
    if n == "filter"@ {
        assert(style_attr_names()[13]@ == n);
    }
    if n == "marker-start"@ {
        assert(style_attr_names()[14]@ == n);
    }
    if n == "marker-mid"@ {
        assert(style_attr_names()[15]@ == n);
    }
    if n == "marker-end"@ {
        assert(style_attr_names()[16]@ == n);
    }
    if n == "class"@ {
        assert(style_attr_names()[17]@ == n);
    }
    if n == "style"@ {
        assert(style_attr_names()[18]@ == n);
    }
    if n == "transform"@ {
        assert(style_attr_names()[19]@ == n);
    }
}

/// Paths that merge are plain paths: both are `<path>` elements with path data and no
/// children, neither has a marker, and neither refers through `url(` in its `fill`,
/// `stroke`, `clip-path`, `mask` or `filter`.
pub proof fn lemma_can_merge_plain(p: ElemM, q: ElemM)
    requires
        can_merge(p, q),
    ensures
        p.name == "path"@ && q.name == "path"@,
        attr_get(p.attrs, "d"@) is Some && attr_get(q.attrs, "d"@) is Some,
        p.children.len() == 0 && q.children.len() == 0,
        attr_get(p.attrs, "marker-start"@) is None && attr_get(q.attrs, "marker-start"@) is None,
        attr_get(p.attrs, "marker-mid"@) is None && attr_get(q.attrs, "marker-mid"@) is None,
        attr_get(p.attrs, "marker-end"@) is None && attr_get(q.attrs, "marker-end"@) is None,
        !has_url(p.attrs, "fill"@) && !has_url(q.attrs, "fill"@),
        !has_url(p.attrs, "stroke"@) && !has_url(q.attrs, "stroke"@),
        !has_url(p.attrs, "clip-path"@) && !has_url(q.attrs, "clip-path"@),
        !has_url(p.attrs, "mask"@) && !has_url(q.attrs, "mask"@),
        !has_url(p.attrs, "filter"@) && !has_url(q.attrs, "filter"@),
{
    assert(url_attr_names()[0]@ == "fill"@);
    assert(url_attr_names()[1]@ == "stroke"@);
    assert(url_attr_names()[2]@ == "clip-path"@);
    assert(url_attr_names()[3]@ == "mask"@);
    assert(url_attr_names()[4]@ == "filter"@);
}

impl PostRewrite for MergePathsPlugin {
    open spec fn spec_stops(&self, m: ElemM) -> bool {
        false
    }

    fn stops(&self, e: &Element) -> (b: bool) {
        false
    }

    open spec fn spec_post(&self, m: ElemM) -> ElemM {
        ElemM {
            name: m.name,
            attrs: m.attrs,
            namespaces: m.namespaces,
            children: merged_from(m.children, 0),
        }
    }

    fn post(&self, e: Element) -> (r: Element) {
        let ghost m = elem_model(e);
        proof {
            crate::ast::lemma_children_model(e);
        }
        let Element { name, attributes, namespaces, children } = e;
        let mut children = children;
        let ghost kids = m.children;
        let n = children.len();
        let mut out: Vec<Node> = Vec::new();
        let mut i: usize = 0;
        while i < n
            invariant
                n == children@.len(),
                n == kids.len(),
                kids == nodes_model(e.children@),
                0 <= i <= n,
                merged_from(kids, 0) == nodes_model(out@) + merged_from(kids, i as int),
                forall|t: int| i <= t < n ==> children@[t] == e.children@[t],
            decreases n - i,
        {
            assert(kids[i as int] == node_model(children@[i as int]));
            let path_here = match &children[i] {
                Node::Element(c) => c.is_named("path"),
                _ => false,
            };
            assert(path_here == is_path(kids[i as int]));
            let mut k = i + 1;
            if path_here {
                while k < n
                    invariant
                        n == children@.len(),
                        n == kids.len(),
                        kids == nodes_model(e.children@),
                        i < k <= n,
                        is_path(kids[i as int]),
                        run_end(kids, i as int, i + 1) == run_end(kids, i as int, k as int),
                        forall|t: int| i <= t < n ==> children@[t] == e.children@[t],
                    ensures
                        i < k <= n,
                        run_end(kids, i as int, i + 1) == k,
                    decreases n - k,
                {
                    assert(kids[k as int] == node_model(children@[k as int]));
                    let ok = match (&children[i], &children[k]) {
                        (Node::Element(p), Node::Element(q)) => q.is_named("path") && self.can_merge_paths(p, q),
                        _ => false,
                    };
                    if !ok {
                        break;
                    }
                    k += 1;
                }
            }
            assert(path_here ==> run_end(kids, i as int, i + 1) == k);
            let ghost o0 = nodes_model(out@);
            if path_here && k > i + 1 {
                let mut data = String::new();
                let mut t = i;
                while t < k
                    invariant
                        i <= t <= k <= n,
                        n == children@.len(),
                        n == kids.len(),
                        kids == nodes_model(e.children@),
                        forall|u: int| i <= u < n ==> children@[u] == e.children@[u],
                        data@ == run_data(kids, i as int, t as int),
                    decreases k - t,
                {
                    assert(kids[t as int] == node_model(children@[t as int]));
                    let d = match &children[t] {
                        Node::Element(q) => match q.attributes.get("d") {
                            Some(v) => v.clone(),
                            None => String::new(),
                        },
                        _ => String::new(),
                    };
                    data = self.merge_path_data(data.as_str(), d.as_str());
                    t += 1;
                }
                let mut tmp = Node::Text(String::new());
                std::mem::swap(&mut children[i], &mut tmp);
                match tmp {
                    Node::Element(p) => {
                        let ghost p0 = p;
                        let mut p = p;
                        p.attributes.insert(owned("d"), data);
                        proof {
                            crate::ast::lemma_children_model(p);
                            crate::ast::lemma_children_model(p0);
                        }
                        let ghost nm = node_model(Node::Element(p));
                        out.push(Node::Element(p));
                        assert(nodes_model(out@) =~= o0 + seq![nm]);
                    },
                    _ => {},
                }
                proof {
                    lemma_run_end(kids, i as int, i + 1);
                }
                assert(merged_from(kids, 0) =~= nodes_model(out@) + merged_from(kids, k as int));
                i = k;
            } else {
                let mut tmp = Node::Text(String::new());
                std::mem::swap(&mut children[i], &mut tmp);
                let ghost nm = node_model(tmp);
                out.push(tmp);
                assert(nodes_model(out@) =~= o0 + seq![nm]);
                assert(merged_from(kids, 0) =~= nodes_model(out@) + merged_from(kids, i + 1));
                i += 1;
            }
        }
        let r = Element { name, attributes, namespaces, children: out };
        assert(merged_from(kids, n as int) =~= Seq::<NodeM>::empty());
        assert(elem_model(r).children =~= merged_from(kids, 0));
        r
    }
}

impl MergePathsPlugin {
    /// The plugin with the default settings.
    pub fn new() -> (r: Self)
        ensures
            !r.config.force,
            r.config.float_precision == 3,
            !r.config.no_space_after_flags,
    {
        MergePathsPlugin { config: MergePathsConfig::default() }
    }

    /// The plugin with the given settings.
    pub fn with_config(config: MergePathsConfig) -> (r: Self)
        ensures
            r.config == config,
    {
        MergePathsPlugin { config }
    }

    /// The plugin's name.
    pub fn name(&self) -> (r: &'static str)
        ensures
            r@ == "mergePaths"@,
    {
        "mergePaths"
    }

    /// What the plugin does.
    pub fn description(&self) -> (r: &'static str)
        ensures
            r@ == "Merge compatible path elements"@,
    {
        "Merge compatible path elements"
    }

    /// Whether two paths can merge.
    pub fn can_merge_paths(&self, path1: &Element, path2: &Element) -> (r: bool)
        ensures
            r == can_merge(elem_model(*path1), elem_model(*path2)),
    {
        if !path1.is_named("path") || !path2.is_named("path") {
            return false;
        }
        if !path1.has_attr("d") || !path2.has_attr("d") {
            return false;
        }
        if path1.children.len() != 0 || path2.children.len() != 0 {
            return false;
        }
        let style: Vec<&'static str> = vec![
            "fill",
            "stroke",
            "stroke-width",
            "stroke-linecap",
            "stroke-linejoin",
            "stroke-dasharray",
            "stroke-dashoffset",
            "opacity",
            "fill-opacity",
            "stroke-opacity",
            "fill-rule",
            "clip-path",
            "mask",
            "filter",
            "marker-start",
            "marker-mid",
            "marker-end",
            "class",
            "style",
            "transform",
        ];
        assert(style@ == style_attr_names());
        let ns = style.len();
        let mut i: usize = 0;
        while i < ns
            invariant
                ns == style_attr_names().len(),
                style@ == style_attr_names(),
                0 <= i <= ns,
                forall|j: int|
                    0 <= j < i ==> attr_get(path1.attributes@, #[trigger] style_attr_names()[j]@)
                        == attr_get(path2.attributes@, style_attr_names()[j]@),
            decreases ns - i,
        {
            let a = path1.attributes.get(style[i]);
            let b = path2.attributes.get(style[i]);
            let same = match (a, b) {
                (Some(x), Some(y)) => str_eq(x.as_str(), y.as_str()),
                (None, None) => true,
                _ => false,
            };
            if !same {
                return false;
            }
            i += 1;
        }
        if path1.has_attr("marker-start") || path2.has_attr("marker-start") || path1.has_attr(
            "marker-mid",
        ) || path2.has_attr("marker-mid") || path1.has_attr("marker-end") || path2.has_attr(
            "marker-end",
        ) {
            return false;
        }
        let urls: Vec<&'static str> = vec!["fill", "stroke", "clip-path", "mask", "filter"];
        assert(urls@ == url_attr_names());
        let nu = urls.len();
        let mut i: usize = 0;
        while i < nu
            invariant
                nu == url_attr_names().len(),
                urls@ == url_attr_names(),
                0 <= i <= nu,
                forall|j: int|
                    0 <= j < i ==> !has_url(path1.attributes@, #[trigger] url_attr_names()[j]@)
                        && !has_url(path2.attributes@, url_attr_names()[j]@),
            decreases nu - i,
        {
            match path1.attributes.get(urls[i]) {
                Some(v) => {
                    if contains_str(v.as_str(), "url(") {
                        return false;
                    }
                },
                None => {},
            }
            match path2.attributes.get(urls[i]) {
                Some(v) => {
                    if contains_str(v.as_str(), "url(") {
                        return false;
                    }
                },
                None => {},
            }
            i += 1;
        }
        true
    }

    /// Two path data joined.
    pub fn merge_path_data(&self, d1: &str, d2: &str) -> (r: String)
        ensures
            r@ == joined_data(d1@, d2@),
    {
        if d1.is_empty() {
            return owned(d2);
        }
        if d2.is_empty() {
            return owned(d1);
        }
        let mut v = chars_of(d1);
        if !crate::text::ends_with_str(d1, " ") {
            v.push(' ');
        }
        extend_chars(&mut v, &chars_of(d2));
        string_from(&v)
    }

    /// Merges runs of compatible paths among the children of every element.
    pub fn apply(&self, document: &mut Document) -> (r: Result<(), PluginError>)
        ensures
            r is Ok,
            doc_model(*final(document)) == doc_with_root(
                doc_model(*old(document)),
                post_tree(*self, doc_model(*old(document)).root),
            ),
    {
        post_document(self, document);
        Ok(())
    }
}

} // verus!
