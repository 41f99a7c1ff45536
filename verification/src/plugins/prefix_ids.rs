//! Prefixes IDs and class names, and the references to them, with a fixed string or
//! one made from the document's file name.
use vstd::prelude::*;
use crate::ast::{
    doc_model, doc_with_root, elem_model, node_model, take_root, AttrsM, DocM, Document, ElemM,
    Element, Node, NodeM, PluginError,
};
use crate::plugins::cleanup_ids::{is_reference_prop, is_reference_prop_exec};
use crate::refs::{
    ascii_alpha, first_from, first_from_exec, is_word_char, lemma_first_from, url_match,
    url_match_exec, url_open_at, url_open_at_exec, word_char,
};
use crate::text::{
    chars_of, ends_with_seq, ends_with_str, extend_chars, owned, slice_chars, split_whitespace,
    starts_with_seq, starts_with_str, str_eq, string_from, trim_chars, trim_seq, words,
};

verus! {

broadcast use vstd::string::group_string_axioms;

/// Settings of the plugin.
pub struct PrefixIdsConfig {
    /// The prefix; when absent it is made from the document's file name.
    pub prefix: Option<String>,
    /// What goes between the prefix and the name.
    pub delim: String,
    /// Prefix IDs.
    pub prefix_ids: bool,
    /// Prefix class names.
    pub prefix_class_names: bool,
}

impl Default for PrefixIdsConfig {
    fn default() -> (r: Self)
        ensures
            r.prefix.is_none(),
            r.delim@ == "__"@,
            r.prefix_ids,
            r.prefix_class_names,
    {
        PrefixIdsConfig { prefix: None, delim: owned("__"), prefix_ids: true, prefix_class_names: true }
    }
}

/// Plugin that prefixes IDs and class names.
pub struct PrefixIdsPlugin {
    pub config: PrefixIdsConfig,
}

/// A name with the prefix put before it, unless it already starts with the prefix.
pub open spec fn prefixed(prefix: Seq<char>, id: Seq<char>) -> Seq<char> {
    if starts_with_seq(id, prefix) {
        id
    } else {
        prefix + id
    }
}

/// A `#ID` reference with its ID prefixed; `None` for a text without the leading `#`.
pub open spec fn prefixed_ref(prefix: Seq<char>, r: Seq<char>) -> Option<Seq<char>> {
    if r.len() > 0 && r[0] == '#' {
        Some(seq!['#'] + prefixed(prefix, r.skip(1)))
    } else {
        None
    }
}

/// `s` with every `.` and space made `_`.
pub open spec fn escaped(s: Seq<char>) -> Seq<char> {
    Seq::new(s.len(), |i: int| if s[i] == '.' || s[i] == ' ' { '_' } else { s[i] })
}

/// Whether `c` separates the parts of a path.
pub open spec fn is_path_sep(c: char) -> bool {
    c == '/' || c == '\\'
}

/// The index of the last separator before index `j`, or -1.
pub open spec fn last_sep_before(s: Seq<char>, j: int) -> int
    decreases j,
{
    if j <= 0 {
        -1
    } else if is_path_sep(s[j - 1]) {
        j - 1
    } else {
        last_sep_before(s, j - 1)
    }
}

/// The part of a path after its last separator; empty when the path is empty or
/// ends with a separator.
pub open spec fn basename(s: Seq<char>) -> Seq<char> {
    if s.len() == 0 || is_path_sep(s.last()) {
        seq![]
    } else {
        s.skip(last_sep_before(s, s.len() as int) + 1)
    }
}

/// The prefix used for a document with file path `path`: the configured prefix, else
/// the escaped file name, else `prefix`; then the delimiter.
pub open spec fn prefix_for(cfg: PrefixIdsConfig, path: Option<Seq<char>>) -> Seq<char> {
    if cfg.prefix is Some {
        cfg.prefix.unwrap()@ + cfg.delim@
    } else if path is Some && basename(path.unwrap()).len() > 0 {
        escaped(basename(path.unwrap())) + cfg.delim@
    } else {
        "prefix"@ + cfg.delim@
    }
}

/// Whether `url(q#ID q)`, with quote `q` and an ID free of `q`, starts at `i`.
pub open spec fn quoted_url_match(s: Seq<char>, i: int, q: char) -> bool {
    &&& url_open_at(s, i)
    &&& i + 6 <= s.len() && s[i + 4] == q && s[i + 5] == '#'
    &&& first_from(s, i + 6, q) > i + 6
    &&& first_from(s, i + 6, q) + 1 < s.len()
    &&& s[first_from(s, i + 6, q) + 1] == ')'
}

/// `s` from `i` on with the ID of every `url(q#ID q)` prefixed.
pub open spec fn quoted_urls_from(s: Seq<char>, i: int, q: char, prefix: Seq<char>) -> Seq<char>
    decreases s.len() - i,
{
    if i >= s.len() || i < 0 {
        seq![]
    } else if quoted_url_match(s, i, q) {
        let k = first_from(s, i + 6, q);
        seq!['u', 'r', 'l', '(', q, '#'] + prefixed(prefix, s.subrange(i + 6, k)) + seq![q, ')']
            + quoted_urls_from(s, k + 2, q, prefix)
    } else {
        seq![s[i]] + quoted_urls_from(s, i + 1, q, prefix)
    }
}

/// `s` from `i` on with the ID of every unquoted `url(#ID)` prefixed.
pub open spec fn plain_urls_from(s: Seq<char>, i: int, prefix: Seq<char>) -> Seq<char>
    decreases s.len() - i,
{
    if i >= s.len() || i < 0 {
        seq![]
    } else if url_match(s, i) {
        let k = first_from(s, i + 5, ')');
        seq!['u', 'r', 'l', '(', '#'] + prefixed(prefix, s.subrange(i + 5, k)) + seq![')']
            + plain_urls_from(s, k + 1, prefix)
    } else {
        seq![s[i]] + plain_urls_from(s, i + 1, prefix)
    }
}

/// A value with the IDs of its `url()` references prefixed: double-quoted ones first,
/// then single-quoted ones, then unquoted ones.
pub open spec fn urls_prefixed(s: Seq<char>, prefix: Seq<char>) -> Seq<char> {
    plain_urls_from(
        quoted_urls_from(quoted_urls_from(s, 0, '"', prefix), 0, '\'', prefix),
        0,
        prefix,
    )
}

/// One `;`-separated part of a timing value, trimmed, with the ID of an `ID.end` or
/// `ID.start` reference prefixed.
pub open spec fn timing_part(prefix: Seq<char>, part: Seq<char>) -> Seq<char> {
    let t = trim_seq(part);
    if ends_with_seq(t, ".end"@) || ends_with_seq(t, ".start"@) {
        let d = first_from(t, 0, '.');
        prefixed(prefix, t.take(d)) + seq!['.'] + t.skip(d + 1)
    } else {
        t
    }
}

/// The parts of `s` from `i` on, split at `;`, each processed and joined with `; `.
pub open spec fn timing_from(s: Seq<char>, i: int, prefix: Seq<char>) -> Seq<char>
    decreases s.len() - i,
{
    if i < 0 || i > s.len() {
        seq![]
    } else {
        let k = first_from(s, i, ';');
        if k >= s.len() {
            timing_part(prefix, s.subrange(i, s.len() as int))
        } else {
            proof {
                lemma_first_from(s, i, ';');
            }
            timing_part(prefix, s.subrange(i, k)) + "; "@ + timing_from(s, k + 1, prefix)
        }
    }
}

/// Whether `c` may continue a CSS name (`[\w-]`).
pub open spec fn name_char(c: char) -> bool {
    word_char(c) || c == '-'
}

/// The end of the run of name characters starting at `from`.
pub open spec fn name_end(s: Seq<char>, from: int) -> int
    decreases s.len() - from,
{
    if from >= s.len() || from < 0 {
        s.len() as int
    } else if !name_char(s[from]) {
        from
    } else {
        name_end(s, from + 1)
    }
}

/// Whether a character is white space between style sheet tokens.
pub open spec fn css_space(ch: char) -> bool {
    ch == ' ' || ch == '\t' || ch == '\n' || ch == '\r' || ch == '\x0C'
}

/// Where a reader of a style sheet stands: inside a declaration block or not, whether
/// the text since the last `{`, `}` or `;` has begun, the at-keyword it began with
/// (empty when it began otherwise), and whether that keyword is still being read.
pub struct CssCtx {
    pub in_decl: bool,
    pub started: bool,
    pub keyword: Seq<char>,
    pub in_keyword: bool,
}

/// Whether an at-rule of that keyword holds rules rather than declarations.
pub open spec fn grouping_keyword(k: Seq<char>) -> bool {
    k == "media"@ || k == "supports"@ || k == "document"@ || k == "-moz-document"@ || k
        == "container"@ || k == "layer"@ || k == "scope"@ || k == "starting-style"@
}

/// Whether a character can continue an at-keyword.
pub open spec fn keyword_char(ch: char) -> bool {
    ('a' <= ch <= 'z') || ('A' <= ch <= 'Z') || ch == '-'
}

/// The reader before any text.
pub open spec fn css_start() -> CssCtx {
    CssCtx { in_decl: false, started: false, keyword: seq![], in_keyword: false }
}

/// Reading one more character of a style sheet. A block opened after the prelude of a
/// grouping at-rule (`@media ... {`) holds rules; any other block holds declarations.
pub open spec fn css_step(st: CssCtx, ch: char) -> CssCtx {
    if ch == '{' {
        CssCtx {
            in_decl: !(st.started && grouping_keyword(st.keyword)),
            started: false,
            keyword: seq![],
            in_keyword: false,
        }
    } else if ch == '}' {
        css_start()
    } else if ch == ';' {
        CssCtx { in_decl: st.in_decl, started: false, keyword: seq![], in_keyword: false }
    } else if !st.started {
        if css_space(ch) {
            st
        } else {
            CssCtx { in_decl: st.in_decl, started: true, keyword: seq![], in_keyword: ch == '@' }
        }
    } else if st.in_keyword && keyword_char(ch) {
        CssCtx { in_decl: st.in_decl, started: true, keyword: st.keyword.push(ch), in_keyword: true }
    } else {
        CssCtx { in_decl: st.in_decl, started: true, keyword: st.keyword, in_keyword: false }
    }
}

/// Where a reader stands after the given style sheet text.
pub open spec fn css_ctx(s: Seq<char>) -> CssCtx
    decreases s.len(),
{
    if s.len() == 0 {
        css_start()
    } else {
        css_step(css_ctx(s.drop_last()), s.last())
    }
}

/// Whether a selector `c` followed by a name starting with an ASCII letter starts at
/// `i`, outside any declaration block (so `#fff` in `fill: #fff` is no selector).
pub open spec fn selector_match(s: Seq<char>, i: int, c: char) -> bool {
    0 <= i && i + 1 < s.len() && s[i] == c && ascii_alpha(s[i + 1]) && !css_ctx(s.take(i)).in_decl
}

/// `s` from `i` on with the name of every `c`-selector prefixed.
pub open spec fn selectors_from(s: Seq<char>, i: int, c: char, prefix: Seq<char>) -> Seq<char>
    decreases s.len() - i,
{
    if i >= s.len() || i < 0 {
        seq![]
    } else if selector_match(s, i, c) {
        let e = name_end(s, i + 2);
        proof {
            lemma_name_end(s, i + 2);
        }
        seq![c] + prefixed(prefix, s.subrange(i + 1, e)) + selectors_from(s, e, c, prefix)
    } else {
        seq![s[i]] + selectors_from(s, i + 1, c, prefix)
    }
}

/// Style sheet text with `#id` selectors (when IDs are prefixed) and `.class`
/// selectors (when class names are) prefixed, then its `url()` references.
pub open spec fn style_prefixed(cfg: PrefixIdsConfig, s: Seq<char>, prefix: Seq<char>) -> Seq<char> {
    let a = if cfg.prefix_ids {
        selectors_from(s, 0, '#', prefix)
    } else {
        s
    };
    let b = if cfg.prefix_class_names {
        selectors_from(a, 0, '.', prefix)
    } else {
        a
    };
    urls_prefixed(b, prefix)
}

/// The words joined with single spaces.
pub open spec fn join_spaced(ws: Seq<Seq<char>>) -> Seq<char>
    decreases ws.len(),
{
    if ws.len() == 0 {
        seq![]
    } else if ws.len() == 1 {
        ws[0]
    } else {
        join_spaced(ws.drop_last()) + seq![' '] + ws.last()
    }
}

/// The class names of a `class` value, each prefixed, joined with single spaces.
pub open spec fn classes_prefixed(prefix: Seq<char>, v: Seq<char>) -> Seq<char> {
    join_spaced(Seq::new(words(v).len(), |i: int| prefixed(prefix, words(v)[i])))
}

/// The new value of attribute `k` with value `v`; empty values stay.
pub open spec fn prefixed_attr(cfg: PrefixIdsConfig, prefix: Seq<char>, k: Seq<char>, v: Seq<char>) -> Seq<char> {
    if v.len() == 0 {
        v
    } else if k == "id"@ {
        if cfg.prefix_ids {
            prefixed(prefix, v)
        } else {
            v
        }
    } else if k == "class"@ {
        if cfg.prefix_class_names {
            classes_prefixed(prefix, v)
        } else {
            v
        }
    } else if k == "href"@ || k == "xlink:href"@ {
        if prefixed_ref(prefix, v) is Some {
            prefixed_ref(prefix, v).unwrap()
        } else {
            v
        }
    } else if is_reference_prop(k) {
        urls_prefixed(v, prefix)
    } else if k == "begin"@ || k == "end"@ {
        timing_from(v, 0, prefix)
    } else {
        v
    }
}

/// The attributes of an element, each processed.
pub open spec fn prefixed_attrs(cfg: PrefixIdsConfig, prefix: Seq<char>, a: AttrsM) -> AttrsM {
    Seq::new(a.len(), |i: int| (a[i].0, prefixed_attr(cfg, prefix, a[i].0, a[i].1)))
}

/// The tree with every element's attributes processed and the text of every
/// `<style>` element's text children prefixed.
pub open spec fn prefixed_tree(cfg: PrefixIdsConfig, prefix: Seq<char>, m: ElemM) -> ElemM
    decreases m,
{
    ElemM {
        name: m.name,
        attrs: prefixed_attrs(cfg, prefix, m.attrs),
        namespaces: m.namespaces,
        children: Seq::new(
            m.children.len(),
            |i: int|
                if 0 <= i < m.children.len() {
                    prefixed_node(cfg, prefix, m.name == "style"@, m.children[i])
                } else {
                    m.children[i]
                },
        ),
    }
}

/// A node processed; `in_style` says whether its parent is a `<style>` element.
pub open spec fn prefixed_node(cfg: PrefixIdsConfig, prefix: Seq<char>, in_style: bool, n: NodeM) -> NodeM
    decreases n,
{
    match n {
        NodeM::Element(c) => NodeM::Element(prefixed_tree(cfg, prefix, c)),
        NodeM::Text(t) => if in_style {
            NodeM::Text(style_prefixed(cfg, t, prefix))
        } else {
            n
        },
        _ => n,
    }
}

/// Facts about `name_end`.
pub proof fn lemma_name_end(s: Seq<char>, from: int)
    requires
        0 <= from,
    ensures
        from <= name_end(s, from) <= s.len() || (from > s.len() && name_end(s, from) == s.len()),
        name_end(s, from) < s.len() ==> !name_char(s[name_end(s, from)]),
    decreases s.len() - from,
{
    if from < s.len() && name_char(s[from]) {
        lemma_name_end(s, from + 1);
    }
}

/// `id` with `prefix` put before it unless it starts with it (on characters).
fn prefixed_chars(prefix: &Vec<char>, id: &Vec<char>) -> (r: Vec<char>)
    ensures
        r@ == prefixed(prefix@, id@),
{
    if crate::text::occurs_at_exec(id, prefix, 0) {
        id.clone()
    } else {
        let mut r = prefix.clone();
        extend_chars(&mut r, id);
        r
    }
}

/// Whether `url(q#ID q)` starts at `i`; if so, the index of its closing quote.
fn quoted_url_match_exec(v: &Vec<char>, i: usize, q: char) -> (r: Option<usize>)
    ensures
        r.is_some() == quoted_url_match(v@, i as int, q),
        r.is_some() ==> r.unwrap() == first_from(v@, i + 6, q),
{
    if !url_open_at_exec(v, i) || v.len() - i < 6 || v[i + 4] != q || v[i + 5] != '#' {
        return None;
    }
    let k = first_from_exec(v, i + 6, q);
    if k > i + 6 && k < v.len() && k + 1 < v.len() && v[k + 1] == ')' {
        Some(k)
    } else {
        None
    }
}

/// Every `url(q#ID q)` of `v` with its ID prefixed (computed).
fn quoted_urls_exec(v: &Vec<char>, q: char, prefix: &Vec<char>) -> (r: Vec<char>)
    ensures
        r@ == quoted_urls_from(v@, 0, q, prefix@),
{
    let n = v.len();
    let mut out: Vec<char> = Vec::new();
    let mut i: usize = 0;
    while i < n
        invariant
            n == v@.len(),
            0 <= i <= n,
            quoted_urls_from(v@, 0, q, prefix@) == out@ + quoted_urls_from(v@, i as int, q, prefix@),
        decreases n - i,
    {
        match quoted_url_match_exec(v, i, q) {
            Some(k) => {
                let id = slice_chars(v, i + 6, k);
                let p = prefixed_chars(prefix, &id);
                let ghost before = out@;
                out.push('u');
                out.push('r');
                out.push('l');
                out.push('(');
                out.push(q);
                out.push('#');
                extend_chars(&mut out, &p);
                out.push(q);
                out.push(')');
                assert(out@ =~= before + (seq!['u', 'r', 'l', '(', q, '#'] + p@ + seq![q, ')']));
                i = k + 2;
            },
            None => {
                out.push(v[i]);
                i += 1;
            },
        }
    }
    assert(quoted_urls_from(v@, i as int, q, prefix@) =~= seq![]);
    assert(out@ + seq![] =~= out@);
    out
}

/// Every unquoted `url(#ID)` of `v` with its ID prefixed (computed).
fn plain_urls_exec(v: &Vec<char>, prefix: &Vec<char>) -> (r: Vec<char>)
    ensures
        r@ == plain_urls_from(v@, 0, prefix@),
{
    let n = v.len();
    let mut out: Vec<char> = Vec::new();
    let mut i: usize = 0;
    while i < n
        invariant
            n == v@.len(),
            0 <= i <= n,
            plain_urls_from(v@, 0, prefix@) == out@ + plain_urls_from(v@, i as int, prefix@),
        decreases n - i,
    {
        match url_match_exec(v, i) {
            Some(k) => {
                let id = slice_chars(v, i + 5, k);
                let p = prefixed_chars(prefix, &id);
                let ghost before = out@;
                out.push('u');
                out.push('r');
                out.push('l');
                out.push('(');
                out.push('#');
                extend_chars(&mut out, &p);
                out.push(')');
                assert(out@ =~= before + (seq!['u', 'r', 'l', '(', '#'] + p@ + seq![')']));
                i = k + 1;
            },
            None => {
                out.push(v[i]);
                i += 1;
            },
        }
    }
    assert(plain_urls_from(v@, i as int, prefix@) =~= seq![]);
    assert(out@ + seq![] =~= out@);
    out
}

/// `urls_prefixed` on characters.
fn urls_prefixed_chars(v: &Vec<char>, prefix: &Vec<char>) -> (r: Vec<char>)
    ensures
        r@ == urls_prefixed(v@, prefix@),
{
    let a = quoted_urls_exec(v, '"', prefix);
    let b = quoted_urls_exec(&a, '\'', prefix);
    plain_urls_exec(&b, prefix)
}

/// The end of the run of name characters starting at `from` (computed).
fn name_end_exec(v: &Vec<char>, from: usize) -> (r: usize)
    requires
        from <= v@.len(),
    ensures
        r == name_end(v@, from as int),
{
    let n = v.len();
    let mut i = from;
    while i < n && (is_word_char(v[i]) || v[i] == '-')
        invariant
            n == v@.len(),
            from <= i <= n,
            name_end(v@, from as int) == name_end(v@, i as int),
        decreases n - i,
    {
        i += 1;
    }
    i
}

/// Where a reader of a style sheet stands (computed).
struct CssCursor {
    in_decl: bool,
    started: bool,
    keyword: Vec<char>,
    in_keyword: bool,
}

impl CssCursor {
    spec fn view(&self) -> CssCtx {
        CssCtx {
            in_decl: self.in_decl,
            started: self.started,
            keyword: self.keyword@,
            in_keyword: self.in_keyword,
        }
    }
}

/// Whether an at-rule of that keyword holds rules (computed).
fn grouping_keyword_exec(k: &Vec<char>) -> (r: bool)
    ensures
        r == grouping_keyword(k@),
{
    let t = string_from(k);
    let s = t.as_str();
    str_eq(s, "media") || str_eq(s, "supports") || str_eq(s, "document") || str_eq(s, "-moz-document")
        || str_eq(s, "container") || str_eq(s, "layer") || str_eq(s, "scope") || str_eq(
        s,
        "starting-style",
    )
}

/// Reading one more character of a style sheet (computed).
fn css_step_exec(st: &mut CssCursor, ch: char)
    ensures
        final(st).view() == css_step(old(st).view(), ch),
{
    if ch == '{' {
        let d = !(st.started && grouping_keyword_exec(&st.keyword));
        st.in_decl = d;
        st.started = false;
        st.keyword = Vec::new();
        st.in_keyword = false;
        assert(st.view().keyword =~= seq![]);
    } else if ch == '}' {
        st.in_decl = false;
        st.started = false;
        st.keyword = Vec::new();
        st.in_keyword = false;
        assert(st.view().keyword =~= seq![]);
    } else if ch == ';' {
        st.started = false;
        st.keyword = Vec::new();
        st.in_keyword = false;
        assert(st.view().keyword =~= seq![]);
    } else if !st.started {
        if !(ch == ' ' || ch == '\t' || ch == '\n' || ch == '\r' || ch == '\x0C') {
            st.started = true;
            st.keyword = Vec::new();
            st.in_keyword = ch == '@';
            assert(st.view().keyword =~= seq![]);
        }
    } else if st.in_keyword && (('a' <= ch && ch <= 'z') || ('A' <= ch && ch <= 'Z') || ch == '-') {
        st.keyword.push(ch);
    } else {
        st.in_keyword = false;
    }
}

/// Every `c`-selector of `v` with its name prefixed (computed).
fn selectors_exec(v: &Vec<char>, c: char, prefix: &Vec<char>) -> (r: Vec<char>)
    ensures
        r@ == selectors_from(v@, 0, c, prefix@),
{
    let n = v.len();
    let mut out: Vec<char> = Vec::new();
    let mut ctx = CssCursor { in_decl: false, started: false, keyword: Vec::new(), in_keyword: false };
    assert(ctx.view() == css_start()) by {
        assert(ctx.view().keyword =~= seq![]);
    }
    let mut i: usize = 0;
    assert(v@.take(0) =~= Seq::<char>::empty());
    while i < n
        invariant
            n == v@.len(),
            0 <= i <= n,
            ctx.view() == css_ctx(v@.take(i as int)),
            selectors_from(v@, 0, c, prefix@) == out@ + selectors_from(v@, i as int, c, prefix@),
        decreases n - i,
    {
        assert(v@.take(i + 1).drop_last() =~= v@.take(i as int));
        if i + 1 < n && v[i] == c && (('a' <= v[i + 1] && v[i + 1] <= 'z') || ('A' <= v[i + 1]
            && v[i + 1] <= 'Z')) && !ctx.in_decl {
            let e = name_end_exec(v, i + 2);
            proof {
                lemma_name_end(v@, i + 2);
            }
            let mut k: usize = i;
            while k < e
                invariant
                    i <= k <= e <= n,
                    n == v@.len(),
                    ctx.view() == css_ctx(v@.take(k as int)),
                decreases e - k,
            {
                assert(v@.take(k + 1).drop_last() =~= v@.take(k as int));
                css_step_exec(&mut ctx, v[k]);
                k += 1;
            }
            let name = slice_chars(v, i + 1, e);
            let p = prefixed_chars(prefix, &name);
            let ghost before = out@;
            out.push(c);
            extend_chars(&mut out, &p);
            assert(out@ =~= before + (seq![c] + p@));
            i = e;
        } else {
            css_step_exec(&mut ctx, v[i]);
            out.push(v[i]);
            i += 1;
        }
    }
    assert(selectors_from(v@, i as int, c, prefix@) =~= seq![]);
    assert(out@ + seq![] =~= out@);
    out
}

/// One part of a timing value processed (computed).
fn timing_part_exec(prefix: &Vec<char>, part: &Vec<char>) -> (r: Vec<char>)
    ensures
        r@ == timing_part(prefix@, part@),
{
    let t = trim_chars(part);
    let ts = string_from(&t);
    if ends_with_str(ts.as_str(), ".end") || ends_with_str(ts.as_str(), ".start") {
        let d = first_from_exec(&t, 0, '.');
        proof {
            lemma_first_from(t@, 0, '.');
            reveal_strlit(".end");
            reveal_strlit(".start");
            if ends_with_seq(t@, ".end"@) {
                assert(t@.subrange(t@.len() - 4, t@.len() as int)[0] == '.');
                assert(t@[t@.len() - 4] == '.');
            } else {
                assert(t@.subrange(t@.len() - 6, t@.len() as int)[0] == '.');
                assert(t@[t@.len() - 6] == '.');
            }
            assert(d < t@.len());
        }
        let id = slice_chars(&t, 0, d);
        assert(id@ =~= t@.take(d as int));
        let mut r = prefixed_chars(prefix, &id);
        r.push('.');
        let rest = if d < t.len() {
            slice_chars(&t, d + 1, t.len())
        } else {
            Vec::new()
        };
        assert(rest@ =~= t@.skip(d + 1));
        extend_chars(&mut r, &rest);
        r
    } else {
        t
    }
}

impl PrefixIdsPlugin {
    /// The plugin with the default settings.
    pub fn new() -> (r: Self)
        ensures
            r.config.prefix.is_none(),
            r.config.delim@ == "__"@,
            r.config.prefix_ids,
            r.config.prefix_class_names,
    {
        PrefixIdsPlugin { config: PrefixIdsConfig::default() }
    }

    /// The plugin with the given settings.
    pub fn with_config(config: PrefixIdsConfig) -> (r: Self)
        ensures
            r.config == config,
    {
        PrefixIdsPlugin { config }
    }

    /// The plugin's name.
    pub fn name(&self) -> (r: &'static str)
        ensures
            r@ == "prefixIds"@,
    {
        "prefixIds"
    }

    /// What the plugin does.
    pub fn description(&self) -> (r: &'static str)
        ensures
            r@ == "prefix IDs"@,
    {
        "prefix IDs"
    }

    /// The part of a path after its last `/` or `\`.
    pub fn get_basename(path: &str) -> (r: String)
        ensures
            r@ == basename(path@),
    {
        let v = chars_of(path);
        let n = v.len();
        if n == 0 || v[n - 1] == '/' || v[n - 1] == '\\' {
            return String::new();
        }
        let mut j = n;
        while j > 0 && !(v[j - 1] == '/' || v[j - 1] == '\\')
            invariant
                n == v@.len(),
                0 <= j <= n,
                last_sep_before(v@, n as int) == last_sep_before(v@, j as int),
            decreases j,
        {
            j -= 1;
        }
        assert(last_sep_before(v@, n as int) + 1 == j);
        let r = slice_chars(&v, j, n);
        assert(r@ =~= v@.skip(j as int));
        string_from(&r)
    }

    /// `s` with every `.` and space made `_`.
    pub fn escape_identifier_name(s: &str) -> (r: String)
        ensures
            r@ == escaped(s@),
    {
        let v = chars_of(s);
        let mut out: Vec<char> = Vec::new();
        let n = v.len();
        let mut i: usize = 0;
        while i < n
            invariant
                n == v@.len(),
                0 <= i <= n,
                out@ =~= escaped(v@).take(i as int),
            decreases n - i,
        {
            let c = v[i];
            out.push(if c == '.' || c == ' ' { '_' } else { c });
            i += 1;
        }
        assert(escaped(v@).take(n as int) =~= escaped(v@));
        string_from(&out)
    }

    /// The prefix for a document: the configured prefix, else the escaped file name,
    /// else `prefix`; then the delimiter.
    pub fn generate_prefix(&self, document: &Document) -> (r: String)
        ensures
            r@ == prefix_for(self.config, doc_model(*document).path),
    {
        let mut out: Vec<char> = Vec::new();
        match &self.config.prefix {
            Some(p) => {
                out = chars_of(p.as_str());
            },
            None => {
                let mut done = false;
                match &document.path {
                    Some(path) => {
                        let base = Self::get_basename(path.as_str());
                        if !base.as_str().is_empty() {
                            out = chars_of(Self::escape_identifier_name(base.as_str()).as_str());
                            done = true;
                        }
                    },
                    None => {},
                }
                if !done {
                    out = chars_of("prefix");
                }
            },
        }
        let d = chars_of(self.config.delim.as_str());
        extend_chars(&mut out, &d);
        string_from(&out)
    }

    /// `id` with `prefix` put before it, unless it already starts with it.
    pub fn prefix_id(&self, prefix: &str, id: &str) -> (r: String)
        ensures
            r@ == prefixed(prefix@, id@),
    {
        if starts_with_str(id, prefix) {
            owned(id)
        } else {
            let mut v = chars_of(prefix);
            let w = chars_of(id);
            extend_chars(&mut v, &w);
            string_from(&v)
        }
    }

    /// A `#ID` reference with its ID prefixed; `None` without the leading `#`.
    pub fn prefix_reference(&self, prefix: &str, reference: &str) -> (r: Option<String>)
        ensures
            match r {
                Some(s) => prefixed_ref(prefix@, reference@) == Some(s@),
                None => prefixed_ref(prefix@, reference@).is_none(),
            },
    {
        let v = chars_of(reference);
        if v.len() > 0 && v[0] == '#' {
            let id = slice_chars(&v, 1, v.len());
            assert(id@ =~= reference@.skip(1));
            let p = prefixed_chars(&chars_of(prefix), &id);
            let mut out: Vec<char> = Vec::new();
            out.push('#');
            extend_chars(&mut out, &p);
            assert(out@ =~= seq!['#'] + p@);
            Some(string_from(&out))
        } else {
            None
        }
    }

    /// A value with the IDs of its `url()` references prefixed.
    pub fn process_url_references(&self, value: &str, prefix: &str) -> (r: String)
        ensures
            r@ == urls_prefixed(value@, prefix@),
    {
        let r = urls_prefixed_chars(&chars_of(value), &chars_of(prefix));
        string_from(&r)
    }

    /// A timing value (`begin`, `end`) with the IDs of its `ID.end` and `ID.start`
    /// references prefixed, its parts trimmed and joined with `; `.
    pub fn process_animation_references(&self, value: &str, prefix: &str) -> (r: String)
        ensures
            r@ == timing_from(value@, 0, prefix@),
    {
        let v = chars_of(value);
        let p = chars_of(prefix);
        let n = v.len();
        let mut out: Vec<char> = Vec::new();
        let mut i: usize = 0;
        loop
            invariant_except_break
                n == v@.len(),
                0 <= i <= n,
                timing_from(v@, 0, p@) == out@ + timing_from(v@, i as int, p@),
            ensures
                timing_from(v@, 0, p@) == out@,
            decreases n - i,
        {
            let k = first_from_exec(&v, i, ';');
            proof {
                lemma_first_from(v@, i as int, ';');
            }
            let part = slice_chars(&v, i, k);
            let t = timing_part_exec(&p, &part);
            let ghost before = out@;
            extend_chars(&mut out, &t);
            if k >= n {
                assert(timing_from(v@, i as int, p@) == t@);
                break;
            }
            out.push(';');
            out.push(' ');
            assert(out@ =~= before + t@ + "; "@) by {
                reveal_strlit("; ");
            }
            assert(before + timing_from(v@, i as int, p@) =~= before + t@ + "; "@ + timing_from(v@, k + 1, p@));
            i = k + 1;
        }
        string_from(&out)
    }

    /// Style sheet text with its selectors and `url()` references prefixed.
    pub fn process_style_content(&self, content: &str, prefix: &str) -> (r: String)
        ensures
            r@ == style_prefixed(self.config, content@, prefix@),
    {
        let p = chars_of(prefix);
        let mut v = chars_of(content);
        if self.config.prefix_ids {
            v = selectors_exec(&v, '#', &p);
        }
        if self.config.prefix_class_names {
            v = selectors_exec(&v, '.', &p);
        }
        string_from(&urls_prefixed_chars(&v, &p))
    }

    /// The class names of a `class` value, each prefixed, joined with single spaces.
    fn prefix_classes(&self, prefix: &Vec<char>, value: &Vec<char>) -> (r: Vec<char>)
        ensures
            r@ == classes_prefixed(prefix@, value@),
    {
        let ws = split_whitespace(value);
        let ghost pw = Seq::new(words(value@).len(), |i: int| prefixed(prefix@, words(value@)[i]));
        let mut out: Vec<char> = Vec::new();
        let n = ws.len();
        let mut k: usize = 0;
        assert(pw.take(0) =~= Seq::<Seq<char>>::empty());
        while k < n
            invariant
                n == ws@.len(),
                n == words(value@).len(),
                n == pw.len(),
                pw == Seq::new(words(value@).len(), |i: int| prefixed(prefix@, words(value@)[i])),
                forall|j: int| 0 <= j < n ==> #[trigger] ws@[j]@ == words(value@)[j],
                0 <= k <= n,
                out@ == join_spaced(pw.take(k as int)),
            decreases n - k,
        {
            let w = prefixed_chars(prefix, &ws[k]);
            assert(w@ == pw[k as int]);
            assert(pw.take(k + 1).drop_last() =~= pw.take(k as int));
            if k > 0 {
                out.push(' ');
            } else {
                assert(pw.take(0).len() == 0);
            }
            let ghost before = out@;
            extend_chars(&mut out, &w);
            if k == 0 {
                assert(out@ =~= pw.take(1)[0]);
            } else {
                assert(out@ =~= join_spaced(pw.take(k as int)) + seq![' '] + pw.take(k + 1).last());
            }
            k += 1;
        }
        assert(pw.take(n as int) =~= pw);
        out
    }

    /// The new value of one attribute (computed).
    fn prefixed_attr_exec(&self, prefix: &Vec<char>, k: &str, v: &str) -> (r: String)
        ensures
            r@ == prefixed_attr(self.config, prefix@, k@, v@),
    {
        if v.is_empty() {
            return owned(v);
        }
        let ps = string_from(prefix);
        if str_eq(k, "id") {
            if self.config.prefix_ids {
                self.prefix_id(ps.as_str(), v)
            } else {
                owned(v)
            }
        } else if str_eq(k, "class") {
            if self.config.prefix_class_names {
                string_from(&self.prefix_classes(prefix, &chars_of(v)))
            } else {
                owned(v)
            }
        } else if str_eq(k, "href") || str_eq(k, "xlink:href") {
            match self.prefix_reference(ps.as_str(), v) {
                Some(r) => r,
                None => owned(v),
            }
        } else if is_reference_prop_exec(k) {
            self.process_url_references(v, ps.as_str())
        } else if str_eq(k, "begin") || str_eq(k, "end") {
            self.process_animation_references(v, ps.as_str())
        } else {
            owned(v)
        }
    }

    /// Processes `e` and every element below it.
    pub fn process_element(&self, e: Element, prefix: &str) -> (res: Element)
        ensures
            elem_model(res) == prefixed_tree(self.config, prefix@, elem_model(e)),
        decreases e,
    {
        let ghost e0 = e;
        let pv = chars_of(prefix);
        let in_style = e.is_named("style");
        let Element { name, attributes, namespaces, children } = e;
        let mut attributes = attributes;
        let ghost a0 = attributes@;
        let na = attributes.entries.len();
        let mut i: usize = 0;
        while i < na
            invariant
                na == attributes.entries@.len(),
                na == a0.len(),
                pv@ == prefix@,
                0 <= i <= na,
                forall|j: int| 0 <= j < i ==> #[trigger] attributes@[j] == prefixed_attrs(self.config, prefix@, a0)[j],
                forall|j: int| i <= j < na ==> #[trigger] attributes@[j] == a0[j],
            decreases na - i,
        {
            assert(attributes@[i as int] == a0[i as int]);
            let ghost before = attributes@;
            let k = attributes.entries[i].0.clone();
            let v = self.prefixed_attr_exec(&pv, attributes.entries[i].0.as_str(), attributes.entries[i].1.as_str());
            attributes.entries.set(i, (k, v));
            assert(attributes@ =~= before.update(i as int, prefixed_attrs(self.config, prefix@, a0)[i as int]));
            i += 1;
        }
        assert(attributes@ =~= prefixed_attrs(self.config, prefix@, a0));
        let mut children = children;
        let n = children.len();
        let mut j: usize = 0;
        while j < n
            invariant
                e == e0,
                n == children@.len(),
                n == e0.children@.len(),
                in_style == (e0.name@ == "style"@),
                0 <= j <= n,
                forall|t: int|
                    0 <= t < j ==> node_model(#[trigger] children@[t]) == prefixed_node(
                        self.config,
                        prefix@,
                        in_style,
                        node_model(e0.children@[t]),
                    ),
                forall|t: int| j <= t < n ==> children@[t] == e0.children@[t],
            decreases n - j,
        {
            let mut tmp = Node::Text(String::new());
            std::mem::swap(&mut children[j], &mut tmp);
            let next = match tmp {
                Node::Element(c) => {
                    proof {
                        assert(decreases_to!(e0 => e0.children));
                        assert(decreases_to!(e0.children => e0.children[j as int]));
                        assert(decreases_to!(e0 => c));
                    }
                    Node::Element(self.process_element(c, prefix))
                },
                Node::Text(t) => {
                    if in_style {
                        Node::Text(self.process_style_content(t.as_str(), prefix))
                    } else {
                        Node::Text(t)
                    }
                },
                other => other,
            };
            children.set(j, next);
            j += 1;
        }
        let res = Element { name, attributes, namespaces, children };
        assert(elem_model(res).children =~= prefixed_tree(self.config, prefix@, elem_model(e0)).children);
        res
    }

    /// Prefixes the IDs, class names and references of every element under the root.
    pub fn apply(&self, document: &mut Document) -> (r: Result<(), PluginError>)
        ensures
            r is Ok,
            doc_model(*final(document)) == doc_with_root(
                doc_model(*old(document)),
                prefixed_tree(
                    self.config,
                    prefix_for(self.config, doc_model(*old(document)).path),
                    doc_model(*old(document)).root,
                ),
            ),
    {
        let prefix = self.generate_prefix(document);
        let root = take_root(document);
        document.root = self.process_element(root, prefix.as_str());
        Ok(())
    }
}

} // verus!
