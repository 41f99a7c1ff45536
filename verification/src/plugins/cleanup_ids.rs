//! Removes unused IDs and shortens the used ones, keeping references intact.
use vstd::prelude::*;
use crate::ast::{
    attr_get, attr_set, attr_shift_remove, doc_model, doc_with_root, elem_model, has_key,
    lemma_key_pos, key_pos, node_elems, tree_elems, Attributes, AttrsM, Document, ElemM, Element,
    Node, NodeM, PluginError,
};
use crate::refs::{
    begin_ids, begin_ids_from, hash_id, hash_id_exec, href_renamed, quoted_ids, quoted_ids_from, renamed_refs,
    update_reference_value, url_ids, url_ids_from,
};
use crate::text::{
    chars_of, push_char, starts_with_any, starts_with_seq, starts_with_str, str_eq,
    string_from, strings_contain, trim_start_index, trim_start_seq, vec_any_prefix_of,
    vec_contains_str, skip_chars, clone_strings,
};
use crate::walk::{rewrite_document, rewrite_node, rewrite_tree, ElementRewrite};
use crate::text::owned;

verus! {

/// The character of digit `d` (0 to 51) of a minified ID: `a`..`z`, then `A`..`Z`.
pub open spec fn id_char(d: int) -> char {
    if d < 26 {
        (97 + d) as char
    } else {
        (65 + d - 26) as char
    }
}

/// The number a digit sequence stands for in bijective base 52 (digit `d` counts `d + 1`).
pub open spec fn digits_value(d: Seq<usize>) -> nat
    decreases d.len(),
{
    if d.len() == 0 {
        0
    } else {
        digits_value(d.drop_last()) * 52 + (d.last() + 1) as nat
    }
}

/// Whether every digit is below 52.
pub open spec fn digits_ok(d: Seq<usize>) -> bool {
    forall|i: int| 0 <= i < d.len() ==> d[i] < 52
}

/// The characters of a digit sequence.
pub open spec fn spell(d: Seq<usize>) -> Seq<char> {
    Seq::new(d.len(), |i: int| id_char(d[i] as int))
}

/// The digit sequence that follows `d`.
pub open spec fn inc_digits(d: Seq<usize>) -> Seq<usize>
    decreases d.len(),
{
    if d.len() == 0 {
        seq![0usize]
    } else if d.last() < 51 {
        d.drop_last().push((d.last() + 1) as usize)
    } else {
        inc_digits(d.drop_last()).push(0usize)
    }
}

/// The `n`-th minified ID: `n` written in bijective base 52 with the digits
/// `a`..`z`, `A`..`Z` (so 1 is `a`, 52 is `Z`, 53 is `aa`).
pub open spec fn nth_id(n: nat) -> Seq<char>
    decreases n,
{
    if n == 0 {
        seq![]
    } else {
        nth_id(((n - 1) / 52) as nat).push(id_char((n - 1) % 52))
    }
}

proof fn lemma_inc_digits(d: Seq<usize>)
    requires
        digits_ok(d),
    ensures
        digits_ok(inc_digits(d)),
        digits_value(inc_digits(d)) == digits_value(d) + 1,
        inc_digits(d).len() >= 1,
    decreases d.len(),
{
    if d.len() == 0 {
        assert(digits_value(seq![0usize].drop_last()) == 0) by {
            assert(seq![0usize].drop_last() =~= Seq::<usize>::empty());
        }
    } else if d.last() < 51 {
        let e = d.drop_last().push((d.last() + 1) as usize);
        assert(e.drop_last() =~= d.drop_last());
    } else {
        lemma_inc_digits(d.drop_last());
        let e = inc_digits(d.drop_last()).push(0usize);
        assert(e.drop_last() =~= inc_digits(d.drop_last()));
    }
}

proof fn lemma_spell(d: Seq<usize>)
    requires
        digits_ok(d),
    ensures
        spell(d) == nth_id(digits_value(d)),
    decreases d.len(),
{
    if d.len() == 0 {
        assert(spell(d) =~= Seq::<char>::empty());
    } else {
        let p = d.drop_last();
        let l = d.last() as int;
        let vp = digits_value(p) as int;
        lemma_spell(p);
        assert((vp * 52 + l) / 52 == vp && (vp * 52 + l) % 52 == l) by (nonlinear_arith)
            requires
                0 <= l < 52,
                vp >= 0,
        ;
        assert(spell(d) =~= spell(p).push(id_char(l)));
    }
}

/// Distinct numbers give distinct minified IDs.
pub proof fn lemma_nth_id_injective(a: nat, b: nat)
    requires
        a != b,
    ensures
        nth_id(a) != nth_id(b),
    decreases a + b,
{
    if a == 0 || b == 0 {
        if a != 0 {
            assert(nth_id(a).len() >= 1);
        } else {
            assert(nth_id(b).len() >= 1);
        }
    } else {
        let qa = ((a - 1) / 52) as nat;
        let qb = ((b - 1) / 52) as nat;
        let ra = (a - 1) % 52;
        let rb = (b - 1) % 52;
        assert(a - 1 == qa * 52 + ra && b - 1 == qb * 52 + rb) by (nonlinear_arith)
            requires
                qa == (a - 1) / 52,
                qb == (b - 1) / 52,
                ra == (a - 1) % 52,
                rb == (b - 1) % 52,
                a >= 1,
                b >= 1,
        ;
        if ra != rb {
            assert(nth_id(a).last() == id_char(ra));
            assert(nth_id(b).last() == id_char(rb));
            assert(id_char(ra) != id_char(rb));
        } else {
            assert(qa != qb);
            assert(qa < a && qb < b) by (nonlinear_arith)
                requires
                    qa == (a - 1) / 52,
                    qb == (b - 1) / 52,
                    a >= 1,
                    b >= 1,
            ;
            lemma_nth_id_injective(qa, qb);
            assert(nth_id(a).drop_last() =~= nth_id(qa));
            assert(nth_id(b).drop_last() =~= nth_id(qb));
        }
    }
}

/// The character of digit `d`.
fn id_char_exec(d: usize) -> (c: char)
    requires
        d < 52,
    ensures
        c == id_char(d as int),
{
    if d < 26 {
        ((97 + d) as u8) as char
    } else {
        ((65 + d - 26) as u8) as char
    }
}

/// Produces the minified IDs `a`, `b`, ..., `Z`, `aa`, `ab`, ... in turn.
pub struct IdGenerator {
    current: Vec<usize>,
}

impl IdGenerator {
    #[verifier::type_invariant]
    spec fn inv(self) -> bool {
        digits_ok(self.current@)
    }

    /// How many IDs have been handed out, plus one: the next ID is `nth_id(count)`.
    pub closed spec fn count(&self) -> nat {
        digits_value(self.current@)
    }

    /// A generator whose next ID is `a`.
    pub fn new() -> (g: Self)
        ensures
            g.count() == 1,
    {
        let mut v: Vec<usize> = Vec::new();
        v.push(0);
        let g = IdGenerator { current: v };
        assert(g.current@ =~= seq![0usize]);
        assert(g.current@.drop_last() =~= Seq::<usize>::empty());
        assert(digits_value(g.current@.drop_last()) == 0);
        assert(g.current@.last() == 0);
        assert(digits_value(g.current@) == 1);
        g
    }

    /// Hands out the next ID.
    pub fn next(&mut self) -> (r: String)
        ensures
            r@ == nth_id(old(self).count()),
            final(self).count() == old(self).count() + 1,
    {
        proof {
            use_type_invariant(&*self);
        }
        let n = self.current.len();
        let mut s = String::new();
        let mut i: usize = 0;
        while i < n
            invariant
                n == self.current@.len(),
                digits_ok(self.current@),
                0 <= i <= n,
                s@ == spell(self.current@).take(i as int),
            decreases n - i,
        {
            push_char(&mut s, id_char_exec(self.current[i]));
            assert(spell(self.current@).take(i + 1) =~= spell(self.current@).take(i as int).push(
                id_char(self.current@[i as int] as int),
            ));
            i += 1;
        }
        proof {
            assert(spell(self.current@).take(n as int) =~= spell(self.current@));
            lemma_spell(self.current@);
            lemma_inc_digits(self.current@);
        }
        let ghost d0 = self.current@;
        let mut digits = self.current.clone();
        let mut k = n;
        let mut carry = true;
        assert(d0.take(n as int) =~= d0);
        assert(inc_digits(d0) =~= inc_digits(d0.take(n as int)) + Seq::new(0, |j: int| 0usize));
        while k > 0 && carry
            invariant
                0 <= k <= n,
                n == d0.len(),
                digits@.len() == n,
                digits_ok(d0),
                carry ==> forall|j: int| 0 <= j < k ==> #[trigger] digits@[j] == d0[j],
                carry ==> forall|j: int| k <= j < n ==> #[trigger] digits@[j] == 0,
                carry ==> forall|j: int| k <= j < n ==> #[trigger] d0[j] == 51,
                carry ==> inc_digits(d0) == inc_digits(d0.take(k as int)) + Seq::new(
                    (n - k) as nat,
                    |j: int| 0usize,
                ),
                !carry ==> digits@ == inc_digits(d0),
            decreases if carry { k + 1 } else { 0 },
        {
            let ghost pre = d0.take(k as int);
            assert(pre.drop_last() =~= d0.take(k - 1));
            assert(digits@[k - 1] == d0[k - 1]);
            if digits[k - 1] < 51 {
                let v = digits[k - 1] + 1;
                digits.set(k - 1, v);
                carry = false;
                assert(pre.last() == d0[k - 1]);
                assert(inc_digits(pre) == d0.take(k - 1).push(v));
                let ghost z = Seq::new((n - k) as nat, |j: int| 0usize);
                assert(inc_digits(d0) == d0.take(k - 1).push(v) + z);
                assert forall|j: int| 0 <= j < n implies digits@[j] == (d0.take(k - 1).push(v) + z)[j] by {
                    if j < k - 1 {
                    } else if j == k - 1 {
                    } else {
                        assert(z[j - k] == 0usize);
                    }
                }
                assert(digits@ =~= inc_digits(d0));
            } else {
                assert(d0[k - 1] == 51);
                let ghost before = digits@;
                digits.set(k - 1, 0);
                assert forall|j: int| 0 <= j < n && j != k - 1 implies #[trigger] digits@[j] == before[j] by {}
                assert(pre.last() == d0[k - 1]);
                assert(inc_digits(pre) == inc_digits(d0.take(k - 1)).push(0usize));
                assert(inc_digits(d0.take(k - 1)) + Seq::new((n - k + 1) as nat, |j: int| 0usize)
                    =~= inc_digits(d0.take(k - 1)).push(0usize) + Seq::new((n - k) as nat, |j: int| 0usize));
                k -= 1;
            }
        }
        if carry {
            digits.push(0);
            assert(d0.take(0) =~= Seq::<usize>::empty());
            assert(inc_digits(d0.take(0)) == seq![0usize]);
            let ghost z = Seq::new(n as nat, |j: int| 0usize);
            assert(inc_digits(d0) == seq![0usize] + z);
            assert forall|j: int| 0 <= j < n + 1 implies digits@[j] == (seq![0usize] + z)[j] by {
                if j > 0 {
                    assert(z[j - 1] == 0usize);
                }
            }
            assert(digits@ =~= inc_digits(d0));
        }
        self.current = digits;
        s
    }
}

/// Properties whose values may hold `url(#ID)` references.
pub open spec fn is_reference_prop(name: Seq<char>) -> bool {
    name == "clip-path"@ || name == "color-profile"@ || name == "fill"@ || name == "filter"@
        || name == "marker-end"@ || name == "marker-mid"@ || name == "marker-start"@ || name
        == "mask"@ || name == "stroke"@ || name == "style"@
}

/// Whether `name` is a property that may hold `url(#ID)` references.
pub fn is_reference_prop_exec(name: &str) -> (r: bool)
    ensures
        r == is_reference_prop(name@),
{
    str_eq(name, "clip-path") || str_eq(name, "color-profile") || str_eq(name, "fill") || str_eq(
        name,
        "filter",
    ) || str_eq(name, "marker-end") || str_eq(name, "marker-mid") || str_eq(name, "marker-start")
        || str_eq(name, "mask") || str_eq(name, "stroke") || str_eq(name, "style")
}

/// The IDs an attribute refers to: a whole `#ID` for `href` and `xlink:href`, the
/// `ID.event` timings of `begin`, and the `url(#ID)` references (unquoted, then quoted)
/// of the reference properties and `style`.
pub open spec fn refs_of(name: Seq<char>, value: Seq<char>) -> Seq<Seq<char>> {
    if name == "href"@ || name == "xlink:href"@ {
        match hash_id(value) {
            Some(id) => seq![id],
            None => seq![],
        }
    } else if name == "begin"@ {
        begin_ids_from(value, 0)
    } else if is_reference_prop(name) {
        url_ids_from(value, 0) + quoted_ids_from(value, 0)
    } else {
        seq![]
    }
}

fn push_all_as_strings(out: &mut Vec<String>, ids: &Vec<Vec<char>>, Ghost(m): Ghost<Seq<Seq<char>>>)
    requires
        ids@.len() == m.len(),
        forall|k: int| 0 <= k < ids@.len() ==> #[trigger] ids@[k]@ == m[k],
    ensures
        strings_model(final(out)@) == strings_model(old(out)@) + m,
{
    let n = ids.len();
    let mut i: usize = 0;
    while i < n
        invariant
            n == ids@.len(),
            n == m.len(),
            forall|k: int| 0 <= k < ids@.len() ==> #[trigger] ids@[k]@ == m[k],
            0 <= i <= n,
            strings_model(out@) == strings_model(old(out)@) + m.take(i as int),
        decreases n - i,
    {
        let ghost before = out@;
        out.push(string_from(&ids[i]));
        assert(strings_model(out@) =~= strings_model(before).push(m[i as int]));
        assert(m.take(i + 1) =~= m.take(i as int).push(m[i as int]));
        i += 1;
    }
    assert(m.take(n as int) =~= m);
}

/// The strings of a vector, as character sequences.
pub open spec fn strings_model(v: Seq<String>) -> Seq<Seq<char>> {
    Seq::new(v.len(), |i: int| v[i]@)
}

/// The IDs the attribute `name` with value `value` refers to.
pub fn find_references(name: &str, value: &str) -> (r: Vec<String>)
    ensures
        strings_model(r@) == refs_of(name@, value@),
{
    let mut out: Vec<String> = Vec::new();
    assert(strings_model(out@) =~= Seq::<Seq<char>>::empty());
    let v = chars_of(value);
    if str_eq(name, "href") || str_eq(name, "xlink:href") {
        match hash_id_exec(&v) {
            Some(id) => {
                out.push(string_from(&id));
                assert(strings_model(out@) =~= refs_of(name@, value@));
            },
            None => {
                assert(strings_model(out@) =~= refs_of(name@, value@));
            },
        }
        return out;
    }
    if str_eq(name, "begin") {
        let ids = begin_ids(&v);
        push_all_as_strings(&mut out, &ids, Ghost(begin_ids_from(v@, 0)));
        assert(strings_model(out@) =~= refs_of(name@, value@));
        return out;
    }
    if is_reference_prop_exec(name) {
        let a = url_ids(&v);
        push_all_as_strings(&mut out, &a, Ghost(url_ids_from(v@, 0)));
        let b = quoted_ids(&v);
        push_all_as_strings(&mut out, &b, Ghost(quoted_ids_from(v@, 0)));
        assert(strings_model(out@) =~= refs_of(name@, value@));
        return out;
    }
    assert(strings_model(out@) =~= refs_of(name@, value@));
    out
}

/// Settings of the plugin.
pub struct CleanupIdsConfig {
    /// Remove IDs that nothing refers to.
    pub remove: bool,
    /// Replace referenced IDs by short generated ones.
    pub minify: bool,
    /// IDs that are kept as they are.
    pub preserve: Vec<String>,
    /// IDs starting with one of these are kept as they are.
    pub preserve_prefixes: Vec<String>,
    /// Work even when the document has scripts or style sheets.
    pub force: bool,
}

impl Default for CleanupIdsConfig {
    fn default() -> (r: Self)
        ensures
            r.remove && r.minify && !r.force && r.preserve@.len() == 0 && r.preserve_prefixes@.len()
                == 0,
    {
        CleanupIdsConfig {
            remove: default_remove(),
            minify: default_minify(),
            preserve: Vec::new(),
            preserve_prefixes: Vec::new(),
            force: false,
        }
    }
}

impl Clone for CleanupIdsConfig {
    fn clone(&self) -> (r: Self)
        ensures
            r.remove == self.remove,
            r.minify == self.minify,
            r.preserve@ == self.preserve@,
            r.preserve_prefixes@ == self.preserve_prefixes@,
            r.force == self.force,
    {
        CleanupIdsConfig {
            remove: self.remove,
            minify: self.minify,
            preserve: clone_strings(&self.preserve),
            preserve_prefixes: clone_strings(&self.preserve_prefixes),
            force: self.force,
        }
    }
}

/// By default unused IDs are removed.
pub fn default_remove() -> (r: bool)
    ensures
        r,
{
    true
}

/// By default used IDs are minified.
pub fn default_minify() -> (r: bool)
    ensures
        r,
{
    true
}

/// Whether an ID is kept as it is: listed in `preserve` or starting with a listed prefix.
pub open spec fn id_preserved(cfg: CleanupIdsConfig, id: Seq<char>) -> bool {
    strings_contain(cfg.preserve@, id) || starts_with_any(cfg.preserve_prefixes@, id)
}

/// Whether an element has a text or character-data child.
pub open spec fn has_text_child(m: ElemM) -> bool {
    exists|i: int|
        0 <= i < m.children.len() && (#[trigger] m.children[i] is Text || m.children[i] is CData)
}

/// Whether an element carries script: a `script` with text, an `a` whose `href` starts
/// with `javascript:` (after leading white space), or an event attribute (`on...`).
pub open spec fn script_signal(m: ElemM) -> bool {
    ||| m.name == "script"@ && has_text_child(m)
    ||| m.name == "a"@ && match attr_get(m.attrs, "href"@) {
        Some(h) => starts_with_seq(trim_start_seq(h), "javascript:"@),
        None => false,
    }
    ||| exists|i: int| 0 <= i < m.attrs.len() && starts_with_seq(#[trigger] m.attrs[i].0, "on"@)
}

/// Whether an element is a `style` element with text.
pub open spec fn style_signal(m: ElemM) -> bool {
    m.name == "style"@ && has_text_child(m)
}

/// The ID of an element, as a sequence of zero or one IDs.
pub open spec fn id_of(m: ElemM) -> Seq<Seq<char>> {
    match attr_get(m.attrs, "id"@) {
        Some(v) => seq![v],
        None => seq![],
    }
}

/// The IDs referred to by an attribute list, attribute by attribute.
pub open spec fn attr_refs(a: AttrsM) -> Seq<Seq<char>> {
    Seq::new(a.len(), |i: int| refs_of(a[i].0, a[i].1)).flatten()
}

/// What the first pass has seen so far.
pub struct SeenM {
    pub has_scripts: bool,
    pub has_styles: bool,
    pub ids: Seq<Seq<char>>,
    pub refs: Seq<Seq<char>>,
}

/// What the first pass knows after one more element.
pub open spec fn seen_step(c: SeenM, m: ElemM) -> SeenM {
    SeenM {
        has_scripts: c.has_scripts || script_signal(m),
        has_styles: c.has_styles || style_signal(m),
        ids: c.ids + id_of(m),
        refs: c.refs + attr_refs(m.attrs),
    }
}

/// What the first pass knows after the elements `s`, in order.
pub open spec fn seen_all(c: SeenM, s: Seq<ElemM>) -> SeenM
    decreases s.len(),
{
    if s.len() == 0 {
        c
    } else {
        seen_step(seen_all(c, s.drop_last()), s.last())
    }
}

proof fn lemma_seen_all_append(c: SeenM, a: Seq<ElemM>, b: Seq<ElemM>)
    ensures
        seen_all(c, a + b) == seen_all(seen_all(c, a), b),
    decreases b.len(),
{
    if b.len() == 0 {
        assert(a + b =~= a);
    } else {
        lemma_seen_all_append(c, a, b.drop_last());
        assert((a + b).drop_last() =~= a + b.drop_last());
    }
}

/// What the first pass knows before any element.
pub open spec fn seen_empty() -> SeenM {
    SeenM { has_scripts: false, has_styles: false, ids: seq![], refs: seq![] }
}

/// The first pass over a tree: scripts, style sheets, IDs and references.
pub open spec fn seen_tree(m: ElemM) -> SeenM {
    seen_all(seen_empty(), tree_elems(m))
}

/// The IDs of `s` without repetition, in order of first appearance.
pub open spec fn dedup(s: Seq<Seq<char>>) -> Seq<Seq<char>>
    decreases s.len(),
{
    if s.len() == 0 {
        seq![]
    } else if dedup(s.drop_last()).contains(s.last()) {
        dedup(s.drop_last())
    } else {
        dedup(s.drop_last()).push(s.last())
    }
}

/// The IDs that may be minified: referenced, present on an element, not preserved.
pub open spec fn minifiable(cfg: CleanupIdsConfig, seen: SeenM, id: Seq<char>) -> bool {
    seen.refs.contains(id) && seen.ids.contains(id) && !id_preserved(cfg, id)
}

/// What a renaming chosen by the plugin satisfies: it renames only minifiable IDs,
/// each at most once, to distinct generated IDs that are neither preserved nor
/// already present.
pub open spec fn renaming_ok(cfg: CleanupIdsConfig, seen: SeenM, map: AttrsM) -> bool {
    &&& forall|k: int| 0 <= k < map.len() ==> minifiable(cfg, seen, #[trigger] map[k].0)
    &&& forall|k: int, l: int| 0 <= k < l < map.len() ==> #[trigger] map[k].0 != #[trigger] map[l].0
    &&& forall|k: int, l: int| 0 <= k < l < map.len() ==> #[trigger] map[k].1 != #[trigger] map[l].1
    &&& forall|k: int|
        0 <= k < map.len() ==> !id_preserved(cfg, #[trigger] map[k].1) && !seen.ids.contains(
            map[k].1,
        ) && exists|n: nat| n >= 1 && map[k].1 == nth_id(n)
}

/// Whether the search for generated IDs always has room: no preserved prefixes, and
/// the preserved IDs, the IDs and the references of the document number fewer than
/// 2^64 - 1 (which no document held in memory reaches).
pub open spec fn room_for_names(cfg: CleanupIdsConfig, seen: SeenM) -> bool {
    cfg.preserve_prefixes@.len() == 0 && cfg.preserve@.len() + seen.ids.len() + seen.refs.len()
        < u64::MAX
}

/// Whether the second pass rewrites the references in attribute `name`.
pub open spec fn rewrites_refs(name: Seq<char>) -> bool {
    is_reference_prop(name) || name == "href"@ || name == "xlink:href"@ || name == "begin"@
}

/// The `id` attribute after the second pass: renamed, removed when unused (if
/// removal is on and it is not preserved), or kept.
pub open spec fn id_applied(cfg: CleanupIdsConfig, used: Seq<Seq<char>>, map: AttrsM, a: AttrsM) -> AttrsM {
    match attr_get(a, "id"@) {
        Some(id) => match attr_get(map, id) {
            Some(n) => attr_set(a, "id"@, n),
            None => if cfg.remove && !used.contains(id) && !id_preserved(cfg, id) {
                attr_shift_remove(a, "id"@)
            } else {
                a
            },
        },
        None => a,
    }
}

/// An attribute list after the second pass.
pub open spec fn applied_attrs(cfg: CleanupIdsConfig, used: Seq<Seq<char>>, map: AttrsM, a: AttrsM) -> AttrsM {
    let b = id_applied(cfg, used, map, a);
    Seq::new(
        b.len(),
        |i: int|
            if rewrites_refs(b[i].0) {
                (b[i].0, renamed_refs(b[i].1, map))
            } else {
                b[i]
            },
    )
}

/// What becomes of an element's ID `id` in the second pass: its new name, `None` when
/// it is removed, or itself.
pub open spec fn id_outcome(cfg: CleanupIdsConfig, used: Seq<Seq<char>>, map: AttrsM, id: Seq<char>) -> Option<
    Seq<char>,
> {
    match attr_get(map, id) {
        Some(n) => Some(n),
        None => if cfg.remove && !used.contains(id) && !id_preserved(cfg, id) {
            None
        } else {
            Some(id)
        },
    }
}

/// The name by which a reference to `id` designates its element after the second pass.
pub open spec fn ref_outcome(map: AttrsM, id: Seq<char>) -> Seq<char> {
    match attr_get(map, id) {
        Some(n) => n,
        None => id,
    }
}

/// The second pass gives an element whose attributes name `id` once the ID
/// `id_outcome` says.
pub proof fn lemma_id_applied_outcome(cfg: CleanupIdsConfig, used: Seq<Seq<char>>, map: AttrsM, a: AttrsM)
    requires
        forall|i: int, j: int|
            0 <= i < a.len() && 0 <= j < a.len() && a[i].0 == "id"@ && a[j].0 == "id"@ ==> i == j,
    ensures
        attr_get(id_applied(cfg, used, map, a), "id"@) == match attr_get(a, "id"@) {
            Some(id) => id_outcome(cfg, used, map, id),
            None => None,
        },
{
    crate::ast::lemma_key_pos(a, "id"@);
    if let Some(id) = attr_get(a, "id"@) {
        match attr_get(map, id) {
            Some(n) => {
                crate::ast::lemma_attr_set_get(a, "id"@, n, "id"@);
            },
            None => {
                if cfg.remove && !used.contains(id) && !id_preserved(cfg, id) {
                    let p = key_pos(a, "id"@) as int;
                    let b = a.remove(p);
                    crate::ast::lemma_key_pos(b, "id"@);
                    if key_pos(b, "id"@) < b.len() {
                        let q = key_pos(b, "id"@) as int;
                        if q < p {
                            assert(b[q] == a[q]);
                        } else {
                            assert(b[q] == a[q + 1]);
                        }
                    }
                }
            },
        }
    }
}

/// The second pass keeps IDs distinct: two different IDs present in the document that
/// both stay end up different, whatever renaming the plugin chose.
pub proof fn lemma_ids_stay_distinct(
    cfg: CleanupIdsConfig,
    seen: SeenM,
    used: Seq<Seq<char>>,
    map: AttrsM,
    x: Seq<char>,
    y: Seq<char>,
)
    requires
        renaming_ok(cfg, seen, map),
        seen.ids.contains(x),
        seen.ids.contains(y),
        x != y,
        id_outcome(cfg, used, map, x) is Some,
        id_outcome(cfg, used, map, y) is Some,
    ensures
        id_outcome(cfg, used, map, x) != id_outcome(cfg, used, map, y),
{
    crate::ast::lemma_key_pos(map, x);
    crate::ast::lemma_key_pos(map, y);
    let px = key_pos(map, x) as int;
    let py = key_pos(map, y) as int;
    if has_key(map, x) && has_key(map, y) {
        assert(px != py);
        if px < py {
            assert(map[px].1 != map[py].1);
        } else {
            assert(map[py].1 != map[px].1);
        }
    } else if has_key(map, x) {
        assert(!seen.ids.contains(map[px].1));
    } else if has_key(map, y) {
        assert(!seen.ids.contains(map[py].1));
    }
}

/// The second pass leaves preserved IDs as they are.
pub proof fn lemma_preserved_ids_kept(
    cfg: CleanupIdsConfig,
    seen: SeenM,
    used: Seq<Seq<char>>,
    map: AttrsM,
    x: Seq<char>,
)
    requires
        renaming_ok(cfg, seen, map),
        id_preserved(cfg, x),
    ensures
        id_outcome(cfg, used, map, x) == Some(x),
        ref_outcome(map, x) == x,
{
    crate::ast::lemma_key_pos(map, x);
    if has_key(map, x) {
        let p = key_pos(map, x) as int;
        assert(minifiable(cfg, seen, map[p].0));
    }
}

/// References keep designating their element: an ID that is referred to is not
/// removed, and a reference to it is renamed to exactly the element's new ID.
pub proof fn lemma_refs_follow_ids(
    cfg: CleanupIdsConfig,
    used: Seq<Seq<char>>,
    map: AttrsM,
    x: Seq<char>,
)
    requires
        used.contains(x),
    ensures
        id_outcome(cfg, used, map, x) == Some(ref_outcome(map, x)),
        hash_id(seq!['#'] + x) == Some(x) ==> href_renamed(seq!['#'] + x, map) == seq!['#'] + ref_outcome(
            map,
            x,
        ),
{
}

/// First pass of the plugin: collects scripts, style sheets, IDs and references.
pub struct CleanupIdsVisitor {
    pub config: CleanupIdsConfig,
    pub has_scripts: bool,
    pub has_styles: bool,
    pub ids: Vec<String>,
    pub refs: Vec<String>,
}

impl CleanupIdsVisitor {
    /// What the visitor has seen.
    pub open spec fn seen(&self) -> SeenM {
        SeenM {
            has_scripts: self.has_scripts,
            has_styles: self.has_styles,
            ids: strings_model(self.ids@),
            refs: strings_model(self.refs@),
        }
    }

    /// A visitor that has seen nothing.
    pub fn new(config: CleanupIdsConfig) -> (r: Self)
        ensures
            r.config == config,
            r.seen() == seen_empty(),
    {
        let r = CleanupIdsVisitor {
            config,
            has_scripts: false,
            has_styles: false,
            ids: Vec::new(),
            refs: Vec::new(),
        };
        assert(r.seen().ids =~= Seq::<Seq<char>>::empty());
        assert(r.seen().refs =~= Seq::<Seq<char>>::empty());
        r
    }

    /// Whether an ID is kept as it is.
    pub fn is_id_preserved(&self, id: &str) -> (r: bool)
        ensures
            r == id_preserved(self.config, id@),
    {
        vec_contains_str(&self.config.preserve, id) || vec_any_prefix_of(
            &self.config.preserve_prefixes,
            id,
        )
    }

    /// Whether an element carries script.
    pub fn check_for_scripts(e: &Element) -> (r: bool)
        ensures
            r == script_signal(elem_model(*e)),
    {
        let ghost m = elem_model(*e);
        if e.is_named("script") && has_text_child_exec(e) {
            return true;
        }
        if e.is_named("a") {
            if let Some(href) = e.attributes.get("href") {
                let v = chars_of(href.as_str());
                let i = trim_start_index(&v);
                let rest = skip_chars(&v, i);
                let rest_s = string_from(&rest);
                if starts_with_str(rest_s.as_str(), "javascript:") {
                    assert(attr_get(m.attrs, "href"@) == Some(href@));
                    assert(rest_s@ == trim_start_seq(href@));
                    assert(m.name == "a"@);
                    return true;
                }
            }
        }
        let n = e.attributes.entries.len();
        let mut i: usize = 0;
        while i < n
            invariant
                n == m.attrs.len(),
                m == elem_model(*e),
                0 <= i <= n,
                forall|j: int| 0 <= j < i ==> !starts_with_seq(#[trigger] m.attrs[j].0, "on"@),
            decreases n - i,
        {
            if starts_with_str(e.attributes.entries[i].0.as_str(), "on") {
                assert(m.attrs[i as int].0 == e.attributes.entries@[i as int].0@);
                return true;
            }
            i += 1;
        }
        false
    }

    /// Whether an element is a `style` element with text.
    pub fn check_for_styles(e: &Element) -> (r: bool)
        ensures
            r == style_signal(elem_model(*e)),
    {
        e.is_named("style") && has_text_child_exec(e)
    }

    /// Takes note of the references in an element's attributes.
    pub fn collect_references(&mut self, e: &Element)
        ensures
            final(self).config == old(self).config,
            final(self).has_scripts == old(self).has_scripts,
            final(self).has_styles == old(self).has_styles,
            final(self).ids == old(self).ids,
            strings_model(final(self).refs@) == strings_model(old(self).refs@) + attr_refs(
                elem_model(*e).attrs,
            ),
    {
        let ghost a = elem_model(*e).attrs;
        let ghost parts = Seq::new(a.len(), |i: int| refs_of(a[i].0, a[i].1));
        let n = e.attributes.entries.len();
        let mut i: usize = 0;
        assert(parts.take(0).flatten() =~= Seq::<Seq<char>>::empty());
        assert(strings_model(self.refs@) =~= strings_model(old(self).refs@) + parts.take(0).flatten());
        while i < n
            invariant
                n == a.len(),
                a == elem_model(*e).attrs,
                parts == Seq::new(a.len(), |i: int| refs_of(a[i].0, a[i].1)),
                0 <= i <= n,
                self.config == old(self).config,
                self.has_scripts == old(self).has_scripts,
                self.has_styles == old(self).has_styles,
                self.ids == old(self).ids,
                strings_model(self.refs@) == strings_model(old(self).refs@) + parts.take(i as int).flatten(),
            decreases n - i,
        {
            let found = find_references(
                e.attributes.entries[i].0.as_str(),
                e.attributes.entries[i].1.as_str(),
            );
            let k = found.len();
            let mut j: usize = 0;
            let ghost before = strings_model(self.refs@);
            while j < k
                invariant
                    k == found@.len(),
                    0 <= j <= k,
                    self.config == old(self).config,
                    self.has_scripts == old(self).has_scripts,
                    self.has_styles == old(self).has_styles,
                    self.ids == old(self).ids,
                    strings_model(self.refs@) == before + strings_model(found@).take(j as int),
                decreases k - j,
            {
                let ghost r0 = self.refs@;
                self.refs.push(found[j].clone());
                assert(strings_model(self.refs@) =~= strings_model(r0).push(found@[j as int]@));
                assert(strings_model(found@).take(j + 1) =~= strings_model(found@).take(j as int).push(found@[j as int]@));
                assert(strings_model(self.refs@) =~= before + strings_model(found@).take(j + 1));
                j += 1;
            }
            assert(strings_model(found@).take(k as int) =~= strings_model(found@));
            proof {
                assert(parts.take(i + 1) =~= parts.take(i as int).push(parts[i as int]));
                parts.take(i as int).lemma_flatten_push(parts[i as int]);
            }
            i += 1;
        }
        assert(parts.take(n as int) =~= parts);
    }

    /// Takes note of one element.
    pub fn visit_element(&mut self, e: &Element)
        ensures
            final(self).config == old(self).config,
            final(self).seen() == seen_step(old(self).seen(), elem_model(*e)),
    {
        if !self.has_scripts {
            self.has_scripts = Self::check_for_scripts(e);
        }
        if !self.has_styles {
            self.has_styles = Self::check_for_styles(e);
        }
        if let Some(id) = e.attributes.get("id") {
            self.ids.push(id.clone());
        }
        self.collect_references(e);
        assert(self.seen().ids =~= old(self).seen().ids + id_of(elem_model(*e)));
    }

    /// Takes note of `e` and every element below it, in document order.
    pub fn collect(&mut self, e: &Element)
        ensures
            final(self).config == old(self).config,
            final(self).seen() == seen_all(old(self).seen(), tree_elems(elem_model(*e))),
        decreases e,
    {
        let ghost m = elem_model(*e);
        self.visit_element(e);
        let ghost s1 = self.seen();
        let ghost parts = Seq::new(m.children.len(), |j: int| node_elems(m.children[j]));
        let n = e.children.len();
        let mut i: usize = 0;
        assert(parts.take(0).flatten() =~= Seq::<ElemM>::empty());
        while i < n
            invariant
                n == m.children.len(),
                m == elem_model(*e),
                parts == Seq::new(m.children.len(), |j: int| node_elems(m.children[j])),
                0 <= i <= n,
                self.config == old(self).config,
                self.seen() == seen_all(s1, parts.take(i as int).flatten()),
            decreases n - i,
        {
            proof {
                assert(parts.take(i + 1) =~= parts.take(i as int).push(parts[i as int]));
                parts.take(i as int).lemma_flatten_push(parts[i as int]);
                lemma_seen_all_append(s1, parts.take(i as int).flatten(), parts[i as int]);
                assert(m.children[i as int] == crate::ast::node_model(e.children@[i as int]));
            }
            match &e.children[i] {
                Node::Element(c) => {
                    self.collect(c);
                },
                _ => {
                    assert(parts[i as int] =~= Seq::<ElemM>::empty());
                    assert(parts.take(i as int).flatten() + parts[i as int] =~= parts.take(i as int).flatten());
                },
            }
            i += 1;
        }
        proof {
            assert(parts.take(n as int) =~= parts);
            assert(crate::ast::children_elems(m) =~= parts);
            assert(tree_elems(m) == seq![m] + parts.flatten());
            lemma_seen_all_append(old(self).seen(), seq![m], parts.flatten());
            assert(seq![m].drop_last() =~= Seq::<ElemM>::empty());
            assert(seq![m].last() == m);
            assert(seen_all(old(self).seen(), Seq::<ElemM>::empty()) == old(self).seen());
            assert(s1 == seen_step(old(self).seen(), m));
            assert(seen_all(old(self).seen(), seq![m]) == s1);
            assert(self.seen() == seen_all(s1, parts.flatten()));
        }
    }
}

/// Whether an element has a text or character-data child (computed).
pub fn has_text_child_exec(e: &Element) -> (r: bool)
    ensures
        r == has_text_child(elem_model(*e)),
{
    let ghost m = elem_model(*e);
    let n = e.children.len();
    let mut i: usize = 0;
    while i < n
        invariant
            n == m.children.len(),
            m == elem_model(*e),
            0 <= i <= n,
            forall|j: int| 0 <= j < i ==> !(#[trigger] m.children[j] is Text || m.children[j] is CData),
        decreases n - i,
    {
        assert(m.children[i as int] == crate::ast::node_model(e.children@[i as int]));
        match &e.children[i] {
            Node::Text(_) => {
                return true;
            },
            Node::CData(_) => {
                return true;
            },
            _ => {},
        }
        i += 1;
    }
    false
}

/// `strings_contain` is membership in the model of the strings.
pub proof fn lemma_strings_contain(v: Seq<String>, s: Seq<char>)
    ensures
        strings_contain(v, s) <==> strings_model(v).contains(s),
{
    if strings_contain(v, s) {
        let i = choose|i: int| 0 <= i < v.len() && #[trigger] v[i]@ == s;
        assert(strings_model(v)[i] == s);
    }
    if strings_model(v).contains(s) {
        let i = choose|i: int| 0 <= i < strings_model(v).len() && strings_model(v)[i] == s;
        assert(v[i]@ == s);
    }
}

/// How many taken candidates the search for a fresh ID passes over, with preserved
/// prefixes, before it gives up on one ID.
pub const MAX_TRIES: u64 = 1048576;

/// The referenced IDs without repetition, in order of first reference.
pub fn dedup_strings(v: &Vec<String>) -> (r: Vec<String>)
    ensures
        forall|k: int, l: int| 0 <= k < l < r@.len() ==> #[trigger] r@[k]@ != #[trigger] r@[l]@,
        forall|k: int| 0 <= k < r@.len() ==> strings_model(v@).contains(#[trigger] r@[k]@),
        forall|k: int| 0 <= k < v@.len() ==> strings_contain(r@, #[trigger] v@[k]@),
{
    let mut r: Vec<String> = Vec::new();
    let n = v.len();
    let mut i: usize = 0;
    while i < n
        invariant
            n == v@.len(),
            0 <= i <= n,
            forall|k: int, l: int| 0 <= k < l < r@.len() ==> #[trigger] r@[k]@ != #[trigger] r@[l]@,
            forall|k: int| 0 <= k < r@.len() ==> strings_model(v@).contains(#[trigger] r@[k]@),
            forall|k: int| 0 <= k < i ==> strings_contain(r@, #[trigger] v@[k]@),
        decreases n - i,
    {
        assert(strings_model(v@)[i as int] == v@[i as int]@);
        if !vec_contains_str(&r, v[i].as_str()) {
            let ghost r0 = r@;
            r.push(v[i].clone());
            assert forall|k: int| 0 <= k < i implies strings_contain(r@, #[trigger] v@[k]@) by {
                let w = choose|j: int| 0 <= j < r0.len() && #[trigger] r0[j]@ == v@[k]@;
                assert(r@[w] == r0[w]);
            }
            assert(r@[r@.len() - 1]@ == v@[i as int]@);
        }
        i += 1;
    }
    r
}

impl CleanupIdsVisitor {
    /// Whether a candidate ID is taken: preserved, present in the document, or given out.
    fn is_taken(&self, cand: &str, given: &Vec<String>) -> (r: bool)
        ensures
            r == (id_preserved(self.config, cand@) || strings_contain(self.ids@, cand@)
                || strings_contain(given@, cand@)),
    {
        self.is_id_preserved(cand) || vec_contains_str(&self.ids, cand) || vec_contains_str(
            given,
            cand,
        )
    }

    /// The next generated ID that is neither preserved, present in the document, nor
    /// among `given`. Without preserved prefixes the search tries one candidate more
    /// than there are preserved, present and given IDs, which always finds one; with
    /// preserved prefixes (which may hold every candidate) it gives up with `None` after
    /// `MAX_TRIES` taken candidates beyond the first.
    fn find_fresh(&self, gen: &mut IdGenerator, given: &Vec<String>) -> (r: Option<String>)
        requires
            old(gen).count() >= 1,
        ensures
            final(gen).count() >= 1,
            match r {
                Some(c) => !(id_preserved(self.config, c@) || strings_contain(self.ids@, c@) || strings_contain(
                    given@,
                    c@,
                )) && exists|n: nat| n >= 1 && c@ == nth_id(n),
                None => self.config.preserve_prefixes@.len() == 0 ==> self.config.preserve@.len()
                    + self.ids@.len() + given@.len() >= u64::MAX,
            },
    {
        let ghost c0 = gen.count();
        let mut cand = gen.next();
        let ghost mut cn: nat = c0;
        let ghost mut tried: Set<Seq<char>> = Set::empty();
        let mut tries: u64 = 0;
        let mut taken = self.is_taken(cand.as_str(), given);
        let limit: u64 = if self.config.preserve_prefixes.len() == 0 {
            (self.config.preserve.len() as u64).saturating_add(self.ids.len() as u64).saturating_add(
                given.len() as u64,
            )
        } else {
            MAX_TRIES
        };
        while taken && tries < limit
            invariant
                cand@ == nth_id(cn),
                cn >= 1,
                gen.count() == cn + 1,
                taken == (id_preserved(self.config, cand@) || strings_contain(self.ids@, cand@)
                    || strings_contain(given@, cand@)),
                tried.finite(),
                tried.len() == tries,
                tries <= limit,
                limit == if self.config.preserve_prefixes@.len() == 0 {
                    vstd::math::min(
                        vstd::math::min(
                            (self.config.preserve@.len() + self.ids@.len()) as int,
                            u64::MAX as int,
                        ) + given@.len() as int,
                        u64::MAX as int,
                    )
                } else {
                    MAX_TRIES as int
                },
                forall|x: Seq<char>| #[trigger] tried.contains(x) ==> (id_preserved(self.config, x)
                    || strings_contain(self.ids@, x) || strings_contain(given@, x)),
                forall|x: Seq<char>| #[trigger] tried.contains(x) ==> exists|c: nat| c < cn && x == nth_id(c),
            decreases limit - tries,
        {
            proof {
                if tried.contains(cand@) {
                    let c = choose|c: nat| c < cn && cand@ == nth_id(c);
                    lemma_nth_id_injective(c, cn);
                }
                let old_cn = cn;
                tried = tried.insert(cand@);
                cn = gen.count();
                assert forall|x: Seq<char>| #[trigger] tried.contains(x) implies exists|c: nat| c < cn && x == nth_id(c) by {
                    if x == nth_id(old_cn) {
                        assert(old_cn < cn);
                    } else {
                        let c = choose|c: nat| c < old_cn && x == nth_id(c);
                        assert(c < cn);
                    }
                }
            }
            cand = gen.next();
            taken = self.is_taken(cand.as_str(), given);
            tries += 1;
        }
        if taken {
            proof {
                if self.config.preserve_prefixes@.len() == 0 {
                    let all = tried.insert(cand@);
                    assert(!tried.contains(cand@)) by {
                        if tried.contains(cand@) {
                            let c = choose|c: nat| c < cn && cand@ == nth_id(c);
                            lemma_nth_id_injective(c, cn);
                        }
                    }
                    assert(all.len() == limit + 1);
                    lemma_search_bound(self.config, self.ids@, given@, all);
                }
            }
            None
        } else {
            Some(cand)
        }
    }

    /// Gives each minifiable ID of `used` (in order) a fresh generated ID: the next
    /// generated ID that is neither preserved, present in the document, nor given
    /// already. Without preserved prefixes every minifiable ID gets one; with them the
    /// search for one ID may give up after `MAX_TRIES` taken candidates.
    #[verifier::rlimit(80)]
    pub fn build_mapping(&self, used: &Vec<String>) -> (map: Attributes)
        requires
            forall|k: int| 0 <= k < used@.len() ==> self.seen().refs.contains(#[trigger] used@[k]@),
            forall|k: int, l: int| 0 <= k < l < used@.len() ==> #[trigger] used@[k]@ != #[trigger] used@[l]@,
        ensures
            renaming_ok(self.config, self.seen(), map@),
            self.config.preserve_prefixes@.len() == 0 && self.config.preserve@.len() + self.ids@.len()
                + used@.len() < u64::MAX ==> forall|k: int|
                0 <= k < used@.len() && minifiable(self.config, self.seen(), #[trigger] used@[k]@)
                    ==> exists|l: int| 0 <= l < map@.len() && map@[l].0 == used@[k]@,
    {
        let mut gen = IdGenerator::new();
        let mut map = Attributes::new();
        let mut given: Vec<String> = Vec::new();
        let ghost room = self.config.preserve_prefixes@.len() == 0 && self.config.preserve@.len()
            + self.ids@.len() + used@.len() < u64::MAX;
        let n = used.len();
        let mut i: usize = 0;
        while i < n
            invariant
                n == used@.len(),
                0 <= i <= n,
                room == (self.config.preserve_prefixes@.len() == 0 && self.config.preserve@.len()
                    + self.ids@.len() + used@.len() < u64::MAX),
                forall|k: int| 0 <= k < used@.len() ==> self.seen().refs.contains(#[trigger] used@[k]@),
                forall|k: int, l: int| 0 <= k < l < used@.len() ==> #[trigger] used@[k]@ != #[trigger] used@[l]@,
                renaming_ok(self.config, self.seen(), map@),
                gen.count() >= 1,
                given@.len() == map@.len(),
                given@.len() <= i,
                forall|k: int| 0 <= k < map@.len() ==> #[trigger] map@[k].1 == given@[k]@,
                forall|k: int|
                    0 <= k < map@.len() ==> exists|j: int| 0 <= j < i && #[trigger] map@[k].0 == used@[j]@,
                room ==> forall|k: int|
                    0 <= k < i && minifiable(self.config, self.seen(), #[trigger] used@[k]@) ==> exists|l: int|
                        0 <= l < map@.len() && map@[l].0 == used@[k]@,
            decreases n - i,
        {
            let id = used[i].as_str();
            if !self.is_id_preserved(id) && vec_contains_str(&self.ids, id) {
                let found = self.find_fresh(&mut gen, &given);
                if let Some(cand) = found {
                    let ghost m0 = map@;
                    proof {
                        lemma_strings_contain(self.ids@, cand@);
                        lemma_strings_contain(self.ids@, used@[i as int]@);
                        lemma_strings_contain(self.config.preserve@, used@[i as int]@);
                    }
                    map.entries.push((used[i].clone(), cand.clone()));
                    given.push(cand);
                    assert(map@ =~= m0.push((used@[i as int]@, given@[given@.len() - 1]@)));
                    assert forall|k: int, l: int| 0 <= k < l < map@.len() implies #[trigger] map@[k].1
                        != #[trigger] map@[l].1 by {
                        if l == map@.len() - 1 {
                            assert(given@[k]@ == map@[k].1);
                            assert(!strings_contain(given@.drop_last(), cand@));
                        }
                    }
                    assert forall|k: int, l: int| 0 <= k < l < map@.len() implies #[trigger] map@[k].0
                        != #[trigger] map@[l].0 by {
                        if l == map@.len() - 1 {
                            let j = choose|j: int| 0 <= j < i && #[trigger] m0[k].0 == used@[j]@;
                            assert(used@[j]@ != used@[i as int]@);
                        }
                    }
                    assert forall|k: int| 0 <= k < map@.len() implies exists|j: int| 0 <= j < i + 1 && #[trigger] map@[k].0 == used@[j]@ by {
                        if k < map@.len() - 1 {
                            let j = choose|j: int| 0 <= j < i && #[trigger] m0[k].0 == used@[j]@;
                            assert(map@[k].0 == used@[j]@);
                        } else {
                            assert(map@[k].0 == used@[i as int]@);
                        }
                    }
                    assert(renaming_ok(self.config, self.seen(), map@));
                    proof {
                        if room {
                            assert forall|k: int|
                                0 <= k < i + 1 && minifiable(self.config, self.seen(), #[trigger] used@[k]@) implies exists|l: int|
                                    0 <= l < map@.len() && map@[l].0 == used@[k]@ by {
                                if k < i {
                                    let l = choose|l: int| 0 <= l < m0.len() && m0[l].0 == used@[k]@;
                                    assert(map@[l] == m0[l]);
                                } else {
                                    assert(map@[map@.len() - 1].0 == used@[k]@);
                                }
                            }
                        }
                    }
                } else {
                    assert(!room);
                }
            } else {
                proof {
                    if room {
                        assert forall|k: int|
                            0 <= k < i + 1 && minifiable(self.config, self.seen(), #[trigger] used@[k]@) implies exists|l: int|
                                0 <= l < map@.len() && map@[l].0 == used@[k]@ by {
                            if k == i {
                                lemma_strings_contain(self.ids@, used@[i as int]@);
                                assert(false);
                            }
                        }
                    }
                }
            }
            i += 1;
        }
        assert(renaming_ok(self.config, self.seen(), map@));
        map
    }
}

/// Without preserved prefixes, the candidates found taken are among the preserved,
/// present and given IDs, so there are no more of them than those IDs.
proof fn lemma_search_bound(cfg: CleanupIdsConfig, ids: Seq<String>, given: Seq<String>, tried: Set<Seq<char>>)
    requires
        cfg.preserve_prefixes@.len() == 0,
        tried.finite(),
        forall|x: Seq<char>| #[trigger] tried.contains(x) ==> (id_preserved(cfg, x) || strings_contain(ids, x)
            || strings_contain(given, x)),
    ensures
        tried.len() <= cfg.preserve@.len() + ids.len() + given.len(),
{
    let t = strings_model(cfg.preserve@) + strings_model(ids) + strings_model(given);
    assert forall|x: Seq<char>| #[trigger] tried.contains(x) implies t.to_set().contains(x) by {
        lemma_strings_contain(cfg.preserve@, x);
        lemma_strings_contain(ids, x);
        lemma_strings_contain(given, x);
        let p = strings_model(cfg.preserve@);
        let d = strings_model(ids);
        let g = strings_model(given);
        if p.contains(x) {
            let j = choose|j: int| 0 <= j < p.len() && p[j] == x;
            assert(t[j] == x);
        } else if d.contains(x) {
            let j = choose|j: int| 0 <= j < d.len() && d[j] == x;
            assert(t[p.len() + j] == x);
        } else {
            assert(!starts_with_any(cfg.preserve_prefixes@, x));
            let j = choose|j: int| 0 <= j < g.len() && g[j] == x;
            assert(t[p.len() + d.len() + j] == x);
        }
    }
    assert(tried.subset_of(t.to_set()));
    vstd::seq_lib::seq_to_set_is_finite(t);
    vstd::set_lib::lemma_len_subset(tried, t.to_set());
    t.lemma_cardinality_of_set();
}

/// Second pass of the plugin: renames and removes IDs and rewrites references.
pub struct IdApplierVisitor {
    pub config: CleanupIdsConfig,
    pub used: Vec<String>,
    pub mapping: Attributes,
}

impl IdApplierVisitor {
    /// Whether an ID is kept as it is.
    pub fn is_id_preserved(&self, id: &str) -> (r: bool)
        ensures
            r == id_preserved(self.config, id@),
    {
        vec_contains_str(&self.config.preserve, id) || vec_any_prefix_of(
            &self.config.preserve_prefixes,
            id,
        )
    }
}

/// Whether the second pass rewrites the references in attribute `name` (computed).
pub fn rewrites_refs_exec(name: &str) -> (r: bool)
    ensures
        r == rewrites_refs(name@),
{
    is_reference_prop_exec(name) || str_eq(name, "href") || str_eq(name, "xlink:href") || str_eq(
        name,
        "begin",
    )
}

/// Whether the elements `n` are the elements `o`, in order, with the attributes the
/// second pass gives them.
pub open spec fn paired(a: IdApplierVisitor, n: Seq<ElemM>, o: Seq<ElemM>) -> bool {
    &&& n.len() == o.len()
    &&& forall|i: int|
        0 <= i < n.len() ==> #[trigger] n[i].attrs == applied_attrs(
            a.config,
            strings_model(a.used@),
            a.mapping@,
            o[i].attrs,
        )
}

proof fn lemma_paired_concat(a: IdApplierVisitor, n1: Seq<ElemM>, o1: Seq<ElemM>, n2: Seq<ElemM>, o2: Seq<ElemM>)
    requires
        paired(a, n1, o1),
        paired(a, n2, o2),
    ensures
        paired(a, n1 + n2, o1 + o2),
{
    assert forall|i: int| 0 <= i < (n1 + n2).len() implies #[trigger] (n1 + n2)[i].attrs == applied_attrs(
        a.config,
        strings_model(a.used@),
        a.mapping@,
        (o1 + o2)[i].attrs,
    ) by {
        if i < n1.len() {
            assert((n1 + n2)[i] == n1[i] && (o1 + o2)[i] == o1[i]);
        } else {
            assert((n1 + n2)[i] == n2[i - n1.len()] && (o1 + o2)[i] == o2[i - n1.len()]);
        }
    }
}

proof fn lemma_paired_flatten(a: IdApplierVisitor, ns: Seq<Seq<ElemM>>, os: Seq<Seq<ElemM>>)
    requires
        ns.len() == os.len(),
        forall|i: int| 0 <= i < ns.len() ==> paired(a, #[trigger] ns[i], os[i]),
    ensures
        paired(a, ns.flatten(), os.flatten()),
    decreases ns.len(),
{
    if ns.len() == 0 {
        assert(ns.flatten() =~= Seq::<ElemM>::empty());
        assert(os.flatten() =~= Seq::<ElemM>::empty());
    } else {
        assert forall|i: int| 0 <= i < ns.drop_first().len() implies paired(a, #[trigger] ns.drop_first()[i], os.drop_first()[i]) by {
            assert(ns.drop_first()[i] == ns[i + 1] && os.drop_first()[i] == os[i + 1]);
        }
        lemma_paired_flatten(a, ns.drop_first(), os.drop_first());
        assert(paired(a, ns[0], os[0]));
        lemma_paired_concat(a, ns.first(), os.first(), ns.drop_first().flatten(), os.drop_first().flatten());
    }
}

/// The elements of a tree after the second pass are its elements, in document order,
/// with the attributes the second pass gives them.
pub proof fn lemma_rewrite_paired(a: IdApplierVisitor, m: ElemM, ins: bool)
    ensures
        paired(a, tree_elems(rewrite_tree(a, m, ins)), tree_elems(m)),
    decreases m,
{
    let r = rewrite_tree(a, m, ins);
    let ins2 = ins || a.spec_marks(m);
    let ps = crate::ast::children_elems(r);
    let qs = crate::ast::children_elems(m);
    assert forall|i: int| 0 <= i < qs.len() implies paired(a, #[trigger] ps[i], qs[i]) by {
        assert(r.children[i] == rewrite_node(a, m.children[i], ins2));
        match m.children[i] {
            NodeM::Element(c) => {
                assert(decreases_to!(m => m.children));
                assert(decreases_to!(m.children => m.children[i]));
                assert(decreases_to!(m.children[i] => c));
                lemma_rewrite_paired(a, c, ins2);
            },
            _ => {
                assert(ps[i] =~= Seq::<ElemM>::empty());
                assert(qs[i] =~= Seq::<ElemM>::empty());
            },
        }
    }
    lemma_paired_flatten(a, ps, qs);
    assert(paired(a, seq![r], seq![m])) by {
        assert(seq![r][0] == r && seq![m][0] == m);
    }
    lemma_paired_concat(a, seq![r], seq![m], ps.flatten(), qs.flatten());
}

/// The first pass sees the ID of every element.
proof fn lemma_seen_has_id(c: SeenM, s: Seq<ElemM>, k: int, x: Seq<char>)
    requires
        0 <= k < s.len(),
        attr_get(s[k].attrs, "id"@) == Some(x),
    ensures
        seen_all(c, s).ids.contains(x),
    decreases s.len(),
{
    let prev = seen_all(c, s.drop_last());
    if k == s.len() - 1 {
        assert(id_of(s.last()) == seq![x]);
        assert(seen_all(c, s).ids[prev.ids.len() as int] == x);
    } else {
        assert(s.drop_last()[k] == s[k]);
        lemma_seen_has_id(c, s.drop_last(), k, x);
        let j = choose|j: int| 0 <= j < prev.ids.len() && prev.ids[j] == x;
        assert(seen_all(c, s).ids[j] == x);
    }
}

/// Whether an attribute list names `id` at most once.
pub open spec fn one_id(a: AttrsM) -> bool {
    forall|i: int, j: int|
        0 <= i < a.len() && 0 <= j < a.len() && a[i].0 == "id"@ && a[j].0 == "id"@ ==> i == j
}

/// What the second pass does to the IDs of a whole document, for any renaming the
/// plugin may choose: the element at each position of the document keeps its place
/// and gets the ID `id_outcome` says; two elements with different IDs that both keep
/// one still have different IDs; a preserved ID stays as it is; and a referenced ID
/// becomes exactly the name its references are renamed to.
pub proof fn lemma_cleanup_ids_document(a: IdApplierVisitor, m: ElemM, k: int, l: int)
    requires
        renaming_ok(a.config, seen_tree(m), a.mapping@),
        forall|x: Seq<char>| strings_model(a.used@).contains(x) <==> seen_tree(m).refs.contains(x),
        0 <= k < tree_elems(m).len(),
        0 <= l < tree_elems(m).len(),
        one_id(tree_elems(m)[k].attrs),
        one_id(tree_elems(m)[l].attrs),
    ensures
        ({
            let e = tree_elems(m);
            let n = tree_elems(rewrite_tree(a, m, false));
            let seen = seen_tree(m);
            let used = strings_model(a.used@);
            let old_k = attr_get(e[k].attrs, "id"@);
            let old_l = attr_get(e[l].attrs, "id"@);
            let new_k = attr_get(n[k].attrs, "id"@);
            let new_l = attr_get(n[l].attrs, "id"@);
            &&& n.len() == e.len()
            &&& old_k is Some ==> new_k == id_outcome(a.config, used, a.mapping@, old_k.unwrap())
            &&& old_k is None ==> new_k is None
            &&& k != l && old_k is Some && old_l is Some && old_k != old_l && new_k is Some && new_l is Some
                ==> new_k != new_l
            &&& old_k is Some && id_preserved(a.config, old_k.unwrap()) ==> new_k == old_k
            &&& old_k is Some && seen.refs.contains(old_k.unwrap()) ==> new_k == Some(
                ref_outcome(a.mapping@, old_k.unwrap()),
            )
        }),
{
    let e = tree_elems(m);
    let n = tree_elems(rewrite_tree(a, m, false));
    let seen = seen_tree(m);
    let used = strings_model(a.used@);
    lemma_rewrite_paired(a, m, false);
    lemma_id_applied_outcome(a.config, used, a.mapping@, e[k].attrs);
    lemma_id_applied_outcome(a.config, used, a.mapping@, e[l].attrs);
    assert(n[k].attrs == applied_attrs(a.config, used, a.mapping@, e[k].attrs));
    assert(n[l].attrs == applied_attrs(a.config, used, a.mapping@, e[l].attrs));
    lemma_applied_keeps_id(a.config, used, a.mapping@, e[k].attrs);
    lemma_applied_keeps_id(a.config, used, a.mapping@, e[l].attrs);
    let old_k = attr_get(e[k].attrs, "id"@);
    let old_l = attr_get(e[l].attrs, "id"@);
    if old_k is Some {
        let x = old_k.unwrap();
        lemma_seen_has_id(seen_empty(), e, k, x);
        if id_preserved(a.config, x) {
            lemma_preserved_ids_kept(a.config, seen, used, a.mapping@, x);
        }
        if seen.refs.contains(x) {
            lemma_refs_follow_ids(a.config, used, a.mapping@, x);
        }
        if old_l is Some && k != l && old_k != old_l {
            let y = old_l.unwrap();
            lemma_seen_has_id(seen_empty(), e, l, y);
            if id_outcome(a.config, used, a.mapping@, x) is Some && id_outcome(a.config, used, a.mapping@, y) is Some {
                lemma_ids_stay_distinct(a.config, seen, used, a.mapping@, x, y);
            }
        }
    }
}

/// Rewriting references leaves the `id` entry as the ID step set it.
proof fn lemma_applied_keeps_id(cfg: CleanupIdsConfig, used: Seq<Seq<char>>, map: AttrsM, a: AttrsM)
    ensures
        attr_get(applied_attrs(cfg, used, map, a), "id"@) == attr_get(id_applied(cfg, used, map, a), "id"@),
{
    let b = id_applied(cfg, used, map, a);
    let c = applied_attrs(cfg, used, map, a);
    assert forall|i: int| 0 <= i < c.len() implies #[trigger] c[i].0 == b[i].0 && (b[i].0 == "id"@ ==> c[i].1 == b[i].1) by {
        assert(!rewrites_refs("id"@)) by {
            reveal_strlit("id");
            assert("id"@.len() == 2);
            reveal_strlit("href");
            assert("href"@.len() == 4);
            reveal_strlit("xlink:href");
            assert("xlink:href"@.len() == 10);
            reveal_strlit("begin");
            assert("begin"@.len() == 5);
            reveal_strlit("clip-path");
            assert("clip-path"@.len() == 9);
            reveal_strlit("color-profile");
            assert("color-profile"@.len() == 13);
            reveal_strlit("fill");
            assert("fill"@.len() == 4);
            reveal_strlit("filter");
            assert("filter"@.len() == 6);
            reveal_strlit("marker-end");
            assert("marker-end"@.len() == 10);
            reveal_strlit("marker-mid");
            assert("marker-mid"@.len() == 10);
            reveal_strlit("marker-start");
            assert("marker-start"@.len() == 12);
            reveal_strlit("mask");
            assert("mask"@.len() == 4);
            reveal_strlit("stroke");
            assert("stroke"@.len() == 6);
            reveal_strlit("style");
            assert("style"@.len() == 5);
        }
    }
    lemma_key_pos(b, "id"@);
    lemma_key_pos(c, "id"@);
    assert(c.len() == b.len());
    if has_key(b, "id"@) {
        crate::ast::lemma_key_pos_unique(c, "id"@, key_pos(b, "id"@) as int);
    } else {
        crate::ast::lemma_key_pos_unique(c, "id"@, c.len() as int);
    }
}

/// The properties whose values hold `url(#ID)` references are `clip-path`,
/// `color-profile`, `fill`, `filter`, the markers, `mask`, `stroke` and `style`: for each
/// of them the IDs referred to are those of its `url(#ID)` references, unquoted and
/// then quoted, whatever the value.
pub proof fn lemma_reference_props(name: Seq<char>, value: Seq<char>)
    requires
        name == "mask"@ || name == "clip-path"@ || name == "filter"@ || name == "marker-start"@ || name == "marker-mid"@ || name == "marker-end"@ || name == "fill"@ || name == "stroke"@ || name == "color-profile"@ || name == "style"@,
    ensures
        refs_of(name, value) == url_ids_from(value, 0) + quoted_ids_from(value, 0),
        is_reference_prop(name),
        rewrites_refs(name),
{
    assert(name != "href"@ && name != "xlink:href"@ && name != "begin"@) by {
        reveal_strlit("href");
        reveal_strlit("xlink:href");
        reveal_strlit("begin");
        if name == "clip-path"@ {
            reveal_strlit("clip-path");
            assert("clip-path"@.len() != "href"@.len());
            assert("clip-path"@.len() != "xlink:href"@.len());
            assert("clip-path"@.len() != "begin"@.len());
        }
        if name == "color-profile"@ {
            reveal_strlit("color-profile");
            assert("color-profile"@.len() != "href"@.len());
            assert("color-profile"@.len() != "xlink:href"@.len());
            assert("color-profile"@.len() != "begin"@.len());
        }
        if name == "fill"@ {
            reveal_strlit("fill");
            assert("fill"@[0] != "href"@[0]);
            assert("fill"@.len() != "xlink:href"@.len());
            assert("fill"@.len() != "begin"@.len());
        }
        if name == "filter"@ {
            reveal_strlit("filter");
            assert("filter"@.len() != "href"@.len());
            assert("filter"@.len() != "xlink:href"@.len());
            assert("filter"@.len() != "begin"@.len());
        }
        if name == "marker-end"@ {
            reveal_strlit("marker-end");
            assert("marker-end"@.len() != "href"@.len());
            assert("marker-end"@[0] != "xlink:href"@[0]);
            assert("marker-end"@.len() != "begin"@.len());
        }
        if name == "marker-mid"@ {
            reveal_strlit("marker-mid");
            assert("marker-mid"@.len() != "href"@.len());
            assert("marker-mid"@[0] != "xlink:href"@[0]);
            assert("marker-mid"@.len() != "begin"@.len());
        }
        if name == "marker-start"@ {
            reveal_strlit("marker-start");
            assert("marker-start"@.len() != "href"@.len());
            assert("marker-start"@.len() != "xlink:href"@.len());
            assert("marker-start"@.len() != "begin"@.len());
        }
        if name == "mask"@ {
            reveal_strlit("mask");
            assert("mask"@[0] != "href"@[0]);
            assert("mask"@.len() != "xlink:href"@.len());
            assert("mask"@.len() != "begin"@.len());
        }
        if name == "stroke"@ {
            reveal_strlit("stroke");
            assert("stroke"@.len() != "href"@.len());
            assert("stroke"@.len() != "xlink:href"@.len());
            assert("stroke"@.len() != "begin"@.len());
        }
        if name == "style"@ {
            reveal_strlit("style");
            assert("style"@.len() != "href"@.len());
            assert("style"@.len() != "xlink:href"@.len());
            assert("style"@[0] != "begin"@[0]);
        }
    }
}

/// An item of an item of a sequence of sequences is an item of its flattening.
proof fn lemma_flatten_contains<A>(ss: Seq<Seq<A>>, i: int, j: int)
    requires
        0 <= i < ss.len(),
        0 <= j < ss[i].len(),
    ensures
        ss.flatten().contains(ss[i][j]),
    decreases ss.len(),
{
    if i == 0 {
        assert(ss.flatten() == ss.first() + ss.drop_first().flatten());
        assert(ss.flatten()[j] == ss[0][j]);
    } else {
        assert(ss.drop_first()[i - 1] == ss[i]);
        lemma_flatten_contains(ss.drop_first(), i - 1, j);
        let rest = ss.drop_first().flatten();
        let k = choose|k: int| 0 <= k < rest.len() && rest[k] == ss[i][j];
        assert(ss.flatten() == ss.first() + rest);
        assert(ss.flatten()[ss.first().len() + k] == ss[i][j]);
    }
}

/// The first pass sees every reference of every element.
proof fn lemma_seen_has_ref(c: SeenM, s: Seq<ElemM>, t: int, i: int, x: Seq<char>)
    requires
        0 <= t < s.len(),
        0 <= i < s[t].attrs.len(),
        refs_of(s[t].attrs[i].0, s[t].attrs[i].1).contains(x),
    ensures
        seen_all(c, s).refs.contains(x),
    decreases s.len(),
{
    let prev = seen_all(c, s.drop_last());
    if t == s.len() - 1 {
        let a = s.last().attrs;
        let ss = Seq::new(a.len(), |q: int| refs_of(a[q].0, a[q].1));
        let j = choose|j: int| 0 <= j < ss[i].len() && ss[i][j] == x;
        lemma_flatten_contains(ss, i, j);
        let r = attr_refs(a);
        let k = choose|k: int| 0 <= k < r.len() && r[k] == x;
        assert(seen_all(c, s).refs[prev.refs.len() + k] == x);
    } else {
        assert(s.drop_last()[t] == s[t]);
        lemma_seen_has_ref(c, s.drop_last(), t, i, x);
        let j = choose|j: int| 0 <= j < prev.refs.len() && prev.refs[j] == x;
        assert(seen_all(c, s).refs[j] == x);
    }
}

/// References in reference properties keep their target: when some element of a
/// document refers to the ID `x` through `url(#x)` in `clip-path`, `mask`, `filter`, a
/// marker, `fill`, `stroke`, `color-profile` or `style`, the element whose ID is `x` is
/// not stripped of it by the second pass, whatever renaming the plugin chose: it gets
/// exactly the name the references to `x` are renamed to.
pub proof fn lemma_url_targets_kept(a: IdApplierVisitor, m: ElemM, t: int, i: int, k: int, x: Seq<char>)
    requires
        renaming_ok(a.config, seen_tree(m), a.mapping@),
        forall|y: Seq<char>| strings_model(a.used@).contains(y) <==> seen_tree(m).refs.contains(y),
        0 <= t < tree_elems(m).len(),
        0 <= i < tree_elems(m)[t].attrs.len(),
        ({
            let name = tree_elems(m)[t].attrs[i].0;
            name == "mask"@ || name == "clip-path"@ || name == "filter"@ || name == "marker-start"@ || name == "marker-mid"@ || name == "marker-end"@ || name == "fill"@ || name == "stroke"@ || name == "color-profile"@ || name == "style"@
        }),
        url_ids_from(tree_elems(m)[t].attrs[i].1, 0).contains(x),
        0 <= k < tree_elems(m).len(),
        one_id(tree_elems(m)[k].attrs),
        attr_get(tree_elems(m)[k].attrs, "id"@) == Some(x),
    ensures
        attr_get(tree_elems(rewrite_tree(a, m, false))[k].attrs, "id"@) == Some(ref_outcome(a.mapping@, x)),
{
    let e = tree_elems(m);
    lemma_reference_props(e[t].attrs[i].0, e[t].attrs[i].1);
    let u = url_ids_from(e[t].attrs[i].1, 0);
    let j = choose|j: int| 0 <= j < u.len() && u[j] == x;
    assert((u + quoted_ids_from(e[t].attrs[i].1, 0))[j] == x);
    lemma_seen_has_ref(seen_empty(), e, t, i, x);
    lemma_cleanup_ids_document(a, m, k, k);
}

/// Removing the `id` entry leaves the value read for any other name.
proof fn lemma_remove_id_get(a: AttrsM, name: Seq<char>)
    requires
        name != "id"@,
    ensures
        attr_get(attr_shift_remove(a, "id"@), name) == attr_get(a, name),
{
    lemma_key_pos(a, "id"@);
    lemma_key_pos(a, name);
    if has_key(a, "id"@) {
        let p = key_pos(a, "id"@) as int;
        let b = a.remove(p);
        let q = key_pos(a, name) as int;
        if q < p {
            assert forall|j: int| 0 <= j < q implies b[j].0 != name by {
                assert(b[j] == a[j]);
            }
            assert(b[q] == a[q]);
            crate::ast::lemma_key_pos_unique(b, name, q);
        } else if q < a.len() {
            assert(q != p);
            assert forall|j: int| 0 <= j < q - 1 implies b[j].0 != name by {
                if j < p {
                    assert(b[j] == a[j]);
                } else {
                    assert(b[j] == a[j + 1]);
                }
            }
            assert(b[q - 1] == a[q]);
            crate::ast::lemma_key_pos_unique(b, name, q - 1);
        } else {
            assert forall|j: int| 0 <= j < b.len() implies b[j].0 != name by {
                if j < p {
                    assert(b[j] == a[j]);
                } else {
                    assert(b[j] == a[j + 1]);
                }
            }
            crate::ast::lemma_key_pos_unique(b, name, b.len() as int);
        }
    }
}

/// The second pass rewrites the references in the values of `href`, `xlink:href`,
/// `begin` and the reference properties (`clip-path`, `color-profile`, `fill`,
/// `filter`, the markers, `mask`, `stroke`, `style`): the value read for such a name
/// afterwards is the old one with its references renamed.
pub proof fn lemma_reference_values_rewritten(
    cfg: CleanupIdsConfig,
    used: Seq<Seq<char>>,
    map: AttrsM,
    a: AttrsM,
    name: Seq<char>,
)
    requires
        name == "mask"@ || name == "clip-path"@ || name == "filter"@ || name == "marker-start"@ || name == "marker-mid"@ || name == "marker-end"@ || name == "fill"@ || name == "stroke"@ || name == "color-profile"@ || name == "style"@ || name == "href"@ || name == "xlink:href"@ || name == "begin"@,
    ensures
        attr_get(applied_attrs(cfg, used, map, a), name) == match attr_get(a, name) {
            Some(v) => Some(renamed_refs(v, map)),
            None => None,
        },
{
    assert(name != "id"@) by {
        reveal_strlit("id");
        assert("id"@.len() == 2);
        reveal_strlit("clip-path");
        assert("clip-path"@.len() == 9);
        reveal_strlit("color-profile");
        assert("color-profile"@.len() == 13);
        reveal_strlit("fill");
        assert("fill"@.len() == 4);
        reveal_strlit("filter");
        assert("filter"@.len() == 6);
        reveal_strlit("marker-end");
        assert("marker-end"@.len() == 10);
        reveal_strlit("marker-mid");
        assert("marker-mid"@.len() == 10);
        reveal_strlit("marker-start");
        assert("marker-start"@.len() == 12);
        reveal_strlit("mask");
        assert("mask"@.len() == 4);
        reveal_strlit("stroke");
        assert("stroke"@.len() == 6);
        reveal_strlit("style");
        assert("style"@.len() == 5);
        reveal_strlit("href");
        assert("href"@.len() == 4);
        reveal_strlit("xlink:href");
        assert("xlink:href"@.len() == 10);
        reveal_strlit("begin");
        assert("begin"@.len() == 5);
    }
    if name == "mask"@ || name == "clip-path"@ || name == "filter"@ || name == "marker-start"@ || name == "marker-mid"@ || name == "marker-end"@ || name == "fill"@ || name == "stroke"@ || name == "color-profile"@ || name == "style"@ {
        lemma_reference_props(name, seq![]);
    }
    assert(rewrites_refs(name));
    let b = id_applied(cfg, used, map, a);
    assert(attr_get(b, name) == attr_get(a, name)) by {
        if let Some(id) = attr_get(a, "id"@) {
            if let Some(n) = attr_get(map, id) {
                crate::ast::lemma_attr_set_get(a, "id"@, n, name);
            } else {
                lemma_remove_id_get(a, name);
            }
        }
    }
    let c = applied_attrs(cfg, used, map, a);
    lemma_key_pos(b, name);
    assert forall|j: int| 0 <= j < key_pos(b, name) implies c[j].0 != name by {
        assert(c[j].0 == b[j].0);
    }
    crate::ast::lemma_key_pos_unique(c, name, key_pos(b, name) as int);
}

impl ElementRewrite for IdApplierVisitor {
    open spec fn spec_marks(&self, m: ElemM) -> bool {
        false
    }

    open spec fn spec_name(&self, m: ElemM, inside: bool) -> Seq<char> {
        m.name
    }

    open spec fn spec_attrs(&self, m: ElemM, inside: bool) -> AttrsM {
        applied_attrs(self.config, strings_model(self.used@), self.mapping@, m.attrs)
    }

    fn marks(&self, e: &Element) -> (b: bool) {
        false
    }

    fn rewrite(&self, e: &mut Element, inside: bool) {
        let ghost a0 = e.attributes@;
        if let Some(id) = e.attributes.get_cloned("id") {
            match self.mapping.get(id.as_str()) {
                Some(newid) => {
                    e.attributes.insert(owned("id"), newid.clone());
                },
                None => {
                    proof {
                        lemma_strings_contain(self.used@, id@);
                    }
                    if self.config.remove && !vec_contains_str(&self.used, id.as_str())
                        && !self.is_id_preserved(id.as_str()) {
                        e.attributes.shift_remove("id");
                    }
                },
            }
        }
        let ghost b = e.attributes@;
        assert(b == id_applied(self.config, strings_model(self.used@), self.mapping@, a0));
        let n = e.attributes.entries.len();
        let mut i: usize = 0;
        while i < n
            invariant
                n == e.attributes@.len(),
                n == b.len(),
                b == id_applied(self.config, strings_model(self.used@), self.mapping@, a0),
                0 <= i <= n,
                forall|j: int|
                    0 <= j < i ==> #[trigger] e.attributes@[j] == applied_attrs(
                        self.config,
                        strings_model(self.used@),
                        self.mapping@,
                        a0,
                    )[j],
                forall|j: int| i <= j < n ==> #[trigger] e.attributes@[j] == b[j],
                e.children == old(e).children,
                e.namespaces == old(e).namespaces,
                e.name == old(e).name,
            decreases n - i,
        {
            let name = e.attributes.entries[i].0.clone();
            let ghost before = e.attributes@;
            let ghost target = applied_attrs(
                self.config,
                strings_model(self.used@),
                self.mapping@,
                a0,
            );
            assert(target.len() == b.len());
            assert(e.attributes@[i as int] == b[i as int]);
            assert(e.attributes@[i as int].0 == e.attributes.entries@[i as int].0@);
            assert(name@ == b[i as int].0);
            if rewrites_refs_exec(name.as_str()) {
                let nv = update_reference_value(e.attributes.entries[i].1.as_str(), &self.mapping);
                e.attributes.entries.set(i, (name, nv));
                assert forall|j: int| 0 <= j < n && j != i implies #[trigger] e.attributes@[j] == before[j] by {}
            }
            assert(e.attributes@[i as int] == applied_attrs(
                self.config,
                strings_model(self.used@),
                self.mapping@,
                a0,
            )[i as int]);
            i += 1;
        }
        assert(e.attributes@ =~= applied_attrs(self.config, strings_model(self.used@), self.mapping@, a0));
    }
}

/// Plugin that removes unused IDs and minifies used ones.
pub struct CleanupIdsPlugin {
    pub config: CleanupIdsConfig,
}

impl CleanupIdsPlugin {
    /// The plugin with the default settings.
    pub fn new() -> (r: Self)
        ensures
            r.config.remove && r.config.minify && !r.config.force && r.config.preserve@.len() == 0
                && r.config.preserve_prefixes@.len() == 0,
    {
        CleanupIdsPlugin { config: CleanupIdsConfig::default() }
    }

    /// The plugin with the given settings.
    pub fn with_config(config: CleanupIdsConfig) -> (r: Self)
        ensures
            r.config == config,
    {
        CleanupIdsPlugin { config }
    }

    /// The plugin's name.
    pub fn name(&self) -> (r: &'static str)
        ensures
            r@ == "cleanupIds"@,
    {
        "cleanupIds"
    }

    /// What the plugin does.
    pub fn description(&self) -> (r: &'static str)
        ensures
            r@ == "Remove unused IDs and minify used IDs"@,
    {
        "Remove unused IDs and minify used IDs"
    }

    /// Removes unused IDs and minifies used ones. Nothing changes when the document has
    /// scripts or style sheets, unless `force` is set. Otherwise some renaming that
    /// satisfies `renaming_ok` (empty when minification is off) is applied, together
    /// with the removal of unused IDs, to every element. With minification on, every
    /// minifiable ID is renamed when there are no preserved prefixes and the preserved
    /// IDs, the IDs and the references of the document number fewer than 2^64 - 1; with
    /// preserved prefixes, the search for a free generated ID may give up on an ID after
    /// `MAX_TRIES` taken candidates.
    pub fn apply(&self, document: &mut Document) -> (r: Result<(), PluginError>)
        ensures
            r is Ok,
            ({
                let seen = seen_tree(doc_model(*old(document)).root);
                if !self.config.force && (seen.has_scripts || seen.has_styles) {
                    doc_model(*final(document)) == doc_model(*old(document))
                } else {
                    exists|a: IdApplierVisitor|
                        #![trigger rewrite_tree(a, doc_model(*old(document)).root, false)]
                        {
                            &&& a.config.remove == self.config.remove
                            &&& a.config.preserve@ == self.config.preserve@
                            &&& a.config.preserve_prefixes@ == self.config.preserve_prefixes@
                            &&& forall|x: Seq<char>| strings_model(a.used@).contains(x) <==> seen.refs.contains(x)
                            &&& renaming_ok(self.config, seen, a.mapping@)
                            &&& (!self.config.minify ==> a.mapping@.len() == 0)
                            &&& (self.config.minify && room_for_names(self.config, seen) ==> forall|x: Seq<char>|
                                minifiable(self.config, seen, x) ==> #[trigger] attr_get(a.mapping@, x) is Some)
                            &&& doc_model(*final(document)) == doc_with_root(
                                doc_model(*old(document)),
                                rewrite_tree(a, doc_model(*old(document)).root, false),
                            )
                        }
                }
            }),
    {
        let mut collector = CleanupIdsVisitor::new(self.config.clone());
        collector.collect(&document.root);
        assert(collector.seen() == seen_tree(doc_model(*old(document)).root));
        if !collector.config.force && (collector.has_scripts || collector.has_styles) {
            return Ok(());
        }
        let used = dedup_strings(&collector.refs);
        proof {
            assert forall|x: Seq<char>| strings_model(used@).contains(x) <==> collector.seen().refs.contains(x) by {
                if strings_model(used@).contains(x) {
                    let k = choose|k: int| 0 <= k < strings_model(used@).len() && strings_model(used@)[k] == x;
                    assert(strings_model(collector.refs@).contains(used@[k]@));
                }
                if collector.seen().refs.contains(x) {
                    let k = choose|k: int| 0 <= k < strings_model(collector.refs@).len() && strings_model(collector.refs@)[k] == x;
                    assert(strings_contain(used@, collector.refs@[k]@));
                    lemma_strings_contain(used@, x);
                }
            }
        }
        let mapping = if collector.config.minify {
            collector.build_mapping(&used)
        } else {
            Attributes::new()
        };
        proof {
            let seen = collector.seen();
            if collector.config.minify && room_for_names(self.config, seen) {
                let su = strings_model(used@);
                assert(su.no_duplicates()) by {
                    assert forall|k: int, l: int| 0 <= k < su.len() && 0 <= l < su.len() && k != l implies su[k] != su[l] by {
                        if k < l {
                            assert(used@[k]@ != used@[l]@);
                        } else {
                            assert(used@[l]@ != used@[k]@);
                        }
                    }
                }
                assert forall|k: int| 0 <= k < su.len() implies seen.refs.contains(#[trigger] su[k]) by {
                    assert(su[k] == used@[k]@);
                }
                crate::registry::lemma_distinct_bound(su, seen.refs);
                assert forall|x: Seq<char>| minifiable(self.config, seen, x) implies #[trigger] attr_get(mapping@, x) is Some by {
                    assert(strings_model(used@).contains(x));
                    let k = choose|k: int| 0 <= k < su.len() && su[k] == x;
                    assert(used@[k]@ == x);
                    assert(minifiable(self.config, seen, used@[k]@));
                    let l = choose|l: int| 0 <= l < mapping@.len() && mapping@[l].0 == used@[k]@;
                    lemma_key_pos(mapping@, x);
                    if key_pos(mapping@, x) >= mapping@.len() {
                        assert(mapping@[l].0 != x);
                    }
                }
            }
        }
        let applier = IdApplierVisitor { config: collector.config, used, mapping };
        rewrite_document(&applier, document);
        Ok(())
    }
}

} // verus!
