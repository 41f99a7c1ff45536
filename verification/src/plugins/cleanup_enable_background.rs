//! Removes `enable-background` where it has no effect.
use vstd::prelude::*;
use crate::ast::{
    attr_get, attr_shift_remove, doc_model, doc_with_root, elem_model, has_key, node_model,
    take_root, AttrsM, Document, ElemM, Element, Node, NodeM, PluginError,
};
use crate::plugins::convert_colors::{all_digits_exec, dot_pos_exec, number_parts};
use crate::text::{
    all_digits, chars_of, contains_str, eq_ignore_ascii_case, eq_ignore_case, has_sub,
    slice_chars, split_whitespace, starts_with_seq, str_eq, trim_chars, trim_seq, words,
};

verus! {

broadcast use vstd::string::group_string_axioms;

/// The forms of an `enable-background` value.
#[derive(PartialEq, Eq, Debug, Structural)]
pub enum EnableBackground {
    /// `new`.
    New,
    /// `new x y width height`.
    NewWithCoords,
    /// `accumulate`.
    Accumulate,
}

/// Whether `s` is a floating-point number as `f64::from_str` reads it: an optional
/// sign, then `inf`, `infinity` or `nan` in any case, or digits with at most one `.`
/// and at least one digit, followed by an optional exponent (`e` or `E`, an optional
/// sign, digits).
pub open spec fn float_lit(s: Seq<char>) -> bool {
    let st: int = if s.len() > 0 && (s[0] == '+' || s[0] == '-') {
        1
    } else {
        0
    };
    let b = s.skip(st);
    ||| eq_ignore_case(b, "inf"@)
    ||| eq_ignore_case(b, "infinity"@)
    ||| eq_ignore_case(b, "nan"@)
    ||| decimal_lit(b)
}

/// Position of the first `e` or `E` in `s`, or its length.
pub open spec fn exp_pos(s: Seq<char>) -> nat
    decreases s.len(),
{
    if s.len() == 0 {
        0
    } else if s[0] == 'e' || s[0] == 'E' {
        0
    } else {
        1 + exp_pos(s.drop_first())
    }
}

/// Whether `x` is an exponent's digits: an optional sign, then at least one digit.
pub open spec fn exp_digits(x: Seq<char>) -> bool {
    let st: int = if x.len() > 0 && (x[0] == '+' || x[0] == '-') {
        1
    } else {
        0
    };
    x.len() > st && all_digits(x.skip(st))
}

/// Whether `b` is a decimal number with an optional exponent.
pub open spec fn decimal_lit(b: Seq<char>) -> bool {
    let e = exp_pos(b) as int;
    number_parts(b.take(e)) is Some && (e == b.len() || exp_digits(b.skip(e + 1)))
}

/// What an `enable-background` value is, once trimmed.
pub open spec fn parse_eb(v: Seq<char>) -> Option<EnableBackground> {
    let t = trim_seq(v);
    if t == "new"@ {
        Some(EnableBackground::New)
    } else if t == "accumulate"@ {
        Some(EnableBackground::Accumulate)
    } else if starts_with_seq(t, "new "@) && words(t.skip(4)).len() == 4 && float_lit(
        words(t.skip(4))[0],
    ) && float_lit(words(t.skip(4))[1]) && float_lit(words(t.skip(4))[2]) && float_lit(
        words(t.skip(4))[3],
    ) {
        Some(EnableBackground::NewWithCoords)
    } else {
        None
    }
}

/// Whether a value names the background as a filter input.
pub open spec fn bg_input(v: Option<Seq<char>>) -> bool {
    v is Some && (v.unwrap() == "BackgroundImage"@ || v.unwrap() == "BackgroundAlpha"@)
}

/// Whether an element is an `feImage` or `feBlend` that reads the background.
pub open spec fn is_bg_filter(m: ElemM) -> bool {
    (m.name == "feImage"@ || m.name == "feBlend"@) && (bg_input(attr_get(m.attrs, "in"@))
        || bg_input(attr_get(m.attrs, "in2"@)))
}

/// Whether attributes may apply a filter: a `filter` attribute, or `filter:` or
/// `filter ` in `style`.
pub open spec fn has_filter(a: AttrsM) -> bool {
    has_key(a, "filter"@) || (attr_get(a, "style"@) is Some && (has_sub(
        attr_get(a, "style"@).unwrap(),
        "filter:"@,
    ) || has_sub(attr_get(a, "style"@).unwrap(), "filter "@)))
}

/// Whether an element establishes a viewport.
pub open spec fn is_viewport(name: Seq<char>) -> bool {
    name == "svg"@ || name == "symbol"@ || name == "image"@ || name == "foreignObject"@
}

/// The elements that establish a viewport are `svg`, `symbol`, `image` and
/// `foreignObject`.
pub proof fn lemma_is_viewport_names(name: Seq<char>)
    ensures
        is_viewport(name) <==> (name == "foreignObject"@ || name == "image"@ || name == "symbol"@ || name == "svg"@),
{
}

/// Whether `enable-background="v"` goes from element `m`: never once a background
/// filter input has been seen, nor from an element that may apply a filter; else
/// when the value is `new`, or when the element establishes no viewport.
pub open spec fn removes_bg(seen: bool, v: Seq<char>, m: ElemM) -> bool {
    !seen && !has_filter(m.attrs) && (trim_seq(v) == "new"@ || !is_viewport(m.name))
}

/// A tree cleaned, with whether a background filter input has been seen, given
/// whether one was seen before it. Elements are seen on the way in (parents before
/// children) and decided on the way out (children before parents).
pub open spec fn cleaned(m: ElemM, seen: bool) -> (ElemM, bool)
    decreases m, 2int, 0nat,
{
    let s0 = seen || is_bg_filter(m);
    let kids = cleaned_kids(m, s0, m.children.len());
    let s1 = kids.1;
    let attrs = if has_key(m.attrs, "enable-background"@) && removes_bg(
        s1,
        attr_get(m.attrs, "enable-background"@).unwrap(),
        m,
    ) {
        attr_shift_remove(m.attrs, "enable-background"@)
    } else {
        m.attrs
    };
    (ElemM { name: m.name, attrs: attrs, namespaces: m.namespaces, children: kids.0 }, s1)
}

/// The first `k` children of `m` cleaned in turn, with the state after them.
pub open spec fn cleaned_kids(m: ElemM, seen: bool, k: nat) -> (Seq<NodeM>, bool)
    decreases m, 1int, k,
{
    if k == 0 || k > m.children.len() {
        (seq![], seen)
    } else {
        let prev = cleaned_kids(m, seen, (k - 1) as nat);
        let r = cleaned_node(m.children[k - 1], prev.1);
        (prev.0.push(r.0), r.1)
    }
}

/// A node cleaned, with the state after it.
pub open spec fn cleaned_node(n: NodeM, seen: bool) -> (NodeM, bool)
    decreases n, 0int, 0nat,
{
    match n {
        NodeM::Element(c) => (NodeM::Element(cleaned(c, seen).0), cleaned(c, seen).1),
        _ => (n, seen),
    }
}

/// The position of the first `e` or `E` (computed).
fn exp_pos_exec(v: &Vec<char>) -> (r: usize)
    ensures
        r == exp_pos(v@),
        r <= v@.len(),
{
    let n = v.len();
    let mut i: usize = 0;
    assert(v@.skip(0) =~= v@);
    while i < n && v[i] != 'e' && v[i] != 'E'
        invariant
            n == v@.len(),
            0 <= i <= n,
            exp_pos(v@) == i + exp_pos(v@.skip(i as int)),
        decreases n - i,
    {
        assert(v@.skip(i as int).drop_first() =~= v@.skip(i + 1));
        i += 1;
    }
    i
}

/// Whether `v` is a floating-point number (computed).
pub fn is_float_literal(v: &Vec<char>) -> (r: bool)
    ensures
        r == float_lit(v@),
{
    let n = v.len();
    let st: usize = if n > 0 && (v[0] == '+' || v[0] == '-') {
        1
    } else {
        0
    };
    let b = slice_chars(v, st, n);
    assert(b@ =~= v@.skip(st as int));
    let bs = crate::text::string_from(&b);
    if eq_ignore_ascii_case(bs.as_str(), "inf") || eq_ignore_ascii_case(bs.as_str(), "infinity")
        || eq_ignore_ascii_case(bs.as_str(), "nan") {
        return true;
    }
    let e = exp_pos_exec(&b);
    let mant = slice_chars(&b, 0, e);
    assert(mant@ =~= b@.take(e as int));
    let d = dot_pos_exec(&mant);
    let ml = mant.len();
    let has_dot = d < ml;
    let b0: usize = if has_dot {
        d + 1
    } else {
        ml
    };
    assert(mant@.take(d as int) =~= mant@.subrange(0, d as int));
    assert(has_dot ==> mant@.skip(d + 1) =~= mant@.subrange(b0 as int, ml as int));
    assert(!has_dot ==> Seq::<char>::empty() =~= mant@.subrange(b0 as int, ml as int));
    if !(all_digits_exec(&mant, 0, d) && all_digits_exec(&mant, b0, ml) && d + (ml - b0) >= 1) {
        return false;
    }
    if e == b.len() {
        return true;
    }
    let x = slice_chars(&b, e + 1, b.len());
    assert(x@ =~= b@.skip(e + 1));
    let xs: usize = if x.len() > 0 && (x[0] == '+' || x[0] == '-') {
        1
    } else {
        0
    };
    assert(x@.skip(xs as int) =~= x@.subrange(xs as int, x@.len() as int));
    x.len() > xs && all_digits_exec(&x, xs, x.len())
}

/// The state of the walk: whether a background filter input has been seen.
pub struct CleanupEnableBackgroundVisitor {
    pub has_background_image_filter: bool,
}

impl CleanupEnableBackgroundVisitor {
    /// A walk that has seen nothing yet.
    pub fn new() -> (r: Self)
        ensures
            !r.has_background_image_filter,
    {
        CleanupEnableBackgroundVisitor { has_background_image_filter: false }
    }

    /// What an `enable-background` value is.
    pub fn parse_enable_background(&self, value: &str) -> (r: Option<EnableBackground>)
        ensures
            r == parse_eb(value@),
    {
        let t = trim_chars(&chars_of(value));
        let ts = crate::text::string_from(&t);
        if str_eq(ts.as_str(), "new") {
            return Some(EnableBackground::New);
        }
        if str_eq(ts.as_str(), "accumulate") {
            return Some(EnableBackground::Accumulate);
        }
        if crate::text::starts_with_str(ts.as_str(), "new ") {
            proof {
                reveal_strlit("new ");
            }
            let rest = slice_chars(&t, 4, t.len());
            assert(rest@ =~= t@.skip(4));
            let parts = split_whitespace(&rest);
            if parts.len() == 4 && is_float_literal(&parts[0]) && is_float_literal(&parts[1])
                && is_float_literal(&parts[2]) && is_float_literal(&parts[3]) {
                return Some(EnableBackground::NewWithCoords);
            }
        }
        None
    }

    /// Whether attributes may apply a filter.
    pub fn element_has_filter_with_background(&self, element: &Element) -> (r: bool)
        ensures
            r == has_filter(element.attributes@),
    {
        if element.attributes.contains_key("filter") {
            return true;
        }
        match element.attributes.get("style") {
            Some(style) => contains_str(style.as_str(), "filter:") || contains_str(
                style.as_str(),
                "filter ",
            ),
            None => false,
        }
    }

    /// Whether `enable-background="value"` goes from `element` in the current state.
    pub fn should_remove_enable_background(&self, value: &str, element: &Element) -> (r: bool)
        ensures
            r == removes_bg(self.has_background_image_filter, value@, elem_model(*element)),
    {
        if self.has_background_image_filter {
            return false;
        }
        if self.element_has_filter_with_background(element) {
            return false;
        }
        if let Some(EnableBackground::New) = self.parse_enable_background(value) {
            return true;
        }
        !(element.is_named("svg") || element.is_named("symbol") || element.is_named("image")
            || element.is_named("foreignObject"))
    }

    /// Records whether `element` reads the background as a filter input.
    pub fn check_for_background_image_filter(&mut self, element: &Element)
        ensures
            final(self).has_background_image_filter == (old(self).has_background_image_filter
                || is_bg_filter(elem_model(*element))),
    {
        if element.is_named("feImage") || element.is_named("feBlend") {
            match element.attributes.get("in") {
                Some(v) => {
                    if str_eq(v.as_str(), "BackgroundImage") || str_eq(v.as_str(), "BackgroundAlpha") {
                        self.has_background_image_filter = true;
                    }
                },
                None => {},
            }
            match element.attributes.get("in2") {
                Some(v) => {
                    if str_eq(v.as_str(), "BackgroundImage") || str_eq(v.as_str(), "BackgroundAlpha") {
                        self.has_background_image_filter = true;
                    }
                },
                None => {},
            }
        }
    }

    /// Cleans `e` and every element below it.
    pub fn clean_element(&mut self, e: Element) -> (res: Element)
        ensures
            (elem_model(res), final(self).has_background_image_filter) == cleaned(
                elem_model(e),
                old(self).has_background_image_filter,
            ),
        decreases e,
    {
        let ghost e0 = e;
        let ghost m0 = elem_model(e);
        self.check_for_background_image_filter(&e);
        let ghost s0 = self.has_background_image_filter;
        let Element { name, attributes, namespaces, children } = e;
        let mut children = children;
        let n = children.len();
        let mut j: usize = 0;
        while j < n
            invariant
                e == e0,
                m0 == elem_model(e0),
                n == children@.len(),
                n == e0.children@.len(),
                0 <= j <= n,
                cleaned_kids(m0, s0, j as nat).0.len() == j,
                self.has_background_image_filter == cleaned_kids(m0, s0, j as nat).1,
                forall|t: int|
                    0 <= t < j ==> node_model(#[trigger] children@[t]) == cleaned_kids(m0, s0, j as nat).0[t],
                forall|t: int| j <= t < n ==> children@[t] == e0.children@[t],
            decreases n - j,
        {
            let ghost prev = cleaned_kids(m0, s0, j as nat);
            assert(m0.children[j as int] == node_model(e0.children@[j as int]));
            let mut tmp = Node::Text(String::new());
            std::mem::swap(&mut children[j], &mut tmp);
            let next = match tmp {
                Node::Element(c) => {
                    proof {
                        assert(decreases_to!(e0 => e0.children));
                        assert(decreases_to!(e0.children => e0.children[j as int]));
                        assert(decreases_to!(e0 => c));
                    }
                    Node::Element(self.clean_element(c))
                },
                other => other,
            };
            children.set(j, next);
            assert(cleaned_kids(m0, s0, (j + 1) as nat) == (
                prev.0.push(cleaned_node(m0.children[j as int], prev.1).0),
                cleaned_node(m0.children[j as int], prev.1).1,
            ));
            j += 1;
        }
        let mut attributes = attributes;
        let ghost kids = cleaned_kids(m0, s0, n as nat);
        let res_children = children;
        let probe = Element { name, attributes, namespaces, children: Vec::new() };
        let mut probe = probe;
        match probe.attributes.get_cloned("enable-background") {
            Some(v) => {
                if self.should_remove_enable_background(v.as_str(), &probe) {
                    probe.attributes.shift_remove("enable-background");
                }
            },
            None => {},
        }
        let Element { name, attributes, namespaces, children: _ } = probe;
        let res = Element { name, attributes, namespaces, children: res_children };
        assert(elem_model(res).children =~= kids.0);
        res
    }
}

/// Plugin that removes `enable-background` where it has no effect.
pub struct CleanupEnableBackgroundPlugin {}

impl CleanupEnableBackgroundPlugin {
    /// The plugin.
    pub fn new() -> (r: Self) {
        CleanupEnableBackgroundPlugin {  }
    }

    /// The plugin's name.
    pub fn name(&self) -> (r: &'static str)
        ensures
            r@ == "cleanupEnableBackground"@,
    {
        "cleanupEnableBackground"
    }

    /// What the plugin does.
    pub fn description(&self) -> (r: &'static str)
        ensures
            r@ == "Remove or cleanup enable-background attribute when possible"@,
    {
        "Remove or cleanup enable-background attribute when possible"
    }

    /// Removes `enable-background` where it has no effect, everywhere under the root.
    pub fn apply(&self, document: &mut Document) -> (r: Result<(), PluginError>)
        ensures
            r is Ok,
            doc_model(*final(document)) == doc_with_root(
                doc_model(*old(document)),
                cleaned(doc_model(*old(document)).root, false).0,
            ),
    {
        let mut visitor = CleanupEnableBackgroundVisitor::new();
        let root = take_root(document);
        document.root = visitor.clean_element(root);
        Ok(())
    }
}

} // verus!
