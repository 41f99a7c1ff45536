//! Turns the declarations of `style` attributes into presentation attributes where
//! possible.
use vstd::prelude::*;
use crate::ast::{
    attr_get, attr_set, attr_swap_remove, doc_model, doc_with_root, has_key, Attributes, AttrsM,
    Document, ElemM, Element, PluginError,
};
use crate::pattern::{
    captures_model, pattern_captures, pattern_compiles, pattern_replaced, regex_captures,
    regex_replace_all,
};
use crate::plugins::inline_styles::{is_presentation_attribute, presentation_attrs, set_all};
use crate::text::{
    chars_of, extend_str, in_table, owned, starts_with_seq, starts_with_str, string_from,
    trim_chars, trim_seq,
};
use crate::walk::{rewrite_document, rewrite_tree, ElementRewrite};

verus! {

broadcast use vstd::string::group_string_axioms;

/// The regular expression that reads the declarations of a `style` value: a comment,
/// or a property, `:`, a value (comments and quoted strings allowed in it), an
/// optional `!important`, and the end of the declaration.
pub const CSS_DECLARATION_PATTERN: &'static str = r#"(?x)
        (?:
            /\*[\s\S]*?\*/  # CSS comments
            |
            (?:
                ([-\w]+)  # property name
                \s*:\s*
                (
                    (?:
                        /\*[\s\S]*?\*/  # inline comments
                        |
                        '(?:[^'\\]|\\.)*'  # single-quoted strings
                        |
                        "(?:[^"\\]|\\.)*"  # double-quoted strings
                        |
                        [^;'"/!]  # any other character except !
                    )+?
                )
                \s*
                (!important)?  # optional !important
            )
            \s*(?:;|$)  # declaration end
        )
        "#;

/// The regular expression of a CSS comment.
pub const CSS_COMMENT_PATTERN: &'static str = r"/\*[\s\S]*?\*/";

/// Settings of the plugin.
pub struct ConvertStyleToAttrsConfig {
    /// Keep `!important` declarations of presentation attributes in the style.
    pub keep_important: bool,
}

impl Default for ConvertStyleToAttrsConfig {
    fn default() -> (r: Self)
        ensures
            !r.keep_important,
    {
        ConvertStyleToAttrsConfig { keep_important: false }
    }
}

/// Plugin that turns style declarations into attributes.
pub struct ConvertStyleToAttrsPlugin {
    pub config: ConvertStyleToAttrsConfig,
}

/// Whether both regular expressions compile.
pub open spec fn patterns_ok() -> bool {
    pattern_compiles(CSS_DECLARATION_PATTERN@) && pattern_compiles(CSS_COMMENT_PATTERN@)
}

/// Capture group `i` of a match.
pub open spec fn group(cap: Seq<Option<Seq<char>>>, i: int) -> Option<Seq<char>> {
    if 0 <= i < cap.len() {
        cap[i]
    } else {
        None
    }
}

/// A declaration written out: `name: value`, with ` !important` when marked so.
pub open spec fn decl_text(prop: Seq<char>, value: Seq<char>, important: bool) -> Seq<char> {
    prop + ": "@ + value + if important {
        " !important"@
    } else {
        seq![]
    }
}

/// A value without its comments, trimmed.
pub open spec fn clean_value(v: Seq<char>) -> Seq<char> {
    trim_seq(pattern_replaced(CSS_COMMENT_PATTERN@, v, ""@))
}

/// What one match gives: an attribute to add, and a piece to keep in the style. A
/// presentation attribute becomes an attribute unless it is `!important` (kept in the
/// style when so configured, dropped otherwise) or the element already has it (kept in
/// the style); any other declaration stays in the style; a match without a declaration
/// stays, trimmed, unless it is empty or a comment.
pub open spec fn capture_effect(keep_important: bool, attrs: AttrsM, cap: Seq<Option<Seq<char>>>) -> (
    Option<(Seq<char>, Seq<char>)>,
    Option<Seq<char>>,
) {
    if group(cap, 1) is Some && group(cap, 2) is Some {
        let prop = trim_seq(group(cap, 1).unwrap());
        let value = clean_value(group(cap, 2).unwrap());
        let imp = group(cap, 3) is Some;
        if in_table(presentation_attrs(), prop) {
            if imp {
                if keep_important {
                    (None, Some(decl_text(prop, value, true)))
                } else {
                    (None, None)
                }
            } else if !has_key(attrs, prop) {
                (Some((prop, value)), None)
            } else {
                (None, Some(decl_text(prop, value, false)))
            }
        } else {
            (None, Some(decl_text(prop, value, imp)))
        }
    } else {
        match group(cap, 0) {
            Some(w) => if trim_seq(w).len() > 0 && !starts_with_seq(trim_seq(w), "/*"@) {
                (None, Some(trim_seq(w)))
            } else {
                (None, None)
            },
            None => (None, None),
        }
    }
}

/// The attributes the matches add, in order.
pub open spec fn new_attrs_of(k: bool, attrs: AttrsM, caps: Seq<Seq<Option<Seq<char>>>>) -> AttrsM
    decreases caps.len(),
{
    if caps.len() == 0 {
        seq![]
    } else {
        new_attrs_of(k, attrs, caps.drop_last()) + match capture_effect(k, attrs, caps.last()).0 {
            Some(p) => seq![p],
            None => seq![],
        }
    }
}

/// The pieces the matches keep in the style, in order.
pub open spec fn remaining_of(k: bool, attrs: AttrsM, caps: Seq<Seq<Option<Seq<char>>>>) -> Seq<
    Seq<char>,
>
    decreases caps.len(),
{
    if caps.len() == 0 {
        seq![]
    } else {
        remaining_of(k, attrs, caps.drop_last()) + match capture_effect(
            k,
            attrs,
            caps.last(),
        ).1 {
            Some(p) => seq![p],
            None => seq![],
        }
    }
}

/// The pieces joined with `sep` between them.
pub open spec fn join_pieces(s: Seq<Seq<char>>, sep: Seq<char>) -> Seq<char>
    decreases s.len(),
{
    if s.len() == 0 {
        seq![]
    } else if s.len() == 1 {
        s[0]
    } else {
        join_pieces(s.drop_last(), sep) + sep + s.last()
    }
}

/// The attributes of an element once its `style` is converted: the new attributes
/// set in order, then the `style` set to the kept pieces joined with `; `, or removed
/// (the last attribute taking its place) when nothing is kept.
pub open spec fn styled_to_attrs(k: bool, a: AttrsM) -> AttrsM {
    if !patterns_ok() {
        a
    } else {
        match attr_get(a, "style"@) {
            Some(st) => {
                let caps = pattern_captures(CSS_DECLARATION_PATTERN@, st);
                let a1 = set_all(a, new_attrs_of(k, a, caps));
                let rem = remaining_of(k, a, caps);
                if rem.len() == 0 {
                    attr_swap_remove(a1, "style"@)
                } else {
                    attr_set(a1, "style"@, join_pieces(rem, "; "@))
                }
            },
            None => a,
        }
    }
}

/// A declaration written out (computed).
fn decl_text_exec(prop: &Vec<char>, value: &Vec<char>, important: bool) -> (r: String)
    ensures
        r@ == decl_text(prop@, value@, important),
{
    let mut v: Vec<char> = Vec::new();
    crate::text::extend_chars(&mut v, prop);
    extend_str(&mut v, ": ");
    crate::text::extend_chars(&mut v, value);
    if important {
        extend_str(&mut v, " !important");
    } else {
        assert(v@ =~= v@ + Seq::<char>::empty());
    }
    string_from(&v)
}

/// Group `i` of a match (computed).
fn group_exec(cap: &Vec<Option<String>>, i: usize) -> (r: Option<String>)
    ensures
        match r {
            Some(g) => group(
                cap@.map_values(
                    |g: Option<String>|
                        match g {
                            Some(x) => Some(x@),
                            None => None,
                        },
                ),
                i as int,
            ) == Some(g@),
            None => group(
                cap@.map_values(
                    |g: Option<String>|
                        match g {
                            Some(x) => Some(x@),
                            None => None,
                        },
                ),
                i as int,
            ) is None,
        },
{
    if i < cap.len() {
        match &cap[i] {
            Some(g) => Some(g.clone()),
            None => None,
        }
    } else {
        None
    }
}

/// What one match gives (computed).
fn capture_effect_exec(keep_important: bool, attrs: &Attributes, cap: &Vec<Option<String>>) -> (r: (
    Option<(String, String)>,
    Option<String>,
))
    requires
        patterns_ok(),
    ensures
        ({
            let e = capture_effect(
                keep_important,
                attrs@,
                cap@.map_values(
                    |g: Option<String>|
                        match g {
                            Some(x) => Some(x@),
                            None => None,
                        },
                ),
            );
            &&& (match r.0 {
                Some(p) => e.0 == Some((p.0@, p.1@)),
                None => e.0 is None,
            })
            &&& (match r.1 {
                Some(p) => e.1 == Some(p@),
                None => e.1 is None,
            })
        }),
{
    let g1 = group_exec(cap, 1);
    let g2 = group_exec(cap, 2);
    if g1.is_some() && g2.is_some() {
        let p0 = g1.unwrap();
        let v0 = g2.unwrap();
        let prop = trim_chars(&chars_of(p0.as_str()));
        let stripped = match regex_replace_all(CSS_COMMENT_PATTERN, v0.as_str(), "") {
            Some(x) => x,
            None => String::new(),
        };
        let value = trim_chars(&chars_of(stripped.as_str()));
        let imp = group_exec(cap, 3).is_some();
        let prop_s = string_from(&prop);
        if is_presentation_attribute(prop_s.as_str()) {
            if imp {
                if keep_important {
                    (None, Some(decl_text_exec(&prop, &value, true)))
                } else {
                    (None, None)
                }
            } else if !attrs.contains_key(prop_s.as_str()) {
                (Some((prop_s, string_from(&value))), None)
            } else {
                (None, Some(decl_text_exec(&prop, &value, false)))
            }
        } else {
            (None, Some(decl_text_exec(&prop, &value, imp)))
        }
    } else {
        match group_exec(cap, 0) {
            Some(w) => {
                let t = trim_chars(&chars_of(w.as_str()));
                let ts = string_from(&t);
                if t.len() > 0 && !starts_with_str(ts.as_str(), "/*") {
                    (None, Some(ts))
                } else {
                    (None, None)
                }
            },
            None => (None, None),
        }
    }
}

impl ElementRewrite for ConvertStyleToAttrsPlugin {
    open spec fn spec_marks(&self, m: ElemM) -> bool {
        false
    }

    open spec fn spec_name(&self, m: ElemM, inside: bool) -> Seq<char> {
        m.name
    }

    open spec fn spec_attrs(&self, m: ElemM, inside: bool) -> AttrsM {
        styled_to_attrs(self.config.keep_important, m.attrs)
    }

    fn marks(&self, e: &Element) -> (b: bool) {
        false
    }

    fn rewrite(&self, e: &mut Element, inside: bool) {
        let k = self.config.keep_important;
        let ok = regex_captures(CSS_DECLARATION_PATTERN, "").is_some() && regex_replace_all(
            CSS_COMMENT_PATTERN,
            "",
            "",
        ).is_some();
        if !ok {
            return ;
        }
        let st = match e.attributes.get_cloned("style") {
            Some(st) => st,
            None => {
                return ;
            },
        };
        let caps = match regex_captures(CSS_DECLARATION_PATTERN, st.as_str()) {
            Some(c) => c,
            None => {
                return ;
            },
        };
        let ghost cm = captures_model(caps@);
        let ghost a0 = e.attributes@;
        let mut new_attrs: Vec<(String, String)> = Vec::new();
        let mut remaining: Vec<String> = Vec::new();
        let n = caps.len();
        let mut i: usize = 0;
        assert(cm.take(0) =~= Seq::<Seq<Option<Seq<char>>>>::empty());
        assert(Seq::new(new_attrs@.len(), |j: int| (new_attrs@[j].0@, new_attrs@[j].1@)) =~= seq![]);
        assert(remaining@.map_values(|s: String| s@) =~= seq![]);
        while i < n
            invariant
                n == caps@.len(),
                cm == captures_model(caps@),
                cm == pattern_captures(CSS_DECLARATION_PATTERN@, st@),
                a0 == e.attributes@,
                patterns_ok(),
                0 <= i <= n,
                Seq::new(new_attrs@.len(), |j: int| (new_attrs@[j].0@, new_attrs@[j].1@))
                    == new_attrs_of(k, a0, cm.take(i as int)),
                remaining@.map_values(|s: String| s@) == remaining_of(k, a0, cm.take(i as int)),
            decreases n - i,
        {
            assert(cm.take(i + 1).drop_last() =~= cm.take(i as int));
            assert(cm[i as int] == caps@[i as int]@.map_values(
                |g: Option<String>|
                    match g {
                        Some(x) => Some(x@),
                        None => None,
                    },
            ));
            let ghost nm = Seq::new(new_attrs@.len(), |j: int| (new_attrs@[j].0@, new_attrs@[j].1@));
            let ghost rm = remaining@.map_values(|s: String| s@);
            let (na, piece) = capture_effect_exec(k, &e.attributes, &caps[i]);
            match na {
                Some(p) => {
                    let ghost pm = (p.0@, p.1@);
                    new_attrs.push(p);
                    assert(Seq::new(new_attrs@.len(), |j: int| (new_attrs@[j].0@, new_attrs@[j].1@))
                        =~= nm + seq![pm]);
                },
                None => {
                    assert(nm =~= nm + Seq::<(Seq<char>, Seq<char>)>::empty());
                },
            }
            match piece {
                Some(p) => {
                    let ghost pm = p@;
                    remaining.push(p);
                    assert(remaining@.map_values(|s: String| s@) =~= rm + seq![pm]);
                },
                None => {
                    assert(rm =~= rm + Seq::<Seq<char>>::empty());
                },
            }
            i += 1;
        }
        assert(cm.take(n as int) =~= cm);
        let ghost na_all = Seq::new(new_attrs@.len(), |j: int| (new_attrs@[j].0@, new_attrs@[j].1@));
        let m = new_attrs.len();
        let mut j: usize = 0;
        assert(na_all.take(0) =~= Seq::<(Seq<char>, Seq<char>)>::empty());
        while j < m
            invariant
                m == new_attrs@.len(),
                na_all == Seq::new(new_attrs@.len(), |t: int| (new_attrs@[t].0@, new_attrs@[t].1@)),
                0 <= j <= m,
                e.name == old(e).name,
                e.children == old(e).children,
                e.namespaces == old(e).namespaces,
                e.attributes@ == set_all(a0, na_all.take(j as int)),
            decreases m - j,
        {
            assert(na_all.take(j + 1).drop_last() =~= na_all.take(j as int));
            let key = new_attrs[j].0.clone();
            let val = new_attrs[j].1.clone();
            e.attributes.insert(key, val);
            j += 1;
        }
        assert(na_all.take(m as int) =~= na_all);
        if remaining.len() == 0 {
            e.attributes.swap_remove("style");
        } else {
            let ghost rm = remaining@.map_values(|s: String| s@);
            let mut out: Vec<char> = Vec::new();
            let r = remaining.len();
            let mut t: usize = 0;
            while t < r
                invariant
                    r == remaining@.len(),
                    r > 0,
                    rm == remaining@.map_values(|s: String| s@),
                    0 <= t <= r,
                    t > 0 ==> out@ == join_pieces(rm.take(t as int), "; "@),
                    t == 0 ==> out@.len() == 0,
                decreases r - t,
            {
                if t > 0 {
                    extend_str(&mut out, "; ");
                    assert(rm.take(t + 1).drop_last() =~= rm.take(t as int));
                } else {
                    assert(rm.take(1) =~= seq![rm[0]]);
                }
                let ghost o = out@;
                extend_str(&mut out, remaining[t].as_str());
                if t == 0 {
                    assert(out@ =~= rm[0]);
                }
                t += 1;
            }
            assert(rm.take(r as int) =~= rm);
            e.attributes.insert(owned("style"), string_from(&out));
        }
    }
}

/// A value without its CSS comments (every match of the comment expression removed).
pub fn strip_css_comments(value: &str) -> (r: Option<String>)
    ensures
        r is Some <==> pattern_compiles(CSS_COMMENT_PATTERN@),
        r is Some ==> r.unwrap()@ == pattern_replaced(CSS_COMMENT_PATTERN@, value@, ""@),
{
    regex_replace_all(CSS_COMMENT_PATTERN, value, "")
}

impl ConvertStyleToAttrsPlugin {
    /// The plugin with default settings.
    pub fn new() -> (r: Self)
        ensures
            !r.config.keep_important,
    {
        ConvertStyleToAttrsPlugin { config: ConvertStyleToAttrsConfig::default() }
    }

    /// The plugin with the given settings.
    pub fn with_config(config: ConvertStyleToAttrsConfig) -> (r: Self)
        ensures
            r.config == config,
    {
        ConvertStyleToAttrsPlugin { config }
    }

    /// The plugin's name.
    pub fn name(&self) -> (r: &'static str)
        ensures
            r@ == "convertStyleToAttrs"@,
    {
        "convertStyleToAttrs"
    }

    /// What the plugin does.
    pub fn description(&self) -> (r: &'static str)
        ensures
            r@ == "Convert inline styles to SVG presentation attributes"@,
    {
        "Convert inline styles to SVG presentation attributes"
    }

    /// Converts the style declarations of every element; fails, leaving the document
    /// as it is, only when one of the plugin's regular expressions does not compile.
    pub fn apply(&self, document: &mut Document) -> (r: Result<(), PluginError>)
        ensures
            r is Ok <==> patterns_ok(),
            r is Ok ==> doc_model(*final(document)) == doc_with_root(
                doc_model(*old(document)),
                rewrite_tree(*self, doc_model(*old(document)).root, false),
            ),
            r is Err ==> *final(document) == *old(document),
    {
        let ok = regex_captures(CSS_DECLARATION_PATTERN, "").is_some() && regex_replace_all(
            CSS_COMMENT_PATTERN,
            "",
            "",
        ).is_some();
        if !ok {
            return Err(PluginError::InvalidConfig(String::from_str("a style pattern does not compile")));
        }
        rewrite_document(self, document);
        Ok(())
    }
}

} // verus!
