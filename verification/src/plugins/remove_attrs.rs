//! Removes the attributes that match patterns of the form `element:attribute:value`,
//! each part a regular expression.
use vstd::prelude::*;
use crate::ast::{doc_model, doc_with_root, AttrsM, Document, ElemM, Element, PluginError};
use crate::pattern::{pattern_compiles, pattern_matches, regex_is_match};
use crate::text::{
    chars_of, extend_chars, extend_str, lowercase, split_str, split_str_exec, str_eq, string_from,
    to_lowercase,
};
use crate::walk::{rewrite_document, rewrite_tree, ElementRewrite};

verus! {

broadcast use vstd::string::group_string_axioms;

/// Settings of the plugin.
pub struct RemoveAttrsConfig {
    /// The patterns: `attribute`, `element:attribute` or `element:attribute:value`.
    pub attrs: Vec<String>,
    /// What separates the parts of a pattern.
    pub elem_separator: String,
    /// Keep `fill` and `stroke` whose value is `currentColor` in any case.
    pub preserve_current_color: bool,
}

impl Default for RemoveAttrsConfig {
    fn default() -> (r: Self)
        ensures
            r.attrs@.len() == 0,
            r.elem_separator@ == ":"@,
            !r.preserve_current_color,
    {
        RemoveAttrsConfig {
            attrs: Vec::new(),
            elem_separator: String::from_str(":"),
            preserve_current_color: false,
        }
    }
}

/// Plugin that removes attributes by pattern.
pub struct RemoveAttrsPlugin {
    pub config: RemoveAttrsConfig,
}

/// A part `*` stands for `.*`.
pub open spec fn star_part(p: Seq<char>) -> Seq<char> {
    if p == "*"@ {
        ".*"@
    } else {
        p
    }
}

/// The element, attribute and value parts of a pattern, the missing ones matching
/// anything; `None` when it has more than three parts.
pub open spec fn pattern_parts(pattern: Seq<char>, sep: Seq<char>) -> Option<Seq<Seq<char>>> {
    let parts = split_str(pattern, sep);
    if parts.len() == 1 {
        Some(seq![".*"@, star_part(parts[0]), ".*"@])
    } else if parts.len() == 2 {
        Some(seq![star_part(parts[0]), star_part(parts[1]), ".*"@])
    } else if parts.len() == 3 {
        Some(seq![star_part(parts[0]), star_part(parts[1]), star_part(parts[2])])
    } else {
        None
    }
}

/// A part anchored at both ends.
pub open spec fn anchored(part: Seq<char>) -> Seq<char> {
    "^"@ + part + "$"@
}

/// Whether a pattern has at most three parts, each compiling once anchored.
pub open spec fn pattern_ok(pattern: Seq<char>, sep: Seq<char>) -> bool {
    match pattern_parts(pattern, sep) {
        Some(ps) => pattern_compiles(anchored(ps[0])) && pattern_compiles(anchored(ps[1]))
            && pattern_compiles(anchored(ps[2])),
        None => false,
    }
}

/// Whether an anchored part compiles and matches a text.
pub open spec fn part_hits(part: Seq<char>, text: Seq<char>) -> bool {
    pattern_compiles(anchored(part)) && pattern_matches(anchored(part), text)
}

/// Whether a pattern matches an element name, an attribute name and its value.
pub open spec fn pattern_hits(
    pattern: Seq<char>,
    sep: Seq<char>,
    elem: Seq<char>,
    name: Seq<char>,
    value: Seq<char>,
) -> bool {
    match pattern_parts(pattern, sep) {
        Some(ps) => part_hits(ps[0], elem) && part_hits(ps[1], name) && part_hits(ps[2], value),
        None => false,
    }
}

/// Whether an attribute is kept as `currentColor`: `fill` or `stroke` whose value is
/// `currentcolor` in lower case, when so configured.
pub open spec fn keeps_current_color(pcc: bool, a: (Seq<char>, Seq<char>)) -> bool {
    pcc && (a.0 == "fill"@ || a.0 == "stroke"@) && lowercase(a.1) == "currentcolor"@
}

/// Whether an attribute of an element named `elem` goes.
pub open spec fn attr_removed(
    pats: Seq<Seq<char>>,
    sep: Seq<char>,
    pcc: bool,
    elem: Seq<char>,
    a: (Seq<char>, Seq<char>),
) -> bool {
    (exists|i: int| 0 <= i < pats.len() && #[trigger] pattern_hits(pats[i], sep, elem, a.0, a.1))
        && !keeps_current_color(pcc, a)
}

/// The attributes of an element named `elem` that stay, in order.
pub open spec fn kept_attrs(
    pats: Seq<Seq<char>>,
    sep: Seq<char>,
    pcc: bool,
    elem: Seq<char>,
    s: AttrsM,
) -> AttrsM
    decreases s.len(),
{
    if s.len() == 0 {
        seq![]
    } else {
        kept_attrs(pats, sep, pcc, elem, s.drop_last()) + if attr_removed(
            pats,
            sep,
            pcc,
            elem,
            s.last(),
        ) {
            seq![]
        } else {
            seq![s.last()]
        }
    }
}

/// Whether the configuration can be used: at least one pattern, each well formed.
pub open spec fn config_ok(cfg: RemoveAttrsConfig) -> bool {
    cfg.attrs@.len() > 0 && forall|i: int|
        0 <= i < cfg.attrs@.len() ==> #[trigger] pattern_ok(cfg.attrs@[i]@, cfg.elem_separator@)
}

/// The patterns of a configuration.
pub open spec fn patterns_of(cfg: RemoveAttrsConfig) -> Seq<Seq<char>> {
    cfg.attrs@.map_values(|s: String| s@)
}

/// A part with `*` read as `.*` (computed).
fn star_part_exec(p: &Vec<char>) -> (r: Vec<char>)
    ensures
        r@ == star_part(p@),
{
    proof {
        reveal_strlit("*");
    }
    if p.len() == 1 && p[0] == '*' {
        assert(p@ =~= "*"@);
        chars_of(".*")
    } else {
        p.clone()
    }
}

/// The parts of a pattern (computed).
fn pattern_parts_exec(pattern: &str, sep: &str) -> (r: Option<Vec<Vec<char>>>)
    ensures
        match r {
            Some(v) => pattern_parts(pattern@, sep@) is Some && v@.len() == 3 && forall|k: int|
                0 <= k < 3 ==> #[trigger] v@[k]@ == pattern_parts(pattern@, sep@).unwrap()[k],
            None => pattern_parts(pattern@, sep@) is None,
        },
{
    let parts = split_str_exec(&chars_of(pattern), &chars_of(sep));
    let ghost ps = split_str(pattern@, sep@);
    let n = parts.len();
    let mut out: Vec<Vec<char>> = Vec::new();
    if n == 1 {
        out.push(chars_of(".*"));
        out.push(star_part_exec(&parts[0]));
        out.push(chars_of(".*"));
    } else if n == 2 {
        out.push(star_part_exec(&parts[0]));
        out.push(star_part_exec(&parts[1]));
        out.push(chars_of(".*"));
    } else if n == 3 {
        out.push(star_part_exec(&parts[0]));
        out.push(star_part_exec(&parts[1]));
        out.push(star_part_exec(&parts[2]));
    } else {
        return None;
    }
    let ghost want = pattern_parts(pattern@, sep@).unwrap();
    assert(out@[0]@ == want[0] && out@[1]@ == want[1] && out@[2]@ == want[2]);
    Some(out)
}

/// The anchored form of a part (computed).
fn anchored_exec(part: &Vec<char>) -> (r: String)
    ensures
        r@ == anchored(part@),
{
    let mut v: Vec<char> = Vec::new();
    extend_str(&mut v, "^");
    extend_chars(&mut v, part);
    extend_str(&mut v, "$");
    string_from(&v)
}

/// Whether a pattern is well formed (computed).
fn pattern_ok_exec(pattern: &str, sep: &str) -> (r: bool)
    ensures
        r == pattern_ok(pattern@, sep@),
{
    match pattern_parts_exec(pattern, sep) {
        Some(ps) => {
            let a = anchored_exec(&ps[0]);
            let b = anchored_exec(&ps[1]);
            let c = anchored_exec(&ps[2]);
            regex_is_match(a.as_str(), "").is_some() && regex_is_match(b.as_str(), "").is_some()
                && regex_is_match(c.as_str(), "").is_some()
        },
        None => false,
    }
}

/// Whether an anchored part compiles and matches (computed).
fn part_hits_exec(part: &Vec<char>, text: &str) -> (r: bool)
    ensures
        r == part_hits(part@, text@),
{
    let a = anchored_exec(part);
    match regex_is_match(a.as_str(), text) {
        Some(b) => b,
        None => false,
    }
}

/// Whether a pattern matches (computed).
fn pattern_hits_exec(pattern: &str, sep: &str, elem: &str, name: &str, value: &str) -> (r: bool)
    ensures
        r == pattern_hits(pattern@, sep@, elem@, name@, value@),
{
    match pattern_parts_exec(pattern, sep) {
        Some(ps) => part_hits_exec(&ps[0], elem) && part_hits_exec(&ps[1], name) && part_hits_exec(
            &ps[2],
            value,
        ),
        None => false,
    }
}

impl ElementRewrite for RemoveAttrsPlugin {
    open spec fn spec_marks(&self, m: ElemM) -> bool {
        false
    }

    open spec fn spec_name(&self, m: ElemM, inside: bool) -> Seq<char> {
        m.name
    }

    open spec fn spec_attrs(&self, m: ElemM, inside: bool) -> AttrsM {
        kept_attrs(
            patterns_of(self.config),
            self.config.elem_separator@,
            self.config.preserve_current_color,
            m.name,
            m.attrs,
        )
    }

    fn marks(&self, e: &Element) -> (b: bool) {
        false
    }

    fn rewrite(&self, e: &mut Element, inside: bool) {
        let ghost pats = patterns_of(self.config);
        let ghost sep = self.config.elem_separator@;
        let ghost pcc = self.config.preserve_current_color;
        let ghost a0 = e.attributes@;
        let mut kept: Vec<(String, String)> = Vec::new();
        let n = e.attributes.entries.len();
        let mut i: usize = 0;
        assert(a0.take(0) =~= Seq::<(Seq<char>, Seq<char>)>::empty());
        while i < n
            invariant
                n == e.attributes.entries@.len(),
                a0 == e.attributes@,
                pats == patterns_of(self.config),
                sep == self.config.elem_separator@,
                pcc == self.config.preserve_current_color,
                0 <= i <= n,
                Seq::new(kept@.len(), |j: int| (kept@[j].0@, kept@[j].1@)) == kept_attrs(
                    pats,
                    sep,
                    pcc,
                    e.name@,
                    a0.take(i as int),
                ),
            decreases n - i,
        {
            assert(a0.take(i + 1).drop_last() =~= a0.take(i as int));
            let ghost ent = a0[i as int];
            let name = e.attributes.entries[i].0.as_str();
            let value = e.attributes.entries[i].1.as_str();
            let mut hit = false;
            let m = self.config.attrs.len();
            let mut j: usize = 0;
            while j < m
                invariant
                    m == self.config.attrs@.len(),
                    pats == patterns_of(self.config),
                    sep == self.config.elem_separator@,
                    0 <= j <= m,
                    ent == (name@, value@),
                    hit == exists|k: int|
                        0 <= k < j && #[trigger] pattern_hits(pats[k], sep, e.name@, ent.0, ent.1),
                decreases m - j,
            {
                if pattern_hits_exec(
                    self.config.attrs[j].as_str(),
                    self.config.elem_separator.as_str(),
                    e.name.as_str(),
                    name,
                    value,
                ) {
                    assert(pats[j as int] == self.config.attrs@[j as int]@);
                    hit = true;
                }
                proof {
                    assert(pats[j as int] == self.config.attrs@[j as int]@);
                    if hit {
                        let k = choose|k: int|
                            0 <= k < j + 1 && #[trigger] pattern_hits(
                                pats[k],
                                sep,
                                e.name@,
                                ent.0,
                                ent.1,
                            );
                    }
                }
                j += 1;
            }
            let keep_cc = self.config.preserve_current_color && (str_eq(name, "fill") || str_eq(
                name,
                "stroke",
            )) && str_eq(to_lowercase(value).as_str(), "currentcolor");
            let ghost km = Seq::new(kept@.len(), |j: int| (kept@[j].0@, kept@[j].1@));
            if !(hit && !keep_cc) {
                let pair = (e.attributes.entries[i].0.clone(), e.attributes.entries[i].1.clone());
                kept.push(pair);
                assert(Seq::new(kept@.len(), |j: int| (kept@[j].0@, kept@[j].1@)) =~= km + seq![
                    ent,
                ]);
            } else {
                assert(km =~= km + Seq::<(Seq<char>, Seq<char>)>::empty());
            }
            i += 1;
        }
        assert(a0.take(n as int) =~= a0);
        e.attributes.entries = kept;
    }
}

impl RemoveAttrsPlugin {
    /// The plugin with default settings (no pattern).
    pub fn new() -> (r: Self)
        ensures
            r.config.attrs@.len() == 0,
            r.config.elem_separator@ == ":"@,
            !r.config.preserve_current_color,
    {
        RemoveAttrsPlugin { config: RemoveAttrsConfig::default() }
    }

    /// The plugin with the given settings.
    pub fn with_config(config: RemoveAttrsConfig) -> (r: Self)
        ensures
            r.config == config,
    {
        RemoveAttrsPlugin { config }
    }

    /// The plugin's name.
    pub fn name(&self) -> (r: &'static str)
        ensures
            r@ == "removeAttrs"@,
    {
        "removeAttrs"
    }

    /// What the plugin does.
    pub fn description(&self) -> (r: &'static str)
        ensures
            r@ == "removes specified attributes"@,
    {
        "removes specified attributes"
    }

    /// Whether the configuration can be used (computed).
    pub fn check_config(&self) -> (r: bool)
        ensures
            r == config_ok(self.config),
    {
        let n = self.config.attrs.len();
        if n == 0 {
            return false;
        }
        let mut i: usize = 0;
        while i < n
            invariant
                n == self.config.attrs@.len(),
                0 <= i <= n,
                forall|k: int|
                    0 <= k < i ==> #[trigger] pattern_ok(
                        self.config.attrs@[k]@,
                        self.config.elem_separator@,
                    ),
            decreases n - i,
        {
            if !pattern_ok_exec(self.config.attrs[i].as_str(), self.config.elem_separator.as_str()) {
                return false;
            }
            i += 1;
        }
        true
    }

    /// Removes the matching attributes of every element; refuses a configuration
    /// without patterns or with a pattern that is malformed or does not compile, and
    /// then leaves the document as it is.
    pub fn apply(&self, document: &mut Document) -> (r: Result<(), PluginError>)
        ensures
            r is Ok <==> config_ok(self.config),
            r is Ok ==> doc_model(*final(document)) == doc_with_root(
                doc_model(*old(document)),
                rewrite_tree(*self, doc_model(*old(document)).root, false),
            ),
            r is Err ==> *final(document) == *old(document),
    {
        if self.config.attrs.len() == 0 {
            return Err(PluginError::InvalidConfig(String::from_str("removeAttrs plugin requires 'attrs' parameter")));
        }
        if !self.check_config() {
            return Err(PluginError::InvalidConfig(String::from_str("Invalid pattern in 'attrs'")));
        }
        rewrite_document(self, document);
        Ok(())
    }
}

} // verus!
