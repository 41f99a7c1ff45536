//! Settings of the plugin that applies transform matrices to path data, and the reading
//! of transform lists and of the coordinates of path data. The matrix arithmetic itself is binary floating point and is not
//! part of this library.
use vstd::prelude::*;
use crate::ast::{attr_get, elem_model, has_key, ElemM, Element};
use crate::plugins::convert_path_data::{is_float_text, is_float_text_exec};
use crate::text::{
    char_pos, char_pos_exec, chars_of, skip_chars, slice_chars, split_char, split_on, split_whitespace,
    str_eq, string_from, strings_view, trim_chars, trim_seq, words, is_ws, is_whitespace,
};

verus! {

/// A text with each `,` turned into a space.
pub open spec fn comma_to_space(s: Seq<char>) -> Seq<char> {
    Seq::new(s.len(), |i: int| if s[i] == ',' { ' ' } else { s[i] })
}

/// The texts among a list that `f64::from_str` reads, in order.
pub open spec fn float_texts(ws: Seq<Seq<char>>) -> Seq<Seq<char>>
    decreases ws.len(),
{
    if ws.len() == 0 {
        seq![]
    } else {
        float_texts(ws.drop_last()) + if is_float_text(ws.last()) {
            seq![ws.last()]
        } else {
            seq![]
        }
    }
}

/// The transform function a piece of a transform list names, with the texts of its
/// numbers: the trimmed name before the first `(`, and the pieces after it between
/// commas and white space that read as numbers. A blank piece, or one without `(`,
/// names none.
pub open spec fn transform_call(piece: Seq<char>) -> Option<(Seq<char>, Seq<Seq<char>>)> {
    let t = trim_seq(piece);
    let d = char_pos(t, '(') as int;
    if t.len() == 0 || d >= t.len() {
        None
    } else {
        Some((trim_seq(t.take(d)), float_texts(words(comma_to_space(t.skip(d + 1))))))
    }
}

/// The transform functions of the pieces, in order.
pub open spec fn transform_calls(pieces: Seq<Seq<char>>) -> Seq<(Seq<char>, Seq<Seq<char>>)>
    decreases pieces.len(),
{
    if pieces.len() == 0 {
        seq![]
    } else {
        transform_calls(pieces.drop_last()) + match transform_call(pieces.last()) {
            Some(c) => seq![c],
            None => seq![],
        }
    }
}

/// Model of a list of transform functions.
pub open spec fn calls_view(v: Seq<(String, Vec<String>)>) -> Seq<(Seq<char>, Seq<Seq<char>>)> {
    Seq::new(v.len(), |i: int| (v[i].0@, strings_view(v[i].1@)))
}

/// The numbers of a text: the pieces between commas and white space that read as
/// numbers (computed).
pub(crate) fn number_texts(v: &Vec<char>) -> (r: Vec<String>)
    ensures
        strings_view(r@) == float_texts(words(comma_to_space(v@))),
{
    let mut mapped: Vec<char> = Vec::new();
    let n = v.len();
    let mut i: usize = 0;
    while i < n
        invariant
            n == v@.len(),
            0 <= i <= n,
            mapped@ =~= comma_to_space(v@.take(i as int)),
        decreases n - i,
    {
        mapped.push(if v[i] == ',' { ' ' } else { v[i] });
        i += 1;
    }
    assert(v@.take(n as int) =~= v@);
    let ws = split_whitespace(&mapped);
    let ghost wm = words(comma_to_space(v@));
    let mut out: Vec<String> = Vec::new();
    let m = ws.len();
    let mut k: usize = 0;
    assert(wm.take(0) =~= Seq::<Seq<char>>::empty());
    assert(strings_view(out@) =~= seq![]);
    while k < m
        invariant
            m == ws@.len(),
            m == wm.len(),
            forall|j: int| 0 <= j < m ==> #[trigger] ws@[j]@ == wm[j],
            0 <= k <= m,
            strings_view(out@) == float_texts(wm.take(k as int)),
        decreases m - k,
    {
        assert(wm.take(k + 1).drop_last() =~= wm.take(k as int));
        assert(ws@[k as int]@ == wm[k as int]);
        if is_float_text_exec(&ws[k]) {
            let ghost before = strings_view(out@);
            out.push(string_from(&ws[k]));
            assert(strings_view(out@) =~= before + seq![wm[k as int]]);
        } else {
            assert(strings_view(out@) =~= strings_view(out@) + Seq::<Seq<char>>::empty());
        }
        k += 1;
    }
    assert(wm.take(m as int) =~= wm);
    out
}

/// The transform functions of a transform list, with the texts of their numbers: the
/// trimmed list is cut at each `)`, and each piece that holds `(` gives a function.
pub fn transform_list(transform: &str) -> (r: Vec<(String, Vec<String>)>)
    ensures
        calls_view(r@) == transform_calls(split_on(trim_seq(transform@), ')')),
{
    let t = trim_chars(&chars_of(transform));
    let pieces = split_char(&t, ')');
    let ghost ps = split_on(trim_seq(transform@), ')');
    let mut out: Vec<(String, Vec<String>)> = Vec::new();
    let n = pieces.len();
    let mut i: usize = 0;
    assert(ps.take(0) =~= Seq::<Seq<char>>::empty());
    assert(calls_view(out@) =~= seq![]);
    while i < n
        invariant
            n == pieces@.len(),
            n == ps.len(),
            forall|k: int| 0 <= k < n ==> #[trigger] pieces@[k]@ == ps[k],
            0 <= i <= n,
            calls_view(out@) == transform_calls(ps.take(i as int)),
        decreases n - i,
    {
        assert(ps.take(i + 1).drop_last() =~= ps.take(i as int));
        assert(pieces@[i as int]@ == ps[i as int]);
        let tp = trim_chars(&pieces[i]);
        let d = char_pos_exec(&tp, '(');
        if tp.len() > 0 && d < tp.len() {
            let head = slice_chars(&tp, 0, d);
            assert(head@ =~= tp@.take(d as int));
            let name = string_from(&trim_chars(&head));
            let nums = number_texts(&skip_chars(&tp, d + 1));
            let ghost before = calls_view(out@);
            out.push((name, nums));
            assert(calls_view(out@) =~= before + seq![transform_call(ps[i as int]).unwrap()]);
        } else {
            assert(calls_view(out@) =~= calls_view(out@) + Seq::<(Seq<char>, Seq<Seq<char>>)>::empty());
        }
        i += 1;
    }
    assert(ps.take(n as int) =~= ps);
    out
}

/// Settings of the plugin.
pub struct ApplyTransformsConfig {
    /// Apply transforms to stroked paths (may change the stroke width).
    pub apply_to_stroked: bool,
    /// Decimal places of transformed coordinates.
    pub float_precision: u8,
}

impl Default for ApplyTransformsConfig {
    fn default() -> (r: Self)
        ensures
            r.apply_to_stroked,
            r.float_precision == 3,
    {
        ApplyTransformsConfig { apply_to_stroked: true, float_precision: 3 }
    }
}

/// Whether `char::is_numeric` accepts a character (the Unicode numeric categories).
pub uninterp spec fn numeric_char(c: char) -> bool;

/// Asks `char::is_numeric` whether a character is numeric: a digit, letter number or
/// other number of Unicode. Its result is named `numeric_char`; ASCII digits are stated
/// numeric and the other ASCII characters not, as its documentation says.
#[verifier::external_body]
fn is_numeric_char(c: char) -> (r: bool)
    ensures
        r == numeric_char(c),
        c <= '\x7F' ==> (r <==> '0' <= c <= '9'),
{
    c.is_numeric()
}

/// The first position from `i` on that holds neither white space nor a comma.
pub open spec fn skip_seps(s: Seq<char>, i: int) -> int
    decreases s.len() - i,
{
    if 0 <= i < s.len() && (is_ws(s[i]) || s[i] == ',') {
        skip_seps(s, i + 1)
    } else {
        i
    }
}

/// The end of a run of numeric characters and at most one dot (`dot` says whether one
/// was read already) starting at `i`.
pub open spec fn digits_end(s: Seq<char>, i: int, dot: bool) -> int
    decreases s.len() - i,
{
    if 0 <= i < s.len() && numeric_char(s[i]) {
        digits_end(s, i + 1, dot)
    } else if 0 <= i < s.len() && s[i] == '.' && !dot {
        digits_end(s, i + 1, true)
    } else {
        i
    }
}

/// Where the text of the coordinate read from position `i` starts and ends: white
/// space and commas are skipped, then come an optional sign, numeric characters and
/// at most one dot. Reading goes on at the end.
pub open spec fn coord_span(s: Seq<char>, i: int) -> (int, int) {
    let j = skip_seps(s, i);
    let k = if j < s.len() && (s[j] == '-' || s[j] == '+') {
        j + 1
    } else {
        j
    };
    (j, digits_end(s, k, false))
}

/// Where the text of the coordinate read from position `i` starts and ends.
pub fn scan_coord(s: &Vec<char>, i: usize) -> (r: (usize, usize))
    requires
        i <= s@.len(),
    ensures
        r.0 == coord_span(s@, i as int).0,
        r.1 == coord_span(s@, i as int).1,
        i <= r.0 <= r.1 <= s@.len(),
{
    let n = s.len();
    let mut j = i;
    while j < n && (is_whitespace(s[j]) || s[j] == ',')
        invariant
            i <= j <= n,
            n == s@.len(),
            skip_seps(s@, i as int) == skip_seps(s@, j as int),
        decreases n - j,
    {
        j += 1;
    }
    let mut k = j;
    if k < n && (s[k] == '-' || s[k] == '+') {
        k += 1;
    }
    let mut dot = false;
    let k0 = k;
    while k < n && (is_numeric_char(s[k]) || (s[k] == '.' && !dot))
        invariant
            j <= k0 <= k <= n,
            n == s@.len(),
            digits_end(s@, k0 as int, false) == digits_end(s@, k as int, dot),
        decreases n - k,
    {
        if s[k] == '.' && !is_numeric_char(s[k]) {
            dot = true;
        }
        k += 1;
    }
    (j, k)
}

/// Plugin that applies transforms to path data.
pub struct ApplyTransformsPlugin {
    pub config: ApplyTransformsConfig,
}

/// Whether the transform of an element is applied to its path data: it is a `<path>`
/// with a `transform` and a `d`, not stroked (no `stroke`, or `none`) unless stroked
/// paths are allowed.
pub open spec fn transform_applies(cfg: ApplyTransformsConfig, m: ElemM) -> bool {
    &&& m.name == "path"@
    &&& has_key(m.attrs, "transform"@)
    &&& has_key(m.attrs, "d"@)
    &&& (cfg.apply_to_stroked || match attr_get(m.attrs, "stroke"@) {
        Some(v) => v == "none"@,
        None => true,
    })
}

impl ApplyTransformsPlugin {
    /// The plugin with the default settings.
    pub fn new() -> (r: Self)
        ensures
            r.config.apply_to_stroked,
            r.config.float_precision == 3,
    {
        ApplyTransformsPlugin { config: ApplyTransformsConfig::default() }
    }

    /// The plugin with the given settings.
    pub fn with_config(config: ApplyTransformsConfig) -> (r: Self)
        ensures
            r.config == config,
    {
        ApplyTransformsPlugin { config }
    }

    /// Whether the transform of an element is applied to its path data.
    pub fn transform_applies_to(&self, element: &Element) -> (r: bool)
        ensures
            r == transform_applies(self.config, elem_model(*element)),
    {
        if !(str_eq(element.name.as_str(), "path") && element.has_attr("transform") && element.has_attr("d")) {
            return false;
        }
        if self.config.apply_to_stroked {
            return true;
        }
        match element.attr("stroke") {
            Some(v) => str_eq(v.as_str(), "none"),
            None => true,
        }
    }

    /// The plugin's name.
    pub fn name(&self) -> (r: &'static str)
        ensures
            r@ == "applyTransforms"@,
    {
        "applyTransforms"
    }

    /// What the plugin does.
    pub fn description(&self) -> (r: &'static str)
        ensures
            r@ == "Apply transform matrices to path data"@,
    {
        "Apply transform matrices to path data"
    }
}

} // verus!
