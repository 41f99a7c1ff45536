//! The grammar of ID references inside attribute values: `#id`, `url(#id)`,
//! `url("#id")`, `url('#id')` and `id.event` timing references.
use vstd::prelude::*;
use crate::ast::{attr_get, Attributes, AttrsM};
use crate::text::{extend_chars, slice_chars, string_from, chars_of};

verus! {

/// Whether `c` belongs to the Unicode word class `\w` of the `regex` crate.
pub uninterp spec fn word_char(c: char) -> bool;

/// Whether `c` is a word character, as the `regex` crate's `\w` class decides
/// (`regex::Regex::is_match` on the one-character text). Trusted: the result is
/// the class membership named `word_char`; nothing more is stated.
#[verifier::external_body]
pub(crate) fn is_word_char(c: char) -> (b: bool)
    ensures
        b == word_char(c),
{
    let class = regex::Regex::new(r"\A\w\z").unwrap();
    class.is_match(&c.to_string())
}

/// Whether a word boundary `\b` stands before index `i`, given that `s[i]` is a word character.
pub open spec fn boundary_before(s: Seq<char>, i: int) -> bool {
    i == 0 || !word_char(s[i - 1])
}

/// The first index at or after `from` holding `c`, or the length.
pub open spec fn first_from(s: Seq<char>, from: int, c: char) -> int
    decreases s.len() - from,
{
    if from >= s.len() || from < 0 {
        s.len() as int
    } else if s[from] == c {
        from
    } else {
        first_from(s, from + 1, c)
    }
}

/// Whether `c` is a single or double quote.
pub open spec fn is_quote(c: char) -> bool {
    c == '"' || c == '\''
}

/// The first index at or after `from` holding a quote, or the length.
pub open spec fn first_quote_from(s: Seq<char>, from: int) -> int
    decreases s.len() - from,
{
    if from >= s.len() || from < 0 {
        s.len() as int
    } else if is_quote(s[from]) {
        from
    } else {
        first_quote_from(s, from + 1)
    }
}

/// Whether `url(` starts at `i` after a word boundary.
pub open spec fn url_open_at(s: Seq<char>, i: int) -> bool {
    0 <= i && i + 4 <= s.len() && s[i] == 'u' && s[i + 1] == 'r' && s[i + 2] == 'l' && s[i + 3]
        == '(' && boundary_before(s, i)
}

/// Whether `url(#ID)` with a non-empty ID free of `)` starts at `i`.
pub open spec fn url_match(s: Seq<char>, i: int) -> bool {
    url_open_at(s, i) && i + 5 <= s.len() && s[i + 4] == '#' && first_from(s, i + 5, ')') < s.len()
        && first_from(s, i + 5, ')') > i + 5
}

/// The IDs of the `url(#ID)` references in `s` from index `i` on, left to right.
pub open spec fn url_ids_from(s: Seq<char>, i: int) -> Seq<Seq<char>>
    decreases s.len() - i,
{
    if i >= s.len() || i < 0 {
        seq![]
    } else if url_match(s, i) {
        seq![s.subrange(i + 5, first_from(s, i + 5, ')'))] + url_ids_from(
            s,
            first_from(s, i + 5, ')') + 1,
        )
    } else {
        url_ids_from(s, i + 1)
    }
}

/// Whether `url("#ID")` (either quote, at each end) starts at `i`.
pub open spec fn quoted_match(s: Seq<char>, i: int) -> bool {
    url_open_at(s, i) && i + 6 <= s.len() && is_quote(s[i + 4]) && s[i + 5] == '#'
        && first_quote_from(s, i + 6) > i + 6 && first_quote_from(s, i + 6) + 1 < s.len() && s[first_quote_from(s, i + 6) + 1] == ')'
}

/// The IDs of the quoted `url('#ID')` references in `s` from index `i` on.
pub open spec fn quoted_ids_from(s: Seq<char>, i: int) -> Seq<Seq<char>>
    decreases s.len() - i,
{
    if i >= s.len() || i < 0 {
        seq![]
    } else if quoted_match(s, i) {
        seq![s.subrange(i + 6, first_quote_from(s, i + 6))] + quoted_ids_from(
            s,
            first_quote_from(s, i + 6) + 2,
        )
    } else {
        quoted_ids_from(s, i + 1)
    }
}

/// The end of the run of word characters starting at `from`.
pub open spec fn word_end(s: Seq<char>, from: int) -> int
    decreases s.len() - from,
{
    if from >= s.len() || from < 0 {
        s.len() as int
    } else if !word_char(s[from]) {
        from
    } else {
        word_end(s, from + 1)
    }
}

/// Whether `c` is an ASCII letter.
pub open spec fn ascii_alpha(c: char) -> bool {
    ('a' <= c && c <= 'z') || ('A' <= c && c <= 'Z')
}

/// Whether a timing reference `ID.x` (word characters, a dot, a letter) starts at `i`.
pub open spec fn begin_match(s: Seq<char>, i: int) -> bool {
    0 <= i < s.len() && word_char(s[i]) && word_end(s, i) + 1 < s.len() && s[word_end(s, i)]
        == '.' && ascii_alpha(s[word_end(s, i) + 1])
}

/// The IDs of the timing references in `s` from index `i` on.
pub open spec fn begin_ids_from(s: Seq<char>, i: int) -> Seq<Seq<char>>
    decreases s.len() - i,
{
    if i >= s.len() || i < 0 {
        seq![]
    } else if begin_match(s, i) {
        proof {
            lemma_word_end(s, i);
        }
        seq![s.subrange(i, word_end(s, i))] + begin_ids_from(s, word_end(s, i) + 2)
    } else {
        begin_ids_from(s, i + 1)
    }
}

/// The ID of a value of the form `#ID` (ID non-empty, without line feed).
pub open spec fn hash_id(s: Seq<char>) -> Option<Seq<char>> {
    if s.len() >= 2 && s[0] == '#' && first_from(s, 1, '\n') == s.len() {
        Some(s.skip(1))
    } else {
        None
    }
}

/// Facts about `first_from`.
pub proof fn lemma_first_from(s: Seq<char>, from: int, c: char)
    requires
        0 <= from,
    ensures
        from <= first_from(s, from, c) <= s.len() || (from > s.len() && first_from(s, from, c) == s.len()),
        first_from(s, from, c) < s.len() ==> s[first_from(s, from, c)] == c,
        forall|j: int| from <= j < first_from(s, from, c) ==> s[j] != c,
    decreases s.len() - from,
{
    if from < s.len() && s[from] != c {
        lemma_first_from(s, from + 1, c);
    }
}

/// Facts about `first_quote_from`.
pub proof fn lemma_first_quote_from(s: Seq<char>, from: int)
    requires
        0 <= from,
    ensures
        from <= first_quote_from(s, from) <= s.len() || (from > s.len() && first_quote_from(s, from) == s.len()),
        first_quote_from(s, from) < s.len() ==> is_quote(s[first_quote_from(s, from)]),
        forall|j: int| from <= j < first_quote_from(s, from) ==> !is_quote(s[j]),
    decreases s.len() - from,
{
    if from < s.len() && !is_quote(s[from]) {
        lemma_first_quote_from(s, from + 1);
    }
}

/// Facts about `word_end`.
pub proof fn lemma_word_end(s: Seq<char>, from: int)
    requires
        0 <= from,
    ensures
        from <= word_end(s, from) <= s.len() || (from > s.len() && word_end(s, from) == s.len()),
        word_end(s, from) < s.len() ==> !word_char(s[word_end(s, from)]),
    decreases s.len() - from,
{
    if from < s.len() && word_char(s[from]) {
        lemma_word_end(s, from + 1);
    }
}

/// `first_from` computed.
pub fn first_from_exec(v: &Vec<char>, from: usize, c: char) -> (r: usize)
    requires
        from <= v@.len(),
    ensures
        r == first_from(v@, from as int, c),
{
    let n = v.len();
    let mut i = from;
    while i < n && v[i] != c
        invariant
            n == v@.len(),
            from <= i <= n,
            first_from(v@, from as int, c) == first_from(v@, i as int, c),
        decreases n - i,
    {
        i += 1;
    }
    i
}

/// `first_quote_from` computed.
pub fn first_quote_from_exec(v: &Vec<char>, from: usize) -> (r: usize)
    requires
        from <= v@.len(),
    ensures
        r == first_quote_from(v@, from as int),
{
    let n = v.len();
    let mut i = from;
    while i < n && v[i] != '"' && v[i] != '\''
        invariant
            n == v@.len(),
            from <= i <= n,
            first_quote_from(v@, from as int) == first_quote_from(v@, i as int),
        decreases n - i,
    {
        i += 1;
    }
    i
}

/// `word_end` computed.
pub fn word_end_exec(v: &Vec<char>, from: usize) -> (r: usize)
    requires
        from <= v@.len(),
    ensures
        r == word_end(v@, from as int),
{
    let n = v.len();
    let mut i = from;
    while i < n && is_word_char(v[i])
        invariant
            n == v@.len(),
            from <= i <= n,
            word_end(v@, from as int) == word_end(v@, i as int),
        decreases n - i,
    {
        i += 1;
    }
    i
}

/// Whether `url(` starts at `i` after a word boundary (computed).
pub fn url_open_at_exec(v: &Vec<char>, i: usize) -> (r: bool)
    ensures
        r == url_open_at(v@, i as int),
{
    if i >= v.len() || v.len() - i < 4 {
        return false;
    }
    if !(v[i] == 'u' && v[i + 1] == 'r' && v[i + 2] == 'l' && v[i + 3] == '(') {
        return false;
    }
    i == 0 || !is_word_char(v[i - 1])
}

/// Whether `url(#ID)` starts at `i`; if so, the index of its closing `)`.
pub fn url_match_exec(v: &Vec<char>, i: usize) -> (r: Option<usize>)
    ensures
        r.is_some() == url_match(v@, i as int),
        r.is_some() ==> r.unwrap() == first_from(v@, i + 5, ')'),
{
    if !url_open_at_exec(v, i) || v.len() - i < 5 || v[i + 4] != '#' {
        return None;
    }
    let k = first_from_exec(v, i + 5, ')');
    if k < v.len() && k > i + 5 {
        Some(k)
    } else {
        None
    }
}

/// Whether a quoted `url('#ID')` starts at `i`; if so, the index of its closing quote.
pub fn quoted_match_exec(v: &Vec<char>, i: usize) -> (r: Option<usize>)
    ensures
        r.is_some() == quoted_match(v@, i as int),
        r.is_some() ==> r.unwrap() == first_quote_from(v@, i + 6),
{
    if !url_open_at_exec(v, i) || v.len() - i < 6 {
        return None;
    }
    if !(v[i + 4] == '"' || v[i + 4] == '\'') || v[i + 5] != '#' {
        return None;
    }
    let k = first_quote_from_exec(v, i + 6);
    proof {
        lemma_first_quote_from(v@, i + 6);
    }
    if k > i + 6 && k < v.len() - 1 && v[k + 1] == ')' {
        Some(k)
    } else {
        None
    }
}

/// Whether a timing reference starts at `i`; if so, where its word ends.
pub fn begin_match_exec(v: &Vec<char>, i: usize) -> (r: Option<usize>)
    ensures
        r.is_some() == begin_match(v@, i as int),
        r.is_some() ==> r.unwrap() == word_end(v@, i as int),
{
    if i >= v.len() || !is_word_char(v[i]) {
        return None;
    }
    let k = word_end_exec(v, i);
    if k < v.len() - 1 && v[k] == '.' && (('a' <= v[k + 1] && v[k + 1] <= 'z') || ('A' <= v[k
        + 1] && v[k + 1] <= 'Z')) {
        Some(k)
    } else {
        None
    }
}

/// The IDs of the `url(#ID)` references in `v`.
pub fn url_ids(v: &Vec<char>) -> (r: Vec<Vec<char>>)
    ensures
        r@.len() == url_ids_from(v@, 0).len(),
        forall|k: int| 0 <= k < r@.len() ==> #[trigger] r@[k]@ == url_ids_from(v@, 0)[k],
{
    let n = v.len();
    let mut out: Vec<Vec<char>> = Vec::new();
    let ghost mut outm: Seq<Seq<char>> = seq![];
    let mut i: usize = 0;
    while i < n
        invariant
            n == v@.len(),
            0 <= i <= n + 1,
            outm.len() == out@.len(),
            forall|k: int| 0 <= k < out@.len() ==> #[trigger] out@[k]@ == outm[k],
            url_ids_from(v@, 0) == outm + url_ids_from(v@, i as int),
        decreases n + 1 - i,
    {
        match url_match_exec(v, i) {
            Some(k) => {
                proof {
                    lemma_first_from(v@, i + 5, ')');
                }
                let id = slice_chars(v, i + 5, k);
                proof {
                    outm = outm.push(id@);
                }
                out.push(id);
                i = k + 1;
            },
            None => {
                i += 1;
            },
        }
    }
    assert(url_ids_from(v@, i as int) =~= seq![]);
    assert(outm + seq![] =~= outm);
    out
}

/// The IDs of the quoted `url('#ID')` references in `v`.
pub fn quoted_ids(v: &Vec<char>) -> (r: Vec<Vec<char>>)
    ensures
        r@.len() == quoted_ids_from(v@, 0).len(),
        forall|k: int| 0 <= k < r@.len() ==> #[trigger] r@[k]@ == quoted_ids_from(v@, 0)[k],
{
    let n = v.len();
    let mut out: Vec<Vec<char>> = Vec::new();
    let ghost mut outm: Seq<Seq<char>> = seq![];
    let mut i: usize = 0;
    while i < n
        invariant
            n == v@.len(),
            0 <= i <= n + 1,
            outm.len() == out@.len(),
            forall|k: int| 0 <= k < out@.len() ==> #[trigger] out@[k]@ == outm[k],
            quoted_ids_from(v@, 0) == outm + quoted_ids_from(v@, i as int),
        decreases n + 1 - i,
    {
        match quoted_match_exec(v, i) {
            Some(k) => {
                let id = slice_chars(v, i + 6, k);
                proof {
                    outm = outm.push(id@);
                }
                out.push(id);
                i = k + 2;
            },
            None => {
                i += 1;
            },
        }
    }
    assert(quoted_ids_from(v@, i as int) =~= seq![]);
    assert(outm + seq![] =~= outm);
    out
}

/// The IDs of the timing references `ID.event` in `v`.
pub fn begin_ids(v: &Vec<char>) -> (r: Vec<Vec<char>>)
    ensures
        r@.len() == begin_ids_from(v@, 0).len(),
        forall|k: int| 0 <= k < r@.len() ==> #[trigger] r@[k]@ == begin_ids_from(v@, 0)[k],
{
    let n = v.len();
    let mut out: Vec<Vec<char>> = Vec::new();
    let ghost mut outm: Seq<Seq<char>> = seq![];
    let mut i: usize = 0;
    while i < n
        invariant
            n == v@.len(),
            0 <= i <= n + 1,
            outm.len() == out@.len(),
            forall|k: int| 0 <= k < out@.len() ==> #[trigger] out@[k]@ == outm[k],
            begin_ids_from(v@, 0) == outm + begin_ids_from(v@, i as int),
        decreases n + 1 - i,
    {
        match begin_match_exec(v, i) {
            Some(k) => {
                proof {
                    lemma_word_end(v@, i as int);
                }
                let id = slice_chars(v, i, k);
                proof {
                    outm = outm.push(id@);
                }
                out.push(id);
                i = k + 2;
            },
            None => {
                i += 1;
            },
        }
    }
    assert(begin_ids_from(v@, i as int) =~= seq![]);
    assert(outm + seq![] =~= outm);
    out
}

/// The ID of a `#ID` value, if it is one.
pub fn hash_id_exec(v: &Vec<char>) -> (r: Option<Vec<char>>)
    ensures
        match r {
            Some(id) => hash_id(v@) == Some(id@),
            None => hash_id(v@).is_none(),
        },
{
    if v.len() >= 2 && v[0] == '#' && first_from_exec(v, 1, '\n') == v.len() {
        let id = slice_chars(v, 1, v.len());
        assert(id@ =~= v@.skip(1));
        Some(id)
    } else {
        None
    }
}

/// A `#ID` value with the ID renamed by `m`, when `m` renames it.
pub open spec fn href_renamed(s: Seq<char>, m: AttrsM) -> Seq<char> {
    match hash_id(s) {
        Some(id) => match attr_get(m, id) {
            Some(n) => seq!['#'] + n,
            None => s,
        },
        None => s,
    }
}

/// `s` from index `i` on, with the ID of every `url(#ID)` renamed by `m` where `m` renames it.
pub open spec fn url_renamed_from(s: Seq<char>, i: int, m: AttrsM) -> Seq<char>
    decreases s.len() - i,
{
    if i >= s.len() || i < 0 {
        seq![]
    } else if url_match(s, i) {
        let k = first_from(s, i + 5, ')');
        (match attr_get(m, s.subrange(i + 5, k)) {
            Some(n) => seq!['u', 'r', 'l', '(', '#'] + n + seq![')'],
            None => s.subrange(i, k + 1),
        }) + url_renamed_from(s, k + 1, m)
    } else {
        seq![s[i]] + url_renamed_from(s, i + 1, m)
    }
}

/// The quote used when a quoted reference from `i` to its closing quote `k` is rewritten:
/// double when either quote of the match is double, else single.
pub open spec fn chosen_quote(s: Seq<char>, i: int, k: int) -> char {
    if s[i + 4] == '"' || s[k] == '"' {
        '"'
    } else {
        '\''
    }
}

/// `s` from index `i` on, with the ID of every quoted `url('#ID')` renamed by `m`.
pub open spec fn quoted_renamed_from(s: Seq<char>, i: int, m: AttrsM) -> Seq<char>
    decreases s.len() - i,
{
    if i >= s.len() || i < 0 {
        seq![]
    } else if quoted_match(s, i) {
        let k = first_quote_from(s, i + 6);
        let q = chosen_quote(s, i, k);
        (match attr_get(m, s.subrange(i + 6, k)) {
            Some(n) => seq!['u', 'r', 'l', '(', q, '#'] + n + seq![q, ')'],
            None => s.subrange(i, k + 2),
        }) + quoted_renamed_from(s, k + 2, m)
    } else {
        seq![s[i]] + quoted_renamed_from(s, i + 1, m)
    }
}

/// A value with all its references renamed by `m`: first a whole `#ID` value, then
/// `url(#ID)` references, then quoted `url('#ID')` references.
pub open spec fn renamed_refs(s: Seq<char>, m: AttrsM) -> Seq<char> {
    quoted_renamed_from(url_renamed_from(href_renamed(s, m), 0, m), 0, m)
}

/// The new name `m` gives to the ID `id`, if any.
fn lookup_chars(m: &Attributes, id: &Vec<char>) -> (r: Option<Vec<char>>)
    ensures
        match r {
            Some(n) => attr_get(m@, id@) == Some(n@),
            None => attr_get(m@, id@).is_none(),
        },
{
    let key = string_from(id);
    match m.get(key.as_str()) {
        Some(n) => Some(chars_of(n.as_str())),
        None => None,
    }
}

/// A `#ID` value renamed by `m` (computed).
pub fn href_renamed_exec(v: &Vec<char>, m: &Attributes) -> (r: Vec<char>)
    ensures
        r@ == href_renamed(v@, m@),
{
    match hash_id_exec(v) {
        Some(id) => match lookup_chars(m, &id) {
            Some(n) => {
                let mut out: Vec<char> = Vec::new();
                out.push('#');
                extend_chars(&mut out, &n);
                out
            },
            None => v.clone(),
        },
        None => v.clone(),
    }
}

/// Every `url(#ID)` reference in `v` renamed by `m` (computed).
pub fn url_renamed_exec(v: &Vec<char>, m: &Attributes) -> (r: Vec<char>)
    ensures
        r@ == url_renamed_from(v@, 0, m@),
{
    let n = v.len();
    let mut out: Vec<char> = Vec::new();
    let mut i: usize = 0;
    while i < n
        invariant
            n == v@.len(),
            0 <= i <= n + 1,
            url_renamed_from(v@, 0, m@) == out@ + url_renamed_from(v@, i as int, m@),
        decreases n + 1 - i,
    {
        match url_match_exec(v, i) {
            Some(k) => {
                proof {
                    lemma_first_from(v@, i + 5, ')');
                }
                let id = slice_chars(v, i + 5, k);
                let ghost before = out@;
                match lookup_chars(m, &id) {
                    Some(newid) => {
                        out.push('u');
                        out.push('r');
                        out.push('l');
                        out.push('(');
                        out.push('#');
                        extend_chars(&mut out, &newid);
                        out.push(')');
                        assert(out@ =~= before + (seq!['u', 'r', 'l', '(', '#'] + newid@ + seq![')']));
                    },
                    None => {
                        let whole = slice_chars(v, i, k + 1);
                        extend_chars(&mut out, &whole);
                    },
                }
                i = k + 1;
            },
            None => {
                out.push(v[i]);
                i += 1;
            },
        }
    }
    assert(url_renamed_from(v@, i as int, m@) =~= seq![]);
    assert(out@ + seq![] =~= out@);
    out
}

/// Every quoted `url('#ID')` reference in `v` renamed by `m` (computed).
pub fn quoted_renamed_exec(v: &Vec<char>, m: &Attributes) -> (r: Vec<char>)
    ensures
        r@ == quoted_renamed_from(v@, 0, m@),
{
    let n = v.len();
    let mut out: Vec<char> = Vec::new();
    let mut i: usize = 0;
    while i < n
        invariant
            n == v@.len(),
            0 <= i <= n + 1,
            quoted_renamed_from(v@, 0, m@) == out@ + quoted_renamed_from(v@, i as int, m@),
        decreases n + 1 - i,
    {
        match quoted_match_exec(v, i) {
            Some(k) => {
                let id = slice_chars(v, i + 6, k);
                let ghost before = out@;
                match lookup_chars(m, &id) {
                    Some(newid) => {
                        let q = if v[i + 4] == '"' || v[k] == '"' {
                            '"'
                        } else {
                            '\''
                        };
                        out.push('u');
                        out.push('r');
                        out.push('l');
                        out.push('(');
                        out.push(q);
                        out.push('#');
                        extend_chars(&mut out, &newid);
                        out.push(q);
                        out.push(')');
                        assert(out@ =~= before + (seq!['u', 'r', 'l', '(', q, '#'] + newid@ + seq![q, ')']));
                    },
                    None => {
                        let whole = slice_chars(v, i, k + 2);
                        extend_chars(&mut out, &whole);
                    },
                }
                i = k + 2;
            },
            None => {
                out.push(v[i]);
                i += 1;
            },
        }
    }
    assert(quoted_renamed_from(v@, i as int, m@) =~= seq![]);
    assert(out@ + seq![] =~= out@);
    out
}

/// A value with all its references renamed by `m`.
pub fn update_reference_value(value: &str, m: &Attributes) -> (r: String)
    ensures
        r@ == renamed_refs(value@, m@),
{
    let v = chars_of(value);
    let a = href_renamed_exec(&v, m);
    let b = url_renamed_exec(&a, m);
    let c = quoted_renamed_exec(&b, m);
    string_from(&c)
}

} // verus!
