//! Character-level helpers on strings, each stated over `Seq<char>`.
use vstd::prelude::*;

verus! {

broadcast use vstd::string::group_string_axioms;

/// Appends one character to a string (`String::push`).
#[verifier::external_body]
pub(crate) fn push_char(s: &mut String, c: char)
    ensures
        final(s)@ == old(s)@.push(c),
{
    s.push(c);
}

/// The characters of a string slice, in order.
pub fn chars_of(s: &str) -> (v: Vec<char>)
    ensures
        v@ == s@,
{
    let mut v: Vec<char> = Vec::new();
    for c in it: s.chars()
        invariant
            it.seq() == s@,
            v@ == it.seq().take(it.index() as int),
    {
        v.push(c);
    }
    v
}

/// The string made of the given characters.
pub fn string_from(v: &Vec<char>) -> (s: String)
    ensures
        s@ == v@,
{
    let mut s = String::new();
    let n = v.len();
    let mut i: usize = 0;
    while i < n
        invariant
            n == v@.len(),
            0 <= i <= n,
            s@ == v@.take(i as int),
        decreases n - i,
    {
        push_char(&mut s, v[i]);
        assert(v@.take(i + 1) =~= v@.take(i as int).push(v@[i as int]));
        i += 1;
    }
    assert(v@.take(n as int) =~= v@);
    s
}

/// An owned copy of a string slice.
pub fn owned(s: &str) -> (r: String)
    ensures
        r@ == s@,
{
    s.to_owned()
}

/// Whether two string slices hold the same characters.
pub fn str_eq(a: &str, b: &str) -> (r: bool)
    ensures
        r == (a@ == b@),
{
    let x = a.to_owned();
    let y = b.to_owned();
    x == y
}

/// Whether two character vectors are equal.
pub fn chars_eq(a: &Vec<char>, b: &Vec<char>) -> (r: bool)
    ensures
        r == (a@ == b@),
{
    if a.len() != b.len() {
        return false;
    }
    let n = a.len();
    let mut i: usize = 0;
    while i < n
        invariant
            n == a@.len(),
            n == b@.len(),
            0 <= i <= n,
            forall|j: int| 0 <= j < i ==> a@[j] == b@[j],
        decreases n - i,
    {
        if a[i] != b[i] {
            return false;
        }
        i += 1;
    }
    assert(a@ =~= b@);
    true
}

/// The characters that `char::is_whitespace` accepts (the Unicode `White_Space` property).
pub open spec fn is_ws(c: char) -> bool {
    ||| c == ' '
    ||| ('\u{9}' <= c && c <= '\u{D}')
    ||| c == '\u{85}'
    ||| c == '\u{A0}'
    ||| c == '\u{1680}'
    ||| ('\u{2000}' <= c && c <= '\u{200A}')
    ||| c == '\u{2028}'
    ||| c == '\u{2029}'
    ||| c == '\u{202F}'
    ||| c == '\u{205F}'
    ||| c == '\u{3000}'
}

/// Whether a character is white space.
pub fn is_whitespace(c: char) -> (b: bool)
    ensures
        b == is_ws(c),
{
    c == ' ' || ('\u{9}' <= c && c <= '\u{D}') || c == '\u{85}' || c == '\u{A0}' || c == '\u{1680}'
        || ('\u{2000}' <= c && c <= '\u{200A}') || c == '\u{2028}' || c == '\u{2029}' || c
        == '\u{202F}' || c == '\u{205F}' || c == '\u{3000}'
}

/// `s` with its leading white space removed.
pub open spec fn trim_start_seq(s: Seq<char>) -> Seq<char>
    decreases s.len(),
{
    if s.len() > 0 && is_ws(s[0]) {
        trim_start_seq(s.drop_first())
    } else {
        s
    }
}

/// `s` with its trailing white space removed.
pub open spec fn trim_end_seq(s: Seq<char>) -> Seq<char>
    decreases s.len(),
{
    if s.len() > 0 && is_ws(s.last()) {
        trim_end_seq(s.drop_last())
    } else {
        s
    }
}

/// `s` with white space removed at both ends (`str::trim`).
pub open spec fn trim_seq(s: Seq<char>) -> Seq<char> {
    trim_end_seq(trim_start_seq(s))
}

/// The characters of `v` between `a` and `b`.
pub fn slice_chars(v: &Vec<char>, a: usize, b: usize) -> (r: Vec<char>)
    requires
        a <= b <= v@.len(),
    ensures
        r@ == v@.subrange(a as int, b as int),
{
    let mut r: Vec<char> = Vec::new();
    let mut i = a;
    while i < b
        invariant
            a <= i <= b <= v@.len(),
            r@ == v@.subrange(a as int, i as int),
        decreases b - i,
    {
        r.push(v[i]);
        assert(v@.subrange(a as int, i + 1) =~= v@.subrange(a as int, i as int).push(v@[i as int]));
        i += 1;
    }
    r
}

/// The index where the leading white space of `v` ends.
pub fn trim_start_index(v: &Vec<char>) -> (i: usize)
    ensures
        i <= v@.len(),
        trim_start_seq(v@) == v@.skip(i as int),
{
    let n = v.len();
    let mut i: usize = 0;
    assert(v@.skip(0) =~= v@);
    while i < n && is_whitespace(v[i])
        invariant
            n == v@.len(),
            0 <= i <= n,
            trim_start_seq(v@) == trim_start_seq(v@.skip(i as int)),
        decreases n - i,
    {
        assert(v@.skip(i as int).drop_first() =~= v@.skip(i + 1));
        i += 1;
    }
    i
}

/// The index where the trailing white space of `v[..end]` begins, not below `lo`.
pub fn trim_end_index(v: &Vec<char>, lo: usize, end: usize) -> (j: usize)
    requires
        lo <= end <= v@.len(),
    ensures
        lo <= j <= end,
        trim_end_seq(v@.subrange(lo as int, end as int)) == v@.subrange(lo as int, j as int),
{
    let mut j = end;
    while j > lo && is_whitespace(v[j - 1])
        invariant
            lo <= j <= end <= v@.len(),
            trim_end_seq(v@.subrange(lo as int, end as int)) == trim_end_seq(
                v@.subrange(lo as int, j as int),
            ),
        decreases j,
    {
        assert(v@.subrange(lo as int, j as int).drop_last() =~= v@.subrange(lo as int, j - 1));
        j -= 1;
    }
    j
}

/// `v` without white space at either end.
pub fn trim_chars(v: &Vec<char>) -> (r: Vec<char>)
    ensures
        r@ == trim_seq(v@),
{
    let i = trim_start_index(v);
    assert(v@.skip(i as int) =~= v@.subrange(i as int, v@.len() as int));
    let j = trim_end_index(v, i, v.len());
    slice_chars(v, i, j)
}

/// `s` without white space at either end, as an owned string.
pub fn trim_str(s: &str) -> (r: String)
    ensures
        r@ == trim_seq(s@),
{
    let v = chars_of(s);
    let t = trim_chars(&v);
    string_from(&t)
}

/// Whether `p` occurs in `s` starting at index `i`.
pub open spec fn occurs_at(s: Seq<char>, p: Seq<char>, i: int) -> bool {
    0 <= i && i + p.len() <= s.len() && s.subrange(i, i + p.len()) == p
}

/// Whether `p` occurs anywhere in `s` (`str::contains`).
pub open spec fn has_sub(s: Seq<char>, p: Seq<char>) -> bool {
    exists|i: int| occurs_at(s, p, i)
}

/// Whether `s` begins with `p`.
pub open spec fn starts_with_seq(s: Seq<char>, p: Seq<char>) -> bool {
    occurs_at(s, p, 0)
}

/// Whether `s` ends with `p`.
pub open spec fn ends_with_seq(s: Seq<char>, p: Seq<char>) -> bool {
    p.len() <= s.len() && occurs_at(s, p, s.len() - p.len())
}

/// Whether `p` occurs in `s` at index `i` (checked).
pub fn occurs_at_exec(s: &Vec<char>, p: &Vec<char>, i: usize) -> (r: bool)
    ensures
        r == occurs_at(s@, p@, i as int),
{
    if i > s.len() || p.len() > s.len() - i {
        return false;
    }
    let m = p.len();
    let mut k: usize = 0;
    while k < m
        invariant
            m == p@.len(),
            i + m <= s@.len(),
            s@.len() <= usize::MAX,
            0 <= k <= m,
            forall|t: int| 0 <= t < k ==> s@[i + t] == p@[t],
        decreases m - k,
    {
        if s[i + k] != p[k] {
            assert(s@.subrange(i as int, i + m)[k as int] != p@[k as int]);
            return false;
        }
        k += 1;
    }
    assert(s@.subrange(i as int, i + m) =~= p@);
    true
}

/// The first index at or after `from` where `p` occurs in `s`.
pub fn find_from(s: &Vec<char>, p: &Vec<char>, from: usize) -> (r: Option<usize>)
    ensures
        match r {
            Some(i) => from <= i && occurs_at(s@, p@, i as int) && forall|j: int|
                from <= j < i ==> !occurs_at(s@, p@, j),
            None => forall|j: int| from <= j ==> !occurs_at(s@, p@, j),
        },
{
    let n = s.len();
    if from > n {
        assert forall|j: int| from <= j implies !occurs_at(s@, p@, j) by {}
        return None;
    }
    let mut i = from;
    while i < n
        invariant
            n == s@.len(),
            from <= i <= n,
            forall|j: int| from <= j < i ==> !occurs_at(s@, p@, j),
        decreases n - i,
    {
        if occurs_at_exec(s, p, i) {
            return Some(i);
        }
        i += 1;
    }
    if occurs_at_exec(s, p, n) {
        return Some(n);
    }
    assert forall|j: int| from <= j implies !occurs_at(s@, p@, j) by {
        if j > n {
        }
    }
    None
}

/// Whether `p` occurs in `s`.
pub fn contains_chars(s: &Vec<char>, p: &Vec<char>) -> (r: bool)
    ensures
        r == has_sub(s@, p@),
{
    match find_from(s, p, 0) {
        Some(i) => true,
        None => {
            assert forall|j: int| !occurs_at(s@, p@, j) by {
                if j >= 0 {
                }
            }
            false
        },
    }
}

/// Whether `p` occurs in `s` (string slices).
pub fn contains_str(s: &str, p: &str) -> (r: bool)
    ensures
        r == has_sub(s@, p@),
{
    let a = chars_of(s);
    let b = chars_of(p);
    contains_chars(&a, &b)
}

/// Whether `s` begins with `p` (string slices).
pub fn starts_with_str(s: &str, p: &str) -> (r: bool)
    ensures
        r == starts_with_seq(s@, p@),
{
    let a = chars_of(s);
    let b = chars_of(p);
    occurs_at_exec(&a, &b, 0)
}

/// Whether `s` ends with `p` (string slices).
pub fn ends_with_str(s: &str, p: &str) -> (r: bool)
    ensures
        r == ends_with_seq(s@, p@),
{
    let a = chars_of(s);
    let b = chars_of(p);
    if b.len() > a.len() {
        return false;
    }
    occurs_at_exec(&a, &b, a.len() - b.len())
}

/// The words of `s` between runs of white space, scanning with a pending word `cur`
/// after the words `acc` already found (`str::split_whitespace`).
pub open spec fn split_ws_from(s: Seq<char>, cur: Seq<char>, acc: Seq<Seq<char>>) -> Seq<
    Seq<char>,
>
    decreases s.len(),
{
    if s.len() == 0 {
        if cur.len() > 0 {
            acc.push(cur)
        } else {
            acc
        }
    } else if is_ws(s[0]) {
        split_ws_from(s.drop_first(), seq![], if cur.len() > 0 { acc.push(cur) } else { acc })
    } else {
        split_ws_from(s.drop_first(), cur.push(s[0]), acc)
    }
}

/// The white-space separated words of `s`.
pub open spec fn words(s: Seq<char>) -> Seq<Seq<char>> {
    split_ws_from(s, seq![], seq![])
}

/// The white-space separated words of `v`.
pub fn split_whitespace(v: &Vec<char>) -> (r: Vec<Vec<char>>)
    ensures
        r@.len() == words(v@).len(),
        forall|k: int| 0 <= k < r@.len() ==> #[trigger] r@[k]@ == words(v@)[k],
{
    let n = v.len();
    let mut cur: Vec<char> = Vec::new();
    let mut acc: Vec<Vec<char>> = Vec::new();
    let ghost mut accm: Seq<Seq<char>> = seq![];
    let mut i: usize = 0;
    assert(v@.skip(0) =~= v@);
    assert(cur@ =~= seq![]);
    while i < n
        invariant
            n == v@.len(),
            0 <= i <= n,
            accm.len() == acc@.len(),
            forall|k: int| 0 <= k < acc@.len() ==> #[trigger] acc@[k]@ == accm[k],
            words(v@) == split_ws_from(v@.skip(i as int), cur@, accm),
        decreases n - i,
    {
        let c = v[i];
        assert(v@.skip(i as int).drop_first() =~= v@.skip(i + 1));
        assert(v@.skip(i as int)[0] == c);
        if is_whitespace(c) {
            if cur.len() > 0 {
                let w = cur;
                proof {
                    accm = accm.push(w@);
                }
                acc.push(w);
                cur = Vec::new();
            } else {
                cur = Vec::new();
            }
            assert(cur@ =~= seq![]);
        } else {
            cur.push(c);
        }
        i += 1;
    }
    assert(v@.skip(n as int) =~= Seq::<char>::empty());
    if cur.len() > 0 {
        let w = cur;
        proof {
            accm = accm.push(w@);
        }
        acc.push(w);
    }
    acc
}

/// Appends the characters of `src` to `out`.
pub fn extend_chars(out: &mut Vec<char>, src: &Vec<char>)
    ensures
        final(out)@ == old(out)@ + src@,
{
    let n = src.len();
    let mut i: usize = 0;
    while i < n
        invariant
            n == src@.len(),
            0 <= i <= n,
            out@ == old(out)@ + src@.take(i as int),
        decreases n - i,
    {
        out.push(src[i]);
        assert(src@.take(i + 1) =~= src@.take(i as int).push(src@[i as int]));
        i += 1;
    }
    assert(src@.take(n as int) =~= src@);
}

/// Appends the characters of a string slice to `out`.
pub fn extend_str(out: &mut Vec<char>, s: &str)
    ensures
        final(out)@ == old(out)@ + s@,
{
    let v = chars_of(s);
    extend_chars(out, &v);
}

/// The characters of `v` from `a` to the end.
pub fn skip_chars(v: &Vec<char>, a: usize) -> (r: Vec<char>)
    requires
        a <= v@.len(),
    ensures
        r@ == v@.skip(a as int),
{
    let r = slice_chars(v, a, v.len());
    assert(r@ =~= v@.skip(a as int));
    r
}

/// Whether some string of `v` equals `s`.
pub open spec fn strings_contain(v: Seq<String>, s: Seq<char>) -> bool {
    exists|i: int| 0 <= i < v.len() && #[trigger] v[i]@ == s
}

/// Whether some string of `v` equals `s` (computed).
pub fn vec_contains_str(v: &Vec<String>, s: &str) -> (r: bool)
    ensures
        r == strings_contain(v@, s@),
{
    let n = v.len();
    let mut i: usize = 0;
    while i < n
        invariant
            n == v@.len(),
            0 <= i <= n,
            forall|j: int| 0 <= j < i ==> #[trigger] v@[j]@ != s@,
        decreases n - i,
    {
        if str_eq(v[i].as_str(), s) {
            return true;
        }
        i += 1;
    }
    false
}

/// Whether `s` begins with some string of `v`.
pub open spec fn starts_with_any(v: Seq<String>, s: Seq<char>) -> bool {
    exists|i: int| 0 <= i < v.len() && starts_with_seq(s, #[trigger] v[i]@)
}

/// Whether `s` begins with some string of `v` (computed).
pub fn vec_any_prefix_of(v: &Vec<String>, s: &str) -> (r: bool)
    ensures
        r == starts_with_any(v@, s@),
{
    let n = v.len();
    let mut i: usize = 0;
    while i < n
        invariant
            n == v@.len(),
            0 <= i <= n,
            forall|j: int| 0 <= j < i ==> !starts_with_seq(s@, #[trigger] v@[j]@),
        decreases n - i,
    {
        if starts_with_str(s, v[i].as_str()) {
            return true;
        }
        i += 1;
    }
    false
}

/// A copy of a vector of strings.
pub fn clone_strings(v: &Vec<String>) -> (r: Vec<String>)
    ensures
        r@ == v@,
{
    let mut r: Vec<String> = Vec::new();
    let n = v.len();
    let mut i: usize = 0;
    while i < n
        invariant
            n == v@.len(),
            0 <= i <= n,
            r@ == v@.take(i as int),
        decreases n - i,
    {
        r.push(v[i].clone());
        assert(r@ =~= v@.take(i + 1));
        i += 1;
    }
    assert(v@.take(n as int) =~= v@);
    r
}


/// What `str::to_lowercase` gives for a text: its Unicode lowercase mapping.
pub uninterp spec fn lowercase(s: Seq<char>) -> Seq<char>;

/// What `str::to_uppercase` gives for a text: its Unicode uppercase mapping.
pub uninterp spec fn uppercase(s: Seq<char>) -> Seq<char>;

/// Whether every character of `s` is ASCII.
pub open spec fn is_ascii_seq(s: Seq<char>) -> bool {
    forall|i: int| 0 <= i < s.len() ==> (#[trigger] s[i] as u32) < 128
}

/// `c` with `A`–`Z` mapped to `a`–`z`.
pub open spec fn ascii_lower(c: char) -> char {
    if 'A' <= c && c <= 'Z' {
        ((c as u32) + 32) as char
    } else {
        c
    }
}

/// `c` with `a`–`z` mapped to `A`–`Z`.
pub open spec fn ascii_upper(c: char) -> char {
    if 'a' <= c && c <= 'z' {
        ((c as u32) - 32) as char
    } else {
        c
    }
}

/// `s` with `A`–`Z` mapped to `a`–`z`.
pub open spec fn ascii_lower_seq(s: Seq<char>) -> Seq<char> {
    Seq::new(s.len(), |i: int| ascii_lower(s[i]))
}

/// `s` with `a`–`z` mapped to `A`–`Z`.
pub open spec fn ascii_upper_seq(s: Seq<char>) -> Seq<char> {
    Seq::new(s.len(), |i: int| ascii_upper(s[i]))
}

/// `str::to_lowercase`. Trusted: the result is the mapping named `lowercase`,
/// which on ASCII text maps `A`–`Z` to `a`–`z` and keeps every other character;
/// the Unicode tables beyond ASCII are not stated.
#[verifier::external_body]
pub(crate) fn to_lowercase(s: &str) -> (r: String)
    ensures
        r@ == lowercase(s@),
        is_ascii_seq(s@) ==> r@ == ascii_lower_seq(s@),
{
    s.to_lowercase()
}

/// `str::to_uppercase`. Trusted: the result is the mapping named `uppercase`,
/// which on ASCII text maps `a`–`z` to `A`–`Z` and keeps every other character;
/// the Unicode tables beyond ASCII are not stated.
#[verifier::external_body]
pub(crate) fn to_uppercase(s: &str) -> (r: String)
    ensures
        r@ == uppercase(s@),
        is_ascii_seq(s@) ==> r@ == ascii_upper_seq(s@),
{
    s.to_uppercase()
}

/// Whether two texts are equal when `A`–`Z` are read as `a`–`z` (`str::eq_ignore_ascii_case`).
pub open spec fn eq_ignore_case(a: Seq<char>, b: Seq<char>) -> bool {
    a.len() == b.len() && forall|i: int| 0 <= i < a.len() ==> ascii_lower(#[trigger] a[i]) == ascii_lower(b[i])
}

/// `c` with `A`–`Z` mapped to `a`–`z` (computed).
pub fn ascii_lower_char(c: char) -> (r: char)
    ensures
        r == ascii_lower(c),
{
    if 'A' <= c && c <= 'Z' {
        let u = c as u32 + 32;
        let lower = chars_of("abcdefghijklmnopqrstuvwxyz");
        proof {
            reveal_strlit("abcdefghijklmnopqrstuvwxyz");
        }
        let k = (u - 97) as usize;
        assert(lower@[k as int] == ((c as u32) + 32) as char);
        lower[k]
    } else {
        c
    }
}

/// Whether two texts are equal ignoring ASCII case (computed).
pub fn eq_ignore_ascii_case(a: &str, b: &str) -> (r: bool)
    ensures
        r == eq_ignore_case(a@, b@),
{
    let x = chars_of(a);
    let y = chars_of(b);
    if x.len() != y.len() {
        return false;
    }
    let n = x.len();
    let mut i: usize = 0;
    while i < n
        invariant
            n == x@.len(),
            n == y@.len(),
            x@ == a@,
            y@ == b@,
            0 <= i <= n,
            forall|j: int| 0 <= j < i ==> ascii_lower(#[trigger] x@[j]) == ascii_lower(y@[j]),
        decreases n - i,
    {
        if ascii_lower_char(x[i]) != ascii_lower_char(y[i]) {
            return false;
        }
        i += 1;
    }
    true
}

/// Number of bytes of `c` in UTF-8.
pub open spec fn char_utf8_len(c: char) -> nat {
    if (c as u32) < 0x80 {
        1
    } else if (c as u32) < 0x800 {
        2
    } else if (c as u32) < 0x10000 {
        3
    } else {
        4
    }
}

/// Number of bytes of `s` in UTF-8 (`str::len`).
pub open spec fn utf8_len(s: Seq<char>) -> nat
    decreases s.len(),
{
    if s.len() == 0 {
        0
    } else {
        utf8_len(s.drop_last()) + char_utf8_len(s.last())
    }
}

/// Number of bytes of `s` in UTF-8, or `cap` when that is more (computed).
pub fn utf8_len_capped(s: &Vec<char>, cap: usize) -> (r: usize)
    requires
        cap < usize::MAX - 4,
    ensures
        r == if utf8_len(s@) < cap { utf8_len(s@) } else { cap as nat },
{
    let n = s.len();
    let mut acc: usize = 0;
    let mut i: usize = 0;
    while i < n
        invariant
            n == s@.len(),
            0 <= i <= n,
            cap < usize::MAX - 4,
            acc == if utf8_len(s@.take(i as int)) < cap { utf8_len(s@.take(i as int)) } else { cap as nat },
        decreases n - i,
    {
        assert(s@.take(i + 1).drop_last() =~= s@.take(i as int));
        let c = s[i];
        let w: usize = if (c as u32) < 0x80 {
            1
        } else if (c as u32) < 0x800 {
            2
        } else if (c as u32) < 0x10000 {
            3
        } else {
            4
        };
        acc = if acc + w < cap { acc + w } else { cap };
        i += 1;
    }
    assert(s@.take(n as int) =~= s@);
    acc
}

/// Whether `c` is an ASCII digit.
pub open spec fn is_digit(c: char) -> bool {
    '0' <= c && c <= '9'
}

/// The value of an ASCII digit.
pub open spec fn digit_val(c: char) -> nat {
    ((c as u32) - 48) as nat
}

/// The value of a string of ASCII digits, read in base ten.
pub open spec fn dec_val(s: Seq<char>) -> nat
    decreases s.len(),
{
    if s.len() == 0 {
        0
    } else {
        dec_val(s.drop_last()) * 10 + digit_val(s.last())
    }
}

/// Whether every character of `s` is an ASCII digit.
pub open spec fn all_digits(s: Seq<char>) -> bool {
    forall|i: int| 0 <= i < s.len() ==> is_digit(#[trigger] s[i])
}

/// The value of the digits `v[a..b]`, or `cap` when that is more.
pub fn dec_val_capped(v: &Vec<char>, a: usize, b: usize, cap: u64) -> (r: u64)
    requires
        a <= b <= v@.len(),
        all_digits(v@.subrange(a as int, b as int)),
        cap < 0x1000_0000_0000_0000,
    ensures
        r == if dec_val(v@.subrange(a as int, b as int)) < cap {
            dec_val(v@.subrange(a as int, b as int))
        } else {
            cap as nat
        },
{
    let mut acc: u64 = 0;
    let mut i = a;
    while i < b
        invariant
            a <= i <= b <= v@.len(),
            all_digits(v@.subrange(a as int, b as int)),
            cap < 0x1000_0000_0000_0000,
            acc == if dec_val(v@.subrange(a as int, i as int)) < cap {
                dec_val(v@.subrange(a as int, i as int))
            } else {
                cap as nat
            },
        decreases b - i,
    {
        let ghost t = v@.subrange(a as int, i + 1);
        assert(t.drop_last() =~= v@.subrange(a as int, i as int));
        assert(t.last() == v@.subrange(a as int, b as int)[i - a]);
        let d = (v[i] as u32 - 48) as u64;
        acc = if acc >= cap {
            cap
        } else if acc * 10 + d < cap {
            acc * 10 + d
        } else {
            cap
        };
        i += 1;
    }
    acc
}

/// The pieces of `s` between occurrences of `c`, scanning with a pending piece `cur`
/// after the pieces `acc` already found (`str::split` with a character).
pub open spec fn split_from(s: Seq<char>, c: char, cur: Seq<char>, acc: Seq<Seq<char>>) -> Seq<
    Seq<char>,
>
    decreases s.len(),
{
    if s.len() == 0 {
        acc.push(cur)
    } else if s[0] == c {
        split_from(s.drop_first(), c, seq![], acc.push(cur))
    } else {
        split_from(s.drop_first(), c, cur.push(s[0]), acc)
    }
}

/// The pieces of `s` between occurrences of `c`; there is always at least one.
pub open spec fn split_on(s: Seq<char>, c: char) -> Seq<Seq<char>> {
    split_from(s, c, seq![], seq![])
}

/// The pieces of `v` between occurrences of `c`.
pub fn split_char(v: &Vec<char>, c: char) -> (r: Vec<Vec<char>>)
    ensures
        r@.len() == split_on(v@, c).len(),
        forall|k: int| 0 <= k < r@.len() ==> #[trigger] r@[k]@ == split_on(v@, c)[k],
{
    let n = v.len();
    let mut cur: Vec<char> = Vec::new();
    let mut acc: Vec<Vec<char>> = Vec::new();
    let ghost mut accm: Seq<Seq<char>> = seq![];
    let mut i: usize = 0;
    assert(v@.skip(0) =~= v@);
    assert(cur@ =~= seq![]);
    while i < n
        invariant
            n == v@.len(),
            0 <= i <= n,
            accm.len() == acc@.len(),
            forall|k: int| 0 <= k < acc@.len() ==> #[trigger] acc@[k]@ == accm[k],
            split_on(v@, c) == split_from(v@.skip(i as int), c, cur@, accm),
        decreases n - i,
    {
        let d = v[i];
        assert(v@.skip(i as int).drop_first() =~= v@.skip(i + 1));
        assert(v@.skip(i as int)[0] == d);
        if d == c {
            let w = cur;
            proof {
                accm = accm.push(w@);
            }
            acc.push(w);
            cur = Vec::new();
            assert(cur@ =~= seq![]);
        } else {
            cur.push(d);
        }
        i += 1;
    }
    assert(v@.skip(n as int) =~= Seq::<char>::empty());
    let w = cur;
    proof {
        accm = accm.push(w@);
    }
    acc.push(w);
    acc
}

/// The number of occurrences of `c` in `s`.
pub open spec fn count_char(s: Seq<char>, c: char) -> nat
    decreases s.len(),
{
    if s.len() == 0 {
        0
    } else {
        count_char(s.drop_last(), c) + if s.last() == c {
            1nat
        } else {
            0nat
        }
    }
}

/// The number of occurrences of `c` in `v`.
pub fn count_char_exec(v: &Vec<char>, c: char) -> (n: usize)
    ensures
        n == count_char(v@, c),
{
    let len = v.len();
    let mut n: usize = 0;
    let mut i: usize = 0;
    assert(v@.take(0) =~= Seq::<char>::empty());
    while i < len
        invariant
            len == v@.len(),
            0 <= i <= len,
            n <= i,
            n == count_char(v@.take(i as int), c),
        decreases len - i,
    {
        assert(v@.take(i + 1).drop_last() =~= v@.take(i as int));
        if v[i] == c {
            n += 1;
        }
        i += 1;
    }
    assert(v@.take(len as int) =~= v@);
    n
}

/// Whether a name is in a table.
pub open spec fn in_table(t: Seq<&'static str>, n: Seq<char>) -> bool {
    exists|i: int| 0 <= i < t.len() && #[trigger] t[i]@ == n
}

/// Whether a name is in a table (computed).
pub fn table_has(t: &Vec<&'static str>, n: &str) -> (r: bool)
    ensures
        r == in_table(t@, n@),
{
    let k = t.len();
    let mut i: usize = 0;
    while i < k
        invariant
            k == t@.len(),
            0 <= i <= k,
            forall|j: int| 0 <= j < i ==> #[trigger] t@[j]@ != n@,
        decreases k - i,
    {
        if str_eq(t[i], n) {
            return true;
        }
        i += 1;
    }
    false
}

/// Model of a list of strings.
pub open spec fn strings_view(v: Seq<String>) -> Seq<Seq<char>> {
    v.map_values(|s: String| s@)
}

/// Whether some string of `v` equals `s` (computed).
pub fn strings_have(v: &Vec<String>, s: &Vec<char>) -> (r: bool)
    ensures
        r == strings_view(v@).contains(s@),
{
    let n = v.len();
    let mut i: usize = 0;
    while i < n
        invariant
            n == v@.len(),
            0 <= i <= n,
            forall|j: int| 0 <= j < i ==> #[trigger] strings_view(v@)[j] != s@,
        decreases n - i,
    {
        if chars_eq(&chars_of(v[i].as_str()), s) {
            assert(strings_view(v@)[i as int] == s@);
            return true;
        }
        i += 1;
    }
    false
}

/// The position of the first `c` in `s`, or its length when there is none.
pub open spec fn char_pos(s: Seq<char>, c: char) -> nat
    decreases s.len(),
{
    if s.len() == 0 {
        0
    } else if s[0] == c {
        0
    } else {
        1 + char_pos(s.drop_first(), c)
    }
}

/// The position of the first `c` in `v`, or its length (computed).
pub fn char_pos_exec(v: &Vec<char>, c: char) -> (r: usize)
    ensures
        r == char_pos(v@, c),
        r <= v@.len(),
{
    let n = v.len();
    let mut i: usize = 0;
    assert(v@.skip(0) =~= v@);
    while i < n
        invariant
            n == v@.len(),
            0 <= i <= n,
            char_pos(v@, c) == i + char_pos(v@.skip(i as int), c),
        decreases n - i,
    {
        if v[i] == c {
            return i;
        }
        assert(v@.skip(i as int).drop_first() =~= v@.skip(i + 1));
        i += 1;
    }
    assert(v@.skip(n as int) =~= Seq::<char>::empty());
    i
}

/// The first index where `p` occurs in `s` (`str::find`).
#[verifier::opaque]
pub open spec fn find_first(s: Seq<char>, p: Seq<char>) -> Option<int> {
    if has_sub(s, p) {
        Some(
            choose|i: int|
                occurs_at(s, p, i) && forall|j: int| 0 <= j < i ==> !occurs_at(s, p, j),
        )
    } else {
        None
    }
}

/// The first index where `p` occurs in `s` (computed).
pub fn find_first_exec(s: &Vec<char>, p: &Vec<char>) -> (r: Option<usize>)
    ensures
        match r {
            Some(i) => find_first(s@, p@) == Some(i as int) && occurs_at(s@, p@, i as int),
            None => find_first(s@, p@) is None,
        },
{
    reveal(find_first);
    match find_from(s, p, 0) {
        Some(i) => {
            let ghost w = choose|k: int|
                occurs_at(s@, p@, k) && forall|j: int| 0 <= j < k ==> !occurs_at(s@, p@, j);
            assert(occurs_at(s@, p@, i as int) && forall|j: int|
                0 <= j < i ==> !occurs_at(s@, p@, j));
            assert(w == i as int) by {
                if w < i {
                    assert(!occurs_at(s@, p@, w));
                } else if w > i {
                    assert(!occurs_at(s@, p@, i as int));
                }
            }
            Some(i)
        },
        None => {
            assert(!has_sub(s@, p@)) by {
                assert forall|j: int| !occurs_at(s@, p@, j) by {
                    if j >= 0 {
                    }
                }
            }
            None
        },
    }
}

/// `s` with every occurrence of `pat`, from left to right and not overlapping,
/// replaced by `rep` (`str::replace`, for a pattern that is not empty).
pub open spec fn replace_all(s: Seq<char>, pat: Seq<char>, rep: Seq<char>) -> Seq<char>
    decreases s.len(),
{
    if pat.len() == 0 || s.len() < pat.len() {
        s
    } else if s.take(pat.len() as int) == pat {
        rep + replace_all(s.skip(pat.len() as int), pat, rep)
    } else {
        seq![s[0]] + replace_all(s.drop_first(), pat, rep)
    }
}

/// `s` with every occurrence of `pat` replaced by `rep` (computed).
pub fn replace_all_exec(s: &Vec<char>, pat: &Vec<char>, rep: &Vec<char>) -> (r: Vec<char>)
    requires
        pat@.len() > 0,
    ensures
        r@ == replace_all(s@, pat@, rep@),
{
    let n = s.len();
    let m = pat.len();
    let mut out: Vec<char> = Vec::new();
    let mut i: usize = 0;
    assert(s@.skip(0) =~= s@);
    while i < n
        invariant
            n == s@.len(),
            m == pat@.len(),
            m > 0,
            0 <= i <= n,
            replace_all(s@, pat@, rep@) == out@ + replace_all(s@.skip(i as int), pat@, rep@),
        decreases n - i,
    {
        let ghost t = s@.skip(i as int);
        if m <= n - i && occurs_at_exec(s, pat, i) {
            assert(t.take(m as int) =~= s@.subrange(i as int, i + m));
            assert(t.skip(m as int) =~= s@.skip(i + m));
            let ghost o = out@;
            extend_chars(&mut out, rep);
            assert(o + (rep@ + replace_all(t.skip(m as int), pat@, rep@)) =~= out@ + replace_all(
                s@.skip(i + m),
                pat@,
                rep@,
            ));
            i += m;
        } else {
            if m <= n - i {
                assert(t.take(m as int) =~= s@.subrange(i as int, i + m));
            }
            assert(t.drop_first() =~= s@.skip(i + 1));
            assert(t[0] == s@[i as int]);
            let ghost o = out@;
            out.push(s[i]);
            assert(o + (seq![t[0]] + replace_all(t.drop_first(), pat@, rep@)) =~= out@
                + replace_all(s@.skip(i + 1), pat@, rep@));
            i += 1;
        }
    }
    assert(s@.skip(n as int) =~= Seq::<char>::empty());
    assert(out@ + Seq::<char>::empty() =~= out@);
    out
}

/// The pieces of `s` between the occurrences of a separator that is not empty, found
/// from left to right without overlap, scanning with a pending piece `cur` after the
/// pieces `acc` already found.
pub open spec fn split_str_from(s: Seq<char>, sep: Seq<char>, cur: Seq<char>, acc: Seq<Seq<char>>) -> Seq<
    Seq<char>,
>
    decreases s.len(),
{
    if s.len() == 0 {
        acc.push(cur)
    } else if sep.len() > 0 && starts_with_seq(s, sep) {
        split_str_from(s.skip(sep.len() as int), sep, seq![], acc.push(cur))
    } else {
        split_str_from(s.drop_first(), sep, cur.push(s[0]), acc)
    }
}

/// The pieces of `s` between occurrences of `sep` (`str::split` with a string): with an
/// empty separator, an empty piece, each character, and an empty piece.
pub open spec fn split_str(s: Seq<char>, sep: Seq<char>) -> Seq<Seq<char>> {
    if sep.len() == 0 {
        seq![seq![]] + Seq::new(s.len(), |i: int| seq![s[i]]) + seq![seq![]]
    } else {
        split_str_from(s, sep, seq![], seq![])
    }
}

/// The pieces of `v` between occurrences of `sep`.
pub fn split_str_exec(v: &Vec<char>, sep: &Vec<char>) -> (r: Vec<Vec<char>>)
    ensures
        r@.len() == split_str(v@, sep@).len(),
        forall|k: int| 0 <= k < r@.len() ==> #[trigger] r@[k]@ == split_str(v@, sep@)[k],
{
    let n = v.len();
    let m = sep.len();
    let mut acc: Vec<Vec<char>> = Vec::new();
    if m == 0 {
        let ghost want = split_str(v@, sep@);
        acc.push(Vec::new());
        let mut i: usize = 0;
        while i < n
            invariant
                n == v@.len(),
                0 <= i <= n,
                acc@.len() == i + 1,
                want == split_str(v@, sep@),
                sep@.len() == 0,
                forall|k: int| 0 <= k < acc@.len() ==> #[trigger] acc@[k]@ == want[k],
            decreases n - i,
        {
            let mut one: Vec<char> = Vec::new();
            one.push(v[i]);
            assert(one@ =~= seq![v@[i as int]]);
            assert(want[i + 1] == seq![v@[i as int]]);
            acc.push(one);
            i += 1;
        }
        let e: Vec<char> = Vec::new();
        assert(e@ =~= Seq::<char>::empty());
        acc.push(e);
        return acc;
    }
    let mut cur: Vec<char> = Vec::new();
    let ghost mut accm: Seq<Seq<char>> = seq![];
    let mut i: usize = 0;
    assert(v@.skip(0) =~= v@);
    assert(cur@ =~= seq![]);
    while i < n
        invariant
            n == v@.len(),
            m == sep@.len(),
            m > 0,
            0 <= i <= n,
            accm.len() == acc@.len(),
            forall|k: int| 0 <= k < acc@.len() ==> #[trigger] acc@[k]@ == accm[k],
            split_str(v@, sep@) == split_str_from(v@.skip(i as int), sep@, cur@, accm),
        decreases n - i,
    {
        let ghost t = v@.skip(i as int);
        if m <= n - i && occurs_at_exec(v, sep, i) {
            assert(t.subrange(0, m as int) =~= v@.subrange(i as int, i + m));
            assert(t.skip(m as int) =~= v@.skip(i + m));
            let w = cur;
            proof {
                accm = accm.push(w@);
            }
            acc.push(w);
            cur = Vec::new();
            assert(cur@ =~= seq![]);
            i += m;
        } else {
            if m <= n - i {
                assert(t.subrange(0, m as int) =~= v@.subrange(i as int, i + m));
            }
            assert(t.drop_first() =~= v@.skip(i + 1));
            assert(t[0] == v@[i as int]);
            cur.push(v[i]);
            i += 1;
        }
    }
    assert(v@.skip(n as int) =~= Seq::<char>::empty());
    let w = cur;
    proof {
        accm = accm.push(w@);
    }
    acc.push(w);
    acc
}

} // verus!
