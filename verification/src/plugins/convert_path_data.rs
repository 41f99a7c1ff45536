//! The commands of SVG path data and their letters.
use vstd::prelude::*;
use crate::ast::PluginError;
use crate::text::{
    chars_of, eq_ignore_ascii_case, eq_ignore_case, extend_chars, owned, push_char, skip_chars, string_from,
    strings_view,
};

verus! {

broadcast use vstd::string::group_string_axioms;

/// The kinds of path commands.
#[derive(Debug, Clone, Copy, PartialEq, Eq, Structural)]
pub enum CommandType {
    MoveTo,
    LineTo,
    HorizontalLineTo,
    VerticalLineTo,
    CurveTo,
    SmoothCurveTo,
    QuadraticBezier,
    SmoothQuadraticBezier,
    Arc,
    ClosePath,
}

/// The kind of command a letter names and whether it is absolute (upper case);
/// `Z` and `z` both close the path and count as absolute.
pub open spec fn command_of(ch: char) -> Option<(CommandType, bool)> {
    if ch == 'M' {
        Some((CommandType::MoveTo, true))
    } else if ch == 'm' {
        Some((CommandType::MoveTo, false))
    } else if ch == 'L' {
        Some((CommandType::LineTo, true))
    } else if ch == 'l' {
        Some((CommandType::LineTo, false))
    } else if ch == 'H' {
        Some((CommandType::HorizontalLineTo, true))
    } else if ch == 'h' {
        Some((CommandType::HorizontalLineTo, false))
    } else if ch == 'V' {
        Some((CommandType::VerticalLineTo, true))
    } else if ch == 'v' {
        Some((CommandType::VerticalLineTo, false))
    } else if ch == 'C' {
        Some((CommandType::CurveTo, true))
    } else if ch == 'c' {
        Some((CommandType::CurveTo, false))
    } else if ch == 'S' {
        Some((CommandType::SmoothCurveTo, true))
    } else if ch == 's' {
        Some((CommandType::SmoothCurveTo, false))
    } else if ch == 'Q' {
        Some((CommandType::QuadraticBezier, true))
    } else if ch == 'q' {
        Some((CommandType::QuadraticBezier, false))
    } else if ch == 'T' {
        Some((CommandType::SmoothQuadraticBezier, true))
    } else if ch == 't' {
        Some((CommandType::SmoothQuadraticBezier, false))
    } else if ch == 'A' {
        Some((CommandType::Arc, true))
    } else if ch == 'a' {
        Some((CommandType::Arc, false))
    } else if ch == 'Z' || ch == 'z' {
        Some((CommandType::ClosePath, true))
    } else {
        None
    }
}

/// The letter of a command: upper case when absolute; `z` for closing the path.
pub open spec fn letter_of(t: CommandType, is_absolute: bool) -> char {
    match t {
        CommandType::MoveTo => if is_absolute { 'M' } else { 'm' },
        CommandType::LineTo => if is_absolute { 'L' } else { 'l' },
        CommandType::HorizontalLineTo => if is_absolute { 'H' } else { 'h' },
        CommandType::VerticalLineTo => if is_absolute { 'V' } else { 'v' },
        CommandType::CurveTo => if is_absolute { 'C' } else { 'c' },
        CommandType::SmoothCurveTo => if is_absolute { 'S' } else { 's' },
        CommandType::QuadraticBezier => if is_absolute { 'Q' } else { 'q' },
        CommandType::SmoothQuadraticBezier => if is_absolute { 'T' } else { 't' },
        CommandType::Arc => if is_absolute { 'A' } else { 'a' },
        CommandType::ClosePath => 'z',
    }
}

/// The kind of command a letter names and whether it is absolute; an error for any
/// other character.
pub fn parse_command_char(ch: char) -> (r: Result<(CommandType, bool), PluginError>)
    ensures
        match r {
            Ok(p) => command_of(ch) == Some(p),
            Err(_) => command_of(ch) is None,
        },
{
    match ch {
        'M' => Ok((CommandType::MoveTo, true)),
        'm' => Ok((CommandType::MoveTo, false)),
        'L' => Ok((CommandType::LineTo, true)),
        'l' => Ok((CommandType::LineTo, false)),
        'H' => Ok((CommandType::HorizontalLineTo, true)),
        'h' => Ok((CommandType::HorizontalLineTo, false)),
        'V' => Ok((CommandType::VerticalLineTo, true)),
        'v' => Ok((CommandType::VerticalLineTo, false)),
        'C' => Ok((CommandType::CurveTo, true)),
        'c' => Ok((CommandType::CurveTo, false)),
        'S' => Ok((CommandType::SmoothCurveTo, true)),
        's' => Ok((CommandType::SmoothCurveTo, false)),
        'Q' => Ok((CommandType::QuadraticBezier, true)),
        'q' => Ok((CommandType::QuadraticBezier, false)),
        'T' => Ok((CommandType::SmoothQuadraticBezier, true)),
        't' => Ok((CommandType::SmoothQuadraticBezier, false)),
        'A' => Ok((CommandType::Arc, true)),
        'a' => Ok((CommandType::Arc, false)),
        'Z' | 'z' => Ok((CommandType::ClosePath, true)),
        _ => {
            let mut msg = owned("Unknown command character: ");
            push_char(&mut msg, ch);
            Err(PluginError::InvalidPathData(msg))
        },
    }
}

/// The letter of a command.
pub fn command_char(cmd_type: CommandType, is_absolute: bool) -> (r: char)
    ensures
        r == letter_of(cmd_type, is_absolute),
{
    match cmd_type {
        CommandType::MoveTo => if is_absolute { 'M' } else { 'm' },
        CommandType::LineTo => if is_absolute { 'L' } else { 'l' },
        CommandType::HorizontalLineTo => if is_absolute { 'H' } else { 'h' },
        CommandType::VerticalLineTo => if is_absolute { 'V' } else { 'v' },
        CommandType::CurveTo => if is_absolute { 'C' } else { 'c' },
        CommandType::SmoothCurveTo => if is_absolute { 'S' } else { 's' },
        CommandType::QuadraticBezier => if is_absolute { 'Q' } else { 'q' },
        CommandType::SmoothQuadraticBezier => if is_absolute { 'T' } else { 't' },
        CommandType::Arc => if is_absolute { 'A' } else { 'a' },
        CommandType::ClosePath => 'z',
    }
}

/// The number of parameters one command of a kind takes.
pub open spec fn param_count_of(t: CommandType) -> nat {
    match t {
        CommandType::MoveTo | CommandType::LineTo | CommandType::SmoothQuadraticBezier => 2,
        CommandType::HorizontalLineTo | CommandType::VerticalLineTo => 1,
        CommandType::CurveTo => 6,
        CommandType::SmoothCurveTo | CommandType::QuadraticBezier => 4,
        CommandType::Arc => 7,
        CommandType::ClosePath => 0,
    }
}

/// The number of parameters one command of a kind takes.
pub fn param_count(cmd_type: CommandType) -> (r: usize)
    ensures
        r == param_count_of(cmd_type),
{
    match cmd_type {
        CommandType::MoveTo | CommandType::LineTo | CommandType::SmoothQuadraticBezier => 2,
        CommandType::HorizontalLineTo | CommandType::VerticalLineTo => 1,
        CommandType::CurveTo => 6,
        CommandType::SmoothCurveTo | CommandType::QuadraticBezier => 4,
        CommandType::Arc => 7,
        CommandType::ClosePath => 0,
    }
}

/// Where a command's end point stands among its parameters: the position of the
/// x coordinate it moves to and of the y coordinate, where it sets them.
pub open spec fn end_point_of(t: CommandType) -> (Option<nat>, Option<nat>) {
    match t {
        CommandType::MoveTo | CommandType::LineTo | CommandType::SmoothQuadraticBezier => (
            Some(0),
            Some(1),
        ),
        CommandType::HorizontalLineTo => (Some(0), None),
        CommandType::VerticalLineTo => (None, Some(0)),
        CommandType::CurveTo => (Some(4), Some(5)),
        CommandType::SmoothCurveTo | CommandType::QuadraticBezier => (Some(2), Some(3)),
        CommandType::Arc => (Some(5), Some(6)),
        CommandType::ClosePath => (None, None),
    }
}

/// Where a command's end point stands among its parameters.
pub fn end_point(cmd_type: CommandType) -> (r: (Option<usize>, Option<usize>))
    ensures
        (r.0, r.1) == (
            match end_point_of(cmd_type).0 {
                Some(i) => Some(i as usize),
                None => None,
            },
            match end_point_of(cmd_type).1 {
                Some(i) => Some(i as usize),
                None => None,
            },
        ),
{
    match cmd_type {
        CommandType::MoveTo | CommandType::LineTo | CommandType::SmoothQuadraticBezier => (
            Some(0),
            Some(1),
        ),
        CommandType::HorizontalLineTo => (Some(0), None),
        CommandType::VerticalLineTo => (None, Some(0)),
        CommandType::CurveTo => (Some(4), Some(5)),
        CommandType::SmoothCurveTo | CommandType::QuadraticBezier => (Some(2), Some(3)),
        CommandType::Arc => (Some(5), Some(6)),
        CommandType::ClosePath => (None, None),
    }
}

/// The end point of a command lies within its parameters: a command with all its
/// parameters has the coordinates it moves to.
pub proof fn lemma_end_point_within(t: CommandType)
    ensures
        end_point_of(t).0 matches Some(i) ==> i < param_count_of(t),
        end_point_of(t).1 matches Some(i) ==> i < param_count_of(t),
        param_count_of(t) == 0 <==> t == CommandType::ClosePath,
{
}

/// The kind of the command made from a group of parameters: a moveto's groups after
/// its first one are linetos.
pub open spec fn group_command_of(cmd_type: CommandType, later: bool) -> CommandType {
    if cmd_type == CommandType::MoveTo && later {
        CommandType::LineTo
    } else {
        cmd_type
    }
}

/// The kind of the command made from a group of parameters.
pub fn group_command(cmd_type: CommandType, later: bool) -> (r: CommandType)
    ensures
        r == group_command_of(cmd_type, later),
{
    if cmd_type == CommandType::MoveTo && later {
        CommandType::LineTo
    } else {
        cmd_type
    }
}

/// Whether every character of a text is a decimal digit.
pub open spec fn all_digits(t: Seq<char>) -> bool {
    forall|i: int| 0 <= i < t.len() ==> '0' <= #[trigger] t[i] <= '9'
}

/// The position of the first `e` or `E` of a text, or its length.
pub open spec fn exp_pos(t: Seq<char>) -> nat
    decreases t.len(),
{
    if t.len() == 0 {
        0
    } else if t[0] == 'e' || t[0] == 'E' {
        0
    } else {
        1 + exp_pos(t.drop_first())
    }
}

/// The position of the first `.` of a text, or its length.
pub open spec fn dot_pos(t: Seq<char>) -> nat
    decreases t.len(),
{
    if t.len() == 0 {
        0
    } else if t[0] == '.' {
        0
    } else {
        1 + dot_pos(t.drop_first())
    }
}

/// A text without its leading sign, if any.
pub open spec fn unsigned(t: Seq<char>) -> Seq<char> {
    if t.len() > 0 && (t[0] == '+' || t[0] == '-') {
        t.drop_first()
    } else {
        t
    }
}

/// Whether a text is the digits of a decimal number: digits, digits and a dot, or
/// digits around a dot, with at least one digit.
pub open spec fn is_mantissa(m: Seq<char>) -> bool {
    let d = dot_pos(m) as int;
    if d == m.len() {
        m.len() >= 1 && all_digits(m)
    } else {
        all_digits(m.take(d)) && all_digits(m.skip(d + 1)) && (d >= 1 || m.len() - d - 1 >= 1)
    }
}

/// Whether a text is a number as `f64::from_str` documents it, for texts of digits,
/// dots, signs and exponent letters: a sign, a mantissa, and an exponent of a sign and
/// digits.
pub open spec fn is_number_text(t: Seq<char>) -> bool {
    let u = unsigned(t);
    let e = exp_pos(u) as int;
    is_mantissa(u.take(e)) && (e == u.len() || (unsigned(u.skip(e + 1)).len() >= 1 && all_digits(
        unsigned(u.skip(e + 1)),
    )))
}

/// Facts about a position found by scanning.
proof fn lemma_exp_pos(t: Seq<char>)
    ensures
        exp_pos(t) <= t.len(),
        exp_pos(t) < t.len() ==> (t[exp_pos(t) as int] == 'e' || t[exp_pos(t) as int] == 'E'),
        forall|i: int| 0 <= i < exp_pos(t) ==> #[trigger] t[i] != 'e' && t[i] != 'E',
    decreases t.len(),
{
    if t.len() > 0 && !(t[0] == 'e' || t[0] == 'E') {
        lemma_exp_pos(t.drop_first());
        assert forall|i: int| 0 <= i < exp_pos(t) implies #[trigger] t[i] != 'e' && t[i] != 'E' by {
            if i > 0 {
                assert(t[i] == t.drop_first()[i - 1]);
            }
        }
    }
}

/// Facts about a position found by scanning.
proof fn lemma_dot_pos(t: Seq<char>)
    ensures
        dot_pos(t) <= t.len(),
        dot_pos(t) < t.len() ==> t[dot_pos(t) as int] == '.',
        forall|i: int| 0 <= i < dot_pos(t) ==> #[trigger] t[i] != '.',
    decreases t.len(),
{
    if t.len() > 0 && t[0] != '.' {
        lemma_dot_pos(t.drop_first());
        assert forall|i: int| 0 <= i < dot_pos(t) implies #[trigger] t[i] != '.' by {
            if i > 0 {
                assert(t[i] == t.drop_first()[i - 1]);
            }
        }
    }
}

/// Whether the characters of `t` from `a` to `b` are all digits (computed).
fn digits_between(t: &Vec<char>, a: usize, b: usize) -> (r: bool)
    requires
        a <= b <= t@.len(),
    ensures
        r == all_digits(t@.subrange(a as int, b as int)),
{
    let mut i = a;
    while i < b
        invariant
            a <= i <= b <= t@.len(),
            all_digits(t@.subrange(a as int, i as int)),
        decreases b - i,
    {
        if !('0' <= t[i] && t[i] <= '9') {
            assert(t@.subrange(a as int, b as int)[i - a] == t@[i as int]);
            return false;
        }
        assert forall|k: int| 0 <= k < i + 1 - a implies '0' <= #[trigger] t@.subrange(
            a as int,
            i + 1,
        )[k] <= '9' by {
            if k < i - a {
                assert(t@.subrange(a as int, i + 1)[k] == t@.subrange(a as int, i as int)[k]);
            }
        }
        i += 1;
    }
    true
}

/// Whether a text is a number as `f64::from_str` reads it (computed, for texts of
/// digits, dots, signs and exponent letters).
#[verifier::spinoff_prover]
#[verifier::rlimit(40)]
pub fn is_number_text_exec(t: &Vec<char>) -> (r: bool)
    ensures
        r == is_number_text(t@),
{
    let start: usize = if t.len() > 0 && (t[0] == '+' || t[0] == '-') {
        1
    } else {
        0
    };
    let ghost u = unsigned(t@);
    assert(u =~= t@.skip(start as int));
    let mut e = start;
    while e < t.len() && t[e] != 'e' && t[e] != 'E'
        invariant
            start <= e <= t@.len(),
            u == t@.skip(start as int),
            forall|i: int| start <= i < e ==> #[trigger] t@[i] != 'e' && t@[i] != 'E',
        decreases t.len() - e,
    {
        e += 1;
    }
    proof {
        lemma_exp_pos(u);
        if exp_pos(u) < e - start {
            assert(u[exp_pos(u) as int] == t@[start + exp_pos(u)]);
        }
        if e < t.len() && e - start < exp_pos(u) {
            assert(u[e - start] == t@[e as int]);
        }
        assert(exp_pos(u) == e - start);
    }
    let mut d = start;
    while d < e && t[d] != '.'
        invariant
            start <= d <= e <= t@.len(),
            forall|i: int| start <= i < d ==> #[trigger] t@[i] != '.',
        decreases e - d,
    {
        d += 1;
    }
    let ghost m = u.take(e - start);
    assert(m =~= t@.subrange(start as int, e as int));
    proof {
        lemma_dot_pos(m);
        if dot_pos(m) < d - start {
            assert(m[dot_pos(m) as int] == t@[start + dot_pos(m)]);
        }
        if d < e && d - start < dot_pos(m) {
            assert(m[d - start] == t@[d as int]);
        }
        assert(dot_pos(m) == d - start);
        assert(m.take(d - start) =~= t@.subrange(start as int, d as int));
    }
    let mantissa_ok = if d == e {
        e > start && digits_between(t, start, e)
    } else {
        assert(m.skip(d - start + 1) =~= t@.subrange(d + 1, e as int));
        digits_between(t, start, d) && digits_between(t, d + 1, e) && (d > start || e > d + 1)
    };
    if !mantissa_ok {
        return false;
    }
    if e == t.len() {
        return true;
    }
    let mut x = e + 1;
    if x < t.len() && (t[x] == '+' || t[x] == '-') {
        x += 1;
    }
    proof {
        assert(u.skip(e - start + 1) =~= t@.skip(e + 1));
        assert(unsigned(t@.skip(e + 1)) =~= t@.skip(x as int));
        assert(t@.skip(x as int) =~= t@.subrange(x as int, t@.len() as int));
    }
    x < t.len() && digits_between(t, x, t.len())
}

/// Whether a text is read by `f64::from_str`, whose documentation gives the grammar
/// (letters in any case): a sign, then `inf`, `infinity`, `nan` or a number.
pub open spec fn is_float_text(t: Seq<char>) -> bool {
    ||| is_number_text(t)
    ||| eq_ignore_case(unsigned(t), "inf"@)
    ||| eq_ignore_case(unsigned(t), "infinity"@)
    ||| eq_ignore_case(unsigned(t), "nan"@)
}

/// Whether a text is read by `f64::from_str` (computed).
pub fn is_float_text_exec(t: &Vec<char>) -> (r: bool)
    ensures
        r == is_float_text(t@),
{
    if is_number_text_exec(t) {
        return true;
    }
    let start: usize = if t.len() > 0 && (t[0] == '+' || t[0] == '-') {
        1
    } else {
        0
    };
    let rest = skip_chars(t, start);
    assert(rest@ =~= unsigned(t@));
    let u = string_from(&rest);
    eq_ignore_ascii_case(u.as_str(), "inf") || eq_ignore_ascii_case(u.as_str(), "infinity")
        || eq_ignore_ascii_case(u.as_str(), "nan")
}

/// A path command with the texts of its numbers.
pub struct PathTokens {
    pub cmd_type: CommandType,
    pub is_absolute: bool,
    pub params: Vec<String>,
}

/// Model of a command with the texts of its numbers.
pub type CmdM = (CommandType, bool, Seq<Seq<char>>);

/// Model of a list of commands.
pub open spec fn tokens_view(v: Seq<PathTokens>) -> Seq<CmdM> {
    Seq::new(v.len(), |i: int| (v[i].cmd_type, v[i].is_absolute, strings_view(v[i].params@)))
}

/// What reading path data has gathered so far: the commands, the numbers not yet given
/// to a command, the text of the number being read, the pending command, and whether
/// a number is being read.
pub struct ScanM {
    pub cmds: Seq<CmdM>,
    pub nums: Seq<Seq<char>>,
    pub cur: Seq<char>,
    pub last: Option<(CommandType, bool)>,
    pub in_num: bool,
}

/// The numbers with the text being read added, when it is a number.
pub open spec fn flushed(nums: Seq<Seq<char>>, cur: Seq<char>) -> Seq<Seq<char>> {
    if cur.len() > 0 && is_number_text(cur) {
        nums.push(cur)
    } else {
        nums
    }
}

/// The commands made from numbers, one per full group of a command's count; `later`
/// says whether a group of this command came before (a moveto repeats as lineto).
pub open spec fn chunks(cmds: Seq<CmdM>, t: CommandType, a: bool, nums: Seq<Seq<char>>, later: bool) -> Seq<CmdM>
    decreases nums.len(),
{
    let n = param_count_of(t);
    if n == 0 || nums.len() < n {
        cmds
    } else {
        chunks(cmds.push((group_command_of(t, later), a, nums.take(n as int))), t, a, nums.skip(n as int), true)
    }
}

/// The commands and the numbers left once the pending command takes its numbers:
/// leftover numbers are dropped.
pub open spec fn emitted(cmds: Seq<CmdM>, last: Option<(CommandType, bool)>, nums: Seq<Seq<char>>) -> (
    Seq<CmdM>,
    Seq<Seq<char>>,
) {
    match last {
        Some((t, a)) => if param_count_of(t) == 0 {
            (cmds, nums)
        } else {
            (chunks(cmds, t, a, nums, false), seq![])
        },
        None => (cmds, nums),
    }
}

/// Whether a character can be part of a number.
pub open spec fn number_char(ch: char) -> bool {
    ('0' <= ch <= '9') || ch == '.' || ch == '-' || ch == '+' || ch == 'e' || ch == 'E'
}

/// Whether a character separates numbers.
pub open spec fn separator_char(ch: char) -> bool {
    ch == ' ' || ch == ',' || ch == '\t' || ch == '\n' || ch == '\r'
}

/// Reading one more character: a command letter ends the number being read, gives the
/// numbers to the pending command and makes the letter's command pending (a close
/// path is added at once); a sign inside a number starts a new one; a separator ends
/// the number; any other character is skipped.
pub open spec fn scan_step(st: ScanM, ch: char) -> ScanM {
    if command_of(ch) is Some {
        let (cmds1, nums1) = emitted(st.cmds, st.last, flushed(st.nums, st.cur));
        let (t, a) = command_of(ch).unwrap();
        if t == CommandType::ClosePath {
            ScanM {
                cmds: cmds1.push((CommandType::ClosePath, true, seq![])),
                nums: nums1,
                cur: seq![],
                last: None,
                in_num: false,
            }
        } else {
            ScanM { cmds: cmds1, nums: nums1, cur: seq![], last: Some((t, a)), in_num: false }
        }
    } else if number_char(ch) {
        if (ch == '-' || ch == '+') && st.in_num {
            ScanM { cmds: st.cmds, nums: flushed(st.nums, st.cur), cur: seq![ch], last: st.last, in_num: true }
        } else {
            ScanM { cmds: st.cmds, nums: st.nums, cur: st.cur.push(ch), last: st.last, in_num: true }
        }
    } else if separator_char(ch) && st.cur.len() > 0 {
        ScanM { cmds: st.cmds, nums: flushed(st.nums, st.cur), cur: seq![], last: st.last, in_num: false }
    } else {
        st
    }
}

/// The state after reading a text from the start.
pub open spec fn scan(s: Seq<char>) -> ScanM
    decreases s.len(),
{
    if s.len() == 0 {
        ScanM { cmds: seq![], nums: seq![], cur: seq![], last: None, in_num: false }
    } else {
        scan_step(scan(s.drop_last()), s.last())
    }
}

/// The commands of path data, with the texts of their numbers.
pub open spec fn path_tokens(s: Seq<char>) -> Seq<CmdM> {
    let st = scan(s);
    emitted(st.cmds, st.last, flushed(st.nums, st.cur)).0
}

/// Adds the number being read to the numbers, when it is one, and empties it.
fn flush_number(nums: &mut Vec<String>, cur: &mut Vec<char>)
    ensures
        strings_view(final(nums)@) == flushed(strings_view(old(nums)@), old(cur)@),
        final(cur)@.len() == 0,
{
    if cur.len() > 0 && is_number_text_exec(cur) {
        let ghost before = strings_view(nums@);
        nums.push(string_from(cur));
        assert(strings_view(nums@) =~= before.push(old(cur)@));
    }
    *cur = Vec::new();
}

/// Gives the numbers to a command, one command per full group, and empties them.
fn process_accumulated_params(cmds: &mut Vec<PathTokens>, last: Option<(CommandType, bool)>, nums: &mut Vec<String>)
    ensures
        (tokens_view(final(cmds)@), strings_view(final(nums)@)) == emitted(
            tokens_view(old(cmds)@),
            last,
            strings_view(old(nums)@),
        ),
{
    let (t, a) = match last {
        Some(p) => p,
        None => return,
    };
    let n = param_count(t);
    if n == 0 {
        return;
    }
    let ghost all = strings_view(nums@);
    let mut pos: usize = 0;
    assert(all.skip(0) =~= all);
    while n <= nums.len() - pos
        invariant
            n == param_count_of(t),
            n > 0,
            all == strings_view(nums@),
            pos <= nums@.len(),
            chunks(tokens_view(old(cmds)@), t, a, all, false) == chunks(tokens_view(cmds@), t, a, all.skip(pos as int), pos > 0),
        decreases nums.len() - pos,
    {
        let mut group: Vec<String> = Vec::new();
        let mut j: usize = 0;
        while j < n
            invariant
                pos + n <= nums.len(),
                0 <= j <= n,
                group@.len() == j,
                forall|k: int| 0 <= k < j ==> group@[k] == nums@[pos + k],
            decreases n - j,
        {
            group.push(nums[pos + j].clone());
            j += 1;
        }
        let kind = group_command(t, pos > 0);
        let ghost before = tokens_view(cmds@);
        let ghost rest = all.skip(pos as int);
        assert(strings_view(group@) =~= rest.take(n as int));
        assert(rest.skip(n as int) =~= all.skip(pos + n));
        cmds.push(PathTokens { cmd_type: kind, is_absolute: a, params: group });
        assert(tokens_view(cmds@) =~= before.push((group_command_of(t, pos > 0), a, rest.take(n as int))));
        pos = pos + n;
    }
    assert(all.skip(pos as int).len() < n);
    *nums = Vec::new();
    assert(strings_view(nums@) =~= seq![]);
}

/// Reads path data into commands with the texts of their numbers: the letters give the
/// commands, the numbers between them are grouped by each command's count (repeating
/// the command; a moveto's extra groups are linetos), texts that are no numbers are dropped,
/// and numbers left over are dropped.
pub fn tokenize_path_data(path_data: &str) -> (r: Vec<PathTokens>)
    ensures
        tokens_view(r@) == path_tokens(path_data@),
        forall|i: int| 0 <= i < r@.len() ==> command_well_formed(#[trigger] tokens_view(r@)[i]),
{
    let chars = chars_of(path_data);
    let mut cmds: Vec<PathTokens> = Vec::new();
    let mut nums: Vec<String> = Vec::new();
    let mut cur: Vec<char> = Vec::new();
    let mut last: Option<(CommandType, bool)> = None;
    let mut in_num = false;
    let n = chars.len();
    let mut i: usize = 0;
    assert(chars@.take(0) =~= Seq::<char>::empty());
    assert(tokens_view(cmds@) =~= seq![]);
    assert(strings_view(nums@) =~= seq![]);
    while i < n
        invariant
            n == chars@.len(),
            chars@ == path_data@,
            0 <= i <= n,
            scan(chars@.take(i as int)) == (ScanM {
                cmds: tokens_view(cmds@),
                nums: strings_view(nums@),
                cur: cur@,
                last,
                in_num,
            }),
        decreases n - i,
    {
        assert(chars@.take(i + 1).drop_last() =~= chars@.take(i as int));
        assert(chars@.take(i + 1).last() == chars@[i as int]);
        let ch = chars[i];
        match parse_command_char(ch) {
            Ok((t, a)) => {
                flush_number(&mut nums, &mut cur);
                process_accumulated_params(&mut cmds, last, &mut nums);
                if t == CommandType::ClosePath {
                    let ghost before = tokens_view(cmds@);
                    let empty: Vec<String> = Vec::new();
                    assert(strings_view(empty@) =~= seq![]);
                    cmds.push(PathTokens { cmd_type: CommandType::ClosePath, is_absolute: true, params: empty });
                    assert(tokens_view(cmds@) =~= before.push((CommandType::ClosePath, true, seq![])));
                    last = None;
                } else {
                    last = Some((t, a));
                }
                in_num = false;
                assert(cur@ =~= seq![]);
            },
            Err(_) => {
                if ('0' <= ch && ch <= '9') || ch == '.' || ch == '-' || ch == '+' || ch == 'e' || ch == 'E' {
                    if (ch == '-' || ch == '+') && in_num {
                        flush_number(&mut nums, &mut cur);
                        cur.push(ch);
                        assert(cur@ =~= seq![ch]);
                    } else {
                        cur.push(ch);
                    }
                    in_num = true;
                } else if (ch == ' ' || ch == ',' || ch == '\t' || ch == '\n' || ch == '\r') && cur.len() > 0 {
                    flush_number(&mut nums, &mut cur);
                    in_num = false;
                    assert(cur@ =~= seq![]);
                }
            },
        }
        i += 1;
    }
    assert(chars@.take(n as int) =~= chars@);
    flush_number(&mut nums, &mut cur);
    process_accumulated_params(&mut cmds, last, &mut nums);
    proof {
        lemma_path_tokens_well_formed(path_data@);
        assert forall|i: int| 0 <= i < cmds@.len() implies command_well_formed(
            #[trigger] tokens_view(cmds@)[i],
        ) by {
            assert(tokens_view(cmds@).len() == cmds@.len());
            assert(tokens_view(cmds@)[i] == path_tokens(path_data@)[i]);
        }
    }
    cmds
}

/// Whether a command has as many numbers as its kind takes, each a number.
pub open spec fn command_well_formed(c: CmdM) -> bool {
    &&& c.2.len() == param_count_of(c.0)
    &&& forall|j: int| 0 <= j < c.2.len() ==> is_number_text(#[trigger] c.2[j])
}

/// Whether every text of a list is a number.
pub open spec fn all_numbers(ns: Seq<Seq<char>>) -> bool {
    forall|j: int| 0 <= j < ns.len() ==> is_number_text(#[trigger] ns[j])
}

/// Grouping numbers keeps commands well formed.
proof fn lemma_chunks_well_formed(cmds: Seq<CmdM>, t: CommandType, a: bool, nums: Seq<Seq<char>>, later: bool)
    requires
        forall|i: int| 0 <= i < cmds.len() ==> command_well_formed(#[trigger] cmds[i]),
        all_numbers(nums),
    ensures
        forall|i: int|
            0 <= i < chunks(cmds, t, a, nums, later).len() ==> command_well_formed(
                #[trigger] chunks(cmds, t, a, nums, later)[i],
            ),
    decreases nums.len(),
{
    let n = param_count_of(t);
    if n > 0 && nums.len() >= n {
        let c = (group_command_of(t, later), a, nums.take(n as int));
        assert(param_count_of(c.0) == n);
        assert(command_well_formed(c)) by {
            assert forall|j: int| 0 <= j < c.2.len() implies is_number_text(#[trigger] c.2[j]) by {
                assert(c.2[j] == nums[j]);
            }
        }
        let next = cmds.push(c);
        assert forall|i: int| 0 <= i < next.len() implies command_well_formed(#[trigger] next[i]) by {
            if i < cmds.len() {
                assert(next[i] == cmds[i]);
            }
        }
        assert forall|j: int| 0 <= j < nums.skip(n as int).len() implies is_number_text(
            #[trigger] nums.skip(n as int)[j],
        ) by {
            assert(nums.skip(n as int)[j] == nums[j + n]);
        }
        lemma_chunks_well_formed(next, t, a, nums.skip(n as int), true);
        assert(chunks(cmds, t, a, nums, later) == chunks(next, t, a, nums.skip(n as int), true));
    }
}

/// What reading has gathered stays well formed.
proof fn lemma_scan_well_formed(s: Seq<char>)
    ensures
        forall|i: int| 0 <= i < scan(s).cmds.len() ==> command_well_formed(#[trigger] scan(s).cmds[i]),
        all_numbers(scan(s).nums),
    decreases s.len(),
{
    if s.len() > 0 {
        lemma_scan_well_formed(s.drop_last());
        let st = scan(s.drop_last());
        let ch = s.last();
        let f = flushed(st.nums, st.cur);
        assert(all_numbers(f)) by {
            if st.cur.len() > 0 && is_number_text(st.cur) {
                assert forall|j: int| 0 <= j < f.len() implies is_number_text(#[trigger] f[j]) by {
                    if j < st.nums.len() {
                        assert(f[j] == st.nums[j]);
                    }
                }
            }
        }
        if command_of(ch) is Some {
            match st.last {
                Some((t, a)) => {
                    lemma_chunks_well_formed(st.cmds, t, a, f, false);
                },
                None => {},
            }
            let (cmds1, nums1) = emitted(st.cmds, st.last, f);
            let (t, a) = command_of(ch).unwrap();
            if t == CommandType::ClosePath {
                let next = cmds1.push((CommandType::ClosePath, true, seq![]));
                assert forall|i: int| 0 <= i < next.len() implies command_well_formed(#[trigger] next[i]) by {
                    if i < cmds1.len() {
                        assert(next[i] == cmds1[i]);
                    }
                }
            }
        }
    }
}

/// Every command read from path data has exactly as many numbers as its kind takes,
/// and each of them is a number.
pub proof fn lemma_path_tokens_well_formed(s: Seq<char>)
    ensures
        forall|i: int| 0 <= i < path_tokens(s).len() ==> command_well_formed(#[trigger] path_tokens(s)[i]),
{
    lemma_scan_well_formed(s);
    let st = scan(s);
    let f = flushed(st.nums, st.cur);
    assert(all_numbers(f)) by {
        if st.cur.len() > 0 && is_number_text(st.cur) {
            assert forall|j: int| 0 <= j < f.len() implies is_number_text(#[trigger] f[j]) by {
                if j < st.nums.len() {
                    assert(f[j] == st.nums[j]);
                }
            }
        }
    }
    match st.last {
        Some((t, a)) => {
            lemma_chunks_well_formed(st.cmds, t, a, f, false);
        },
        None => {},
    }
}

/// A command ready to be written: its letter, whether it is a moveto, and its numbers
/// as written, each with whether it is not negative.
pub struct WrittenCommand {
    pub letter: char,
    pub is_move: bool,
    pub params: Vec<(String, bool)>,
}

/// Model of a command ready to be written.
pub type WrittenM = (char, bool, Seq<(Seq<char>, bool)>);

/// Model of the numbers of a command ready to be written.
pub open spec fn params_view(v: Seq<(String, bool)>) -> Seq<(Seq<char>, bool)> {
    Seq::new(v.len(), |i: int| (v[i].0@, v[i].1))
}

/// Model of commands ready to be written.
pub open spec fn written_view(v: Seq<WrittenCommand>) -> Seq<WrittenM> {
    Seq::new(v.len(), |i: int| (v[i].letter, v[i].is_move, params_view(v[i].params@)))
}

/// The numbers of a command as written: a space before each number after the first,
/// except before a negative one when no extra space is wanted.
pub open spec fn params_text(ps: Seq<(Seq<char>, bool)>, extra_space: bool) -> Seq<char>
    decreases ps.len(),
{
    if ps.len() == 0 {
        seq![]
    } else {
        params_text(ps.drop_last(), extra_space) + (if ps.len() > 1 && (extra_space || ps.last().1) {
            seq![' ']
        } else {
            seq![]
        }) + ps.last().0
    }
}

/// The text of commands and the last letter written: a letter is written when it
/// differs from the last one or starts a moveto (after a space, unless it closes the
/// path or nothing was written); a repeated letter is left out and a space written
/// instead (when something was written); then the numbers follow.
pub open spec fn write_state(cs: Seq<WrittenM>, extra_space: bool) -> (Seq<char>, char)
    decreases cs.len(),
{
    if cs.len() == 0 {
        (seq![], '\0')
    } else {
        let (r, last) = write_state(cs.drop_last(), extra_space);
        let c = cs.last();
        let head = if c.0 != last || c.1 {
            (if r.len() > 0 && c.0 != 'Z' && c.0 != 'z' {
                r.push(' ')
            } else {
                r
            }).push(c.0)
        } else if r.len() > 0 {
            r.push(' ')
        } else {
            r
        };
        (head + params_text(c.2, extra_space), c.0)
    }
}

/// Writes commands as path data.
pub fn write_path(cmds: &Vec<WrittenCommand>, extra_space: bool) -> (r: String)
    ensures
        r@ == write_state(written_view(cmds@), extra_space).0,
{
    let ghost cs = written_view(cmds@);
    let mut out: Vec<char> = Vec::new();
    let mut last: char = '\0';
    let n = cmds.len();
    let mut i: usize = 0;
    assert(cs.take(0) =~= Seq::<WrittenM>::empty());
    while i < n
        invariant
            n == cmds@.len(),
            cs == written_view(cmds@),
            0 <= i <= n,
            (out@, last) == write_state(cs.take(i as int), extra_space),
        decreases n - i,
    {
        assert(cs.take(i + 1).drop_last() =~= cs.take(i as int));
        let c = &cmds[i];
        assert(cs.take(i + 1).last() == cs[i as int]);
        if c.letter != last || c.is_move {
            if out.len() > 0 && c.letter != 'Z' && c.letter != 'z' {
                out.push(' ');
            }
            out.push(c.letter);
        } else if out.len() > 0 {
            out.push(' ');
        }
        last = c.letter;
        let ghost head = out@;
        let ghost ps = params_view(c.params@);
        let m = c.params.len();
        let mut j: usize = 0;
        assert(ps.take(0) =~= Seq::<(Seq<char>, bool)>::empty());
        assert(out@ =~= head + params_text(ps.take(0), extra_space));
        while j < m
            invariant
                m == c.params@.len(),
                ps == params_view(c.params@),
                0 <= j <= m,
                out@ == head + params_text(ps.take(j as int), extra_space),
            decreases m - j,
        {
            assert(ps.take(j + 1).drop_last() =~= ps.take(j as int));
            assert(ps.take(j + 1).last() == ps[j as int]);
            if j > 0 && (extra_space || c.params[j].1) {
                out.push(' ');
            }
            extend_chars(&mut out, &chars_of(c.params[j].0.as_str()));
            assert(out@ =~= head + params_text(ps.take(j + 1), extra_space));
            j += 1;
        }
        assert(ps.take(m as int) =~= ps);
        i += 1;
    }
    assert(cs.take(n as int) =~= cs);
    string_from(&out)
}

/// Reading back the letter of a command gives the command: the same kind, and the
/// same absoluteness except that closing the path always reads as absolute.
pub proof fn lemma_letter_round_trip(t: CommandType, is_absolute: bool)
    ensures
        command_of(letter_of(t, is_absolute)) == Some(
            (t, if t == CommandType::ClosePath { true } else { is_absolute }),
        ),
{
}

/// Writing the command a letter names gives the letter back, except that `Z` comes
/// back as `z`.
pub proof fn lemma_command_round_trip(ch: char)
    requires
        command_of(ch) is Some,
    ensures
        letter_of(command_of(ch).unwrap().0, command_of(ch).unwrap().1) == if ch == 'Z' {
            'z'
        } else {
            ch
        },
{
}

} // verus!
