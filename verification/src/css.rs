//! Style sheets as lightningcss reads them, seen as a list of their rules.
use vstd::prelude::*;
use lightningcss::printer::PrinterOptions;
use lightningcss::rules::CssRule;
use lightningcss::stylesheet::{MinifyOptions, ParserOptions, StyleSheet};
use lightningcss::traits::ToCss;

verus! {

/// A rule at the top level of a style sheet, as lightningcss reads it.
pub enum SheetRule {
    /// A style rule: its selectors and its declarations as printed (`None` where
    /// printing failed).
    Style(Option<String>, Option<String>),
    /// An `@media` rule: the rules it holds, printed as a style sheet (`None` where
    /// printing failed).
    Media(Option<String>),
    /// Any other rule.
    Other,
}

/// Model of a top-level rule.
pub enum SheetRuleM {
    Style(Option<Seq<char>>, Option<Seq<char>>),
    Media(Option<Seq<char>>),
    Other,
}

/// Model of an optional text.
pub open spec fn opt_view(o: Option<String>) -> Option<Seq<char>> {
    match o {
        Some(x) => Some(x@),
        None => None,
    }
}

/// Model of a top-level rule.
pub open spec fn sheet_rule_model(r: SheetRule) -> SheetRuleM {
    match r {
        SheetRule::Style(s, d) => SheetRuleM::Style(opt_view(s), opt_view(d)),
        SheetRule::Media(t) => SheetRuleM::Media(opt_view(t)),
        SheetRule::Other => SheetRuleM::Other,
    }
}

/// Model of the top-level rules of a sheet, when it could be read.
pub open spec fn sheet_rules_model(r: Option<Vec<SheetRule>>) -> Option<Seq<SheetRuleM>> {
    match r {
        Some(v) => Some(v@.map_values(|t: SheetRule| sheet_rule_model(t))),
        None => None,
    }
}

/// The top-level rules lightningcss reads from a style sheet, or `None` when it
/// refuses the sheet.
pub uninterp spec fn css_sheet_rules(css: Seq<char>) -> Option<Seq<SheetRuleM>>;

/// Reads a style sheet with `lightningcss::stylesheet::StyleSheet::parse` (default
/// options) and turns each of its top-level rules into a `SheetRule`: a style rule's
/// selectors and declarations, and an `@media` rule's list of rules, each printed by
/// `ToCss::to_css_string` (default printer options, `None` on a printing error). The
/// contract claims only that the outcome is a function of the sheet's text, named
/// `css_sheet_rules`.
#[verifier::external_body]
pub(crate) fn sheet_rules_of(css: &str) -> (r: Option<Vec<SheetRule>>)
    ensures
        sheet_rules_model(r) == css_sheet_rules(css@),
{
    let sheet = StyleSheet::parse(css, ParserOptions::default()).ok()?;
    Some(sheet.rules.0.iter().map(|rule| match rule {
        CssRule::Style(s) => SheetRule::Style(s.selectors.to_css_string(PrinterOptions::default()).ok(), s.declarations.to_css_string(PrinterOptions::default()).ok()),
        CssRule::Media(m) => SheetRule::Media(m.rules.to_css_string(PrinterOptions::default()).ok()),
        _ => SheetRule::Other,
    }).collect())
}

/// A rule of a style sheet with the rules of its `@media` rules in their place.
pub enum CssToken {
    /// A style rule: its selectors, its declarations (`None` when they could not be
    /// printed), and whether it sits inside an `@media` rule.
    Style(String, Option<String>, bool),
    /// Any other rule.
    Other,
}

/// Model of a rule of a style sheet.
pub enum CssTokenM {
    Style(Seq<char>, Option<Seq<char>>, bool),
    Other,
}

/// Model of a rule.
pub open spec fn token_model(t: CssToken) -> CssTokenM {
    match t {
        CssToken::Style(s, d, m) => CssTokenM::Style(s@, opt_view(d), m),
        CssToken::Other => CssTokenM::Other,
    }
}

/// Model of a list of rules.
pub open spec fn tokens_view(v: Seq<CssToken>) -> Seq<CssTokenM> {
    v.map_values(|t: CssToken| token_model(t))
}

/// Model of the rules of a sheet, when it could be read.
pub open spec fn tokens_model(r: Option<Vec<CssToken>>) -> Option<Seq<CssTokenM>> {
    match r {
        Some(v) => Some(tokens_view(v@)),
        None => None,
    }
}

/// The rules that top-level rules stand for, `nested` saying whether they sit inside
/// an `@media` rule. A style rule whose selectors could not be printed counts as an
/// other rule; an `@media` rule stands for the rules of its printed list, read again,
/// down to `depth` levels (none where its list could not be printed or read).
pub open spec fn flat_rules(rs: Seq<SheetRuleM>, nested: bool, depth: nat) -> Seq<CssTokenM>
    decreases depth, rs.len(),
{
    if rs.len() == 0 {
        seq![]
    } else {
        flat_rules(rs.drop_last(), nested, depth) + flat_rule(rs.last(), nested, depth)
    }
}

/// The rules that one top-level rule stands for.
pub open spec fn flat_rule(r: SheetRuleM, nested: bool, depth: nat) -> Seq<CssTokenM>
    decreases depth, 0nat,
{
    match r {
        SheetRuleM::Style(Some(sel), decls) => seq![CssTokenM::Style(sel, decls, nested)],
        SheetRuleM::Style(None, _) => seq![CssTokenM::Other],
        SheetRuleM::Media(Some(inner)) => if depth == 0 {
            seq![]
        } else {
            match css_sheet_rules(inner) {
                Some(rs) => flat_rules(rs, true, (depth - 1) as nat),
                None => seq![],
            }
        },
        SheetRuleM::Media(None) => seq![],
        SheetRuleM::Other => seq![CssTokenM::Other],
    }
}

/// The rules of a style sheet, the rules of each `@media` rule in its place, or `None`
/// when lightningcss refuses the sheet. `@media` rules are followed down as many
/// levels as the sheet has characters, which no sheet's nesting reaches.
pub open spec fn css_rule_tokens(css: Seq<char>) -> Option<Seq<CssTokenM>> {
    match css_sheet_rules(css) {
        Some(rs) => Some(flat_rules(rs, false, css.len())),
        None => None,
    }
}

/// Adds the rules that top-level rules stand for.
fn flatten_rules(rs: &Vec<SheetRule>, nested: bool, depth: usize, out: &mut Vec<CssToken>)
    ensures
        tokens_view(final(out)@) == tokens_view(old(out)@) + flat_rules(
            rs@.map_values(|t: SheetRule| sheet_rule_model(t)),
            nested,
            depth as nat,
        ),
    decreases depth,
{
    let ghost rm = rs@.map_values(|t: SheetRule| sheet_rule_model(t));
    let ghost base = tokens_view(out@);
    let n = rs.len();
    let mut i: usize = 0;
    assert(rm.take(0) =~= Seq::<SheetRuleM>::empty());
    assert(tokens_view(out@) =~= base + Seq::<CssTokenM>::empty());
    while i < n
        invariant
            n == rs@.len(),
            rm == rs@.map_values(|t: SheetRule| sheet_rule_model(t)),
            0 <= i <= n,
            tokens_view(out@) == base + flat_rules(rm.take(i as int), nested, depth as nat),
        decreases n - i,
    {
        assert(rm.take(i + 1).drop_last() =~= rm.take(i as int));
        assert(rm.take(i + 1).last() == sheet_rule_model(rs@[i as int]));
        let ghost before = tokens_view(out@);
        match &rs[i] {
            SheetRule::Style(Some(sel), decls) => {
                let d = match decls {
                    Some(x) => Some(x.clone()),
                    None => None,
                };
                out.push(CssToken::Style(sel.clone(), d, nested));
                assert(tokens_view(out@) =~= before + flat_rule(rm[i as int], nested, depth as nat));
            },
            SheetRule::Style(None, _) => {
                out.push(CssToken::Other);
                assert(tokens_view(out@) =~= before + flat_rule(rm[i as int], nested, depth as nat));
            },
            SheetRule::Media(Some(inner)) => {
                if depth > 0 {
                    match sheet_rules_of(inner.as_str()) {
                        Some(inner_rules) => {
                            flatten_rules(&inner_rules, true, depth - 1, out);
                        },
                        None => {
                            assert(before + flat_rule(rm[i as int], nested, depth as nat) =~= before);
                        },
                    }
                } else {
                    assert(before + flat_rule(rm[i as int], nested, depth as nat) =~= before);
                }
            },
            SheetRule::Media(None) => {
                assert(before + flat_rule(rm[i as int], nested, depth as nat) =~= before);
            },
            SheetRule::Other => {
                out.push(CssToken::Other);
                assert(tokens_view(out@) =~= before + flat_rule(rm[i as int], nested, depth as nat));
            },
        }
        i += 1;
    }
    assert(rm.take(n as int) =~= rm);
}

/// Reads the rules of a style sheet, the rules of each `@media` rule in its place; `None`
/// when lightningcss refuses the sheet.
pub fn stylesheet_tokens(css: &str) -> (r: Option<Vec<CssToken>>)
    ensures
        tokens_model(r) == css_rule_tokens(css@),
{
    match sheet_rules_of(css) {
        Some(rs) => {
            let depth = crate::text::chars_of(css).len();
            let mut out: Vec<CssToken> = Vec::new();
            assert(tokens_view(out@) =~= seq![]);
            flatten_rules(&rs, false, depth, &mut out);
            assert(tokens_view(out@) =~= flat_rules(
                rs@.map_values(|t: SheetRule| sheet_rule_model(t)),
                false,
                css@.len(),
            ));
            Some(out)
        },
        None => None,
    }
}

/// What lightningcss makes of a style sheet when it minifies it, or `None` when it
/// refuses it.
pub uninterp spec fn css_minified(css: Seq<char>) -> Option<Seq<char>>;

/// Reads a style sheet with `StyleSheet::parse` (default options), minifies it with
/// `StyleSheet::minify` (default targets) and prints it with `StyleSheet::to_css`
/// (default printer options). Trusted: `None` when any of the three fails, otherwise
/// the printed text; the outcome is a function of the sheet's text, named
/// `css_minified`.
#[verifier::external_body]
pub(crate) fn minify_stylesheet(css: &str) -> (r: Option<String>)
    ensures
        match r {
            Some(t) => css_minified(css@) == Some(t@),
            None => css_minified(css@) is None,
        },
{
    let mut sheet = StyleSheet::parse(css, ParserOptions::default()).ok()?;
    sheet.minify(MinifyOptions { targets: Default::default(), ..Default::default() }).ok()?;
    sheet.to_css(PrinterOptions::default()).ok().map(|r| r.code)
}

} // verus!
