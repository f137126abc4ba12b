//! The structure of a style sheet: its rules, and the declarations and nested
//! at-rules of a block.

use crate::gcpm::cursor::{
    after, block_end, cur, cursor_at, find_block_end, find_past_block, find_stop, find_text,
    lemma_closer_bounds, lemma_peek, lemma_settled, lemma_skip_blank, lemma_stop_at, pass,
    past_block, settle, settled, skip_blank, stop_at, Cur,
};
use crate::gcpm::grammar::{mark, same_word};
use crate::gcpm::token::{Bracket, CssToken, Lexeme, Mark, Tok, TokenKind, WordKind};
use crate::gcpm::values::read_mark;
use crate::model::{group_views, views};
use vstd::prelude::*;

verus! {

broadcast use group_views;

/// An item of a block: a declaration, with its value from `value` to `end`, or an
/// at-rule with a block, whose prelude lies between `prelude` and `open` and whose
/// content between `open + 1` and `close`.
pub enum BodyItem {
    Declaration { name: String, start: usize, value: usize, end: usize },
    AtRule { name: String, start: usize, prelude: usize, open: usize, close: usize },
}

/// The model of [`BodyItem`].
pub ghost enum BodyModel {
    Declaration { name: Seq<char>, start: int, value: int, end: int },
    AtRule { name: Seq<char>, start: int, prelude: int, open: int, close: int },
}

impl View for BodyItem {
    type V = BodyModel;

    open spec fn view(&self) -> BodyModel {
        match self {
            BodyItem::Declaration { name, start, value, end } => BodyModel::Declaration {
                name: name@,
                start: *start as int,
                value: *value as int,
                end: *end as int,
            },
            BodyItem::AtRule { name, start, prelude, open, close } => BodyModel::AtRule {
                name: name@,
                start: *start as int,
                prelude: *prelude as int,
                open: *open as int,
                close: *close as int,
            },
        }
    }
}

/// A rule of a style sheet with its block.
pub enum SheetRule {
    AtRule { name: String, start: usize, prelude: usize, open: usize, close: usize },
    Qualified { prelude: usize, open: usize, close: usize },
}

/// The model of [`SheetRule`].
pub ghost enum RuleModel {
    AtRule { name: Seq<char>, start: int, prelude: int, open: int, close: int },
    Qualified { prelude: int, open: int, close: int },
}

impl View for SheetRule {
    type V = RuleModel;

    open spec fn view(&self) -> RuleModel {
        match self {
            SheetRule::AtRule { name, start, prelude, open, close } => RuleModel::AtRule {
                name: name@,
                start: *start as int,
                prelude: *prelude as int,
                open: *open as int,
                close: *close as int,
            },
            SheetRule::Qualified { prelude, open, close } => RuleModel::Qualified {
                prelude: *prelude as int,
                open: *open as int,
                close: *close as int,
            },
        }
    }
}

/// Whether the indices of an item lie within a list of `n` tokens.
pub open spec fn item_fits(item: BodyModel, n: int) -> bool {
    match item {
        BodyModel::Declaration { start, value, end, .. } => 0 <= start < value <= n && 0 <= end
            <= n,
        BodyModel::AtRule { start, prelude, open, close, .. } => 0 <= start < prelude <= open
            < close <= n,
    }
}

/// Whether the indices of a rule lie within a list of `n` tokens.
pub open spec fn rule_fits(rule: RuleModel, n: int) -> bool {
    match rule {
        RuleModel::AtRule { start, prelude, open, close, .. } => 0 <= start < prelude <= open
            < close <= n,
        RuleModel::Qualified { prelude, open, close } => 0 <= prelude <= open < close <= n,
    }
}

/// The items of a block from `i` to `end`, after those found before. An at-rule ends
/// with its block or a semicolon; a declaration, and whatever is neither, with a
/// semicolon. What is no declaration is passed over, and so is an at-rule without a
/// block.
pub open spec fn body_items(toks: Seq<Tok>, i: int, end: int, items: Seq<BodyModel>) -> Seq<
    BodyModel,
>
    decreases toks.len() - i,
{
    if i < 0 || i > toks.len() || end > toks.len() {
        items
    } else {
        let p = skip_blank(toks, i, end);
        proof {
            lemma_skip_blank(toks, i, end);
        }
        if p >= end {
            items
        } else {
            match toks[p].kind {
                Lexeme::Mark(Mark::Semicolon) => body_items(toks, p + 1, end, items),
                Lexeme::Close(Bracket::Curly) => body_items(toks, p + 1, end, items),
                Lexeme::Word(WordKind::AtKeyword, name) => {
                    let q = stop_at(toks, p + 1, end, true, true);
                    proof {
                        lemma_stop_at(toks, p + 1, end, true, true);
                        if q < end {
                            lemma_closer_bounds(toks, q + 1, seq![Bracket::Curly]);
                        }
                    }
                    if q >= end {
                        items
                    } else if toks[q].kind == Lexeme::Mark(Mark::Semicolon) {
                        body_items(toks, q + 1, end, items)
                    } else {
                        body_items(
                            toks,
                            past_block(toks, q + 1, Bracket::Curly),
                            end,
                            items.push(
                                BodyModel::AtRule {
                                    name,
                                    start: p,
                                    prelude: p + 1,
                                    open: q,
                                    close: block_end(toks, q + 1, Bracket::Curly),
                                },
                            ),
                        )
                    }
                },
                Lexeme::Word(WordKind::Ident, name) => {
                    let d = stop_at(toks, p + 1, end, true, false);
                    proof {
                        lemma_stop_at(toks, p + 1, end, true, false);
                    }
                    let found = match mark(toks, d, cur(p + 1), Mark::Colon) {
                        Some(c) => items.push(
                            BodyModel::Declaration { name, start: p, value: c.pos, end: d },
                        ),
                        None => items,
                    };
                    if d >= end {
                        found
                    } else {
                        body_items(toks, d + 1, end, found)
                    }
                },
                _ => {
                    let d = stop_at(toks, settled(toks, after(toks, p)), end, true, false);
                    proof {
                        lemma_settled(toks, after(toks, p));
                        lemma_stop_at(toks, settled(toks, after(toks, p)), end, true, false);
                    }
                    if d >= end {
                        items
                    } else {
                        body_items(toks, d + 1, end, items)
                    }
                },
            }
        }
    }
}

/// White space, comments and the two marks of an HTML comment.
pub open spec fn between_rules(k: Lexeme) -> bool {
    k == Lexeme::Mark(Mark::Space) || k == Lexeme::Mark(Mark::Comment) || k == Lexeme::Mark(
        Mark::HtmlOpen,
    ) || k == Lexeme::Mark(Mark::HtmlClose)
}

/// The first index from `i` on that can start a rule.
pub open spec fn skip_between(toks: Seq<Tok>, i: int) -> int
    decreases toks.len() - i,
{
    if i < toks.len() && between_rules(toks[i].kind) {
        skip_between(toks, i + 1)
    } else {
        i
    }
}

pub proof fn lemma_skip_between(toks: Seq<Tok>, i: int)
    ensures
        i <= skip_between(toks, i),
        i <= toks.len() ==> skip_between(toks, i) <= toks.len(),
    decreases toks.len() - i,
{
    if i < toks.len() && between_rules(toks[i].kind) {
        lemma_skip_between(toks, i + 1);
    }
}

/// Whether a name starts with two hyphens.
pub open spec fn dashed(s: Seq<char>) -> bool {
    s.len() >= 2 && s[0] == '-' && s[1] == '-'
}

/// Where a custom property is written in place of a rule at `p`: the cursor after
/// its colon.
pub open spec fn custom_property(toks: Seq<Tok>, p: int) -> Option<Cur> {
    match toks[p].kind {
        Lexeme::Word(WordKind::Ident, s) => if dashed(s) {
            mark(toks, toks.len() as int, cur(p + 1), Mark::Colon)
        } else {
            None
        },
        _ => None,
    }
}

/// The rules of a style sheet from `i` on, after those found before. An at-rule ends
/// with its block or a semicolon, any other rule with its block. An at-rule without
/// a block, a `@charset` that comes first and a custom property are passed over.
pub open spec fn sheet_rules(toks: Seq<Tok>, i: int, first: bool, rules: Seq<RuleModel>) -> Seq<
    RuleModel,
>
    decreases toks.len() - i,
{
    let n = toks.len() as int;
    if i < 0 || i > n {
        rules
    } else {
        let p = skip_between(toks, i);
        proof {
            lemma_skip_between(toks, i);
        }
        if p >= n {
            rules
        } else {
            match toks[p].kind {
                Lexeme::Word(WordKind::AtKeyword, name) => {
                    let q = stop_at(toks, p + 1, n, true, true);
                    proof {
                        lemma_stop_at(toks, p + 1, n, true, true);
                        if q < n {
                            lemma_closer_bounds(toks, q + 1, seq![Bracket::Curly]);
                        }
                    }
                    if q >= n {
                        rules
                    } else if toks[q].kind == Lexeme::Mark(Mark::Semicolon) {
                        sheet_rules(toks, q + 1, false, rules)
                    } else {
                        sheet_rules(
                            toks,
                            past_block(toks, q + 1, Bracket::Curly),
                            false,
                            if first && same_word(name, "charset"@) {
                                rules
                            } else {
                                rules.push(
                                    RuleModel::AtRule {
                                        name,
                                        start: p,
                                        prelude: p + 1,
                                        open: q,
                                        close: block_end(toks, q + 1, Bracket::Curly),
                                    },
                                )
                            },
                        )
                    }
                },
                _ => {
                    let skipped = custom_property(toks, p);
                    let from = match skipped {
                        Some(c) => c.pos,
                        None => p,
                    };
                    let q = stop_at(toks, from, n, false, true);
                    proof {
                        lemma_peek(toks, n, cur(p + 1));
                        lemma_stop_at(toks, from, n, false, true);
                        if q < n {
                            lemma_closer_bounds(toks, q + 1, seq![Bracket::Curly]);
                        }
                    }
                    if q >= n {
                        rules
                    } else {
                        sheet_rules(
                            toks,
                            past_block(toks, q + 1, Bracket::Curly),
                            false,
                            if skipped is Some {
                                rules
                            } else {
                                rules.push(
                                    RuleModel::Qualified {
                                        prelude: p,
                                        open: q,
                                        close: block_end(toks, q + 1, Bracket::Curly),
                                    },
                                )
                            },
                        )
                    }
                },
            }
        }
    }
}

/// Whether a token is a semicolon.
fn is_semicolon(kind: &TokenKind) -> (r: bool)
    ensures
        r == (kind@ == Lexeme::Mark(Mark::Semicolon)),
{
    match kind {
        TokenKind::Mark(Mark::Semicolon) => true,
        _ => false,
    }
}

/// The items of a block.
pub fn find_body_items(toks: &Vec<CssToken>, start: usize, end: usize) -> (items: Vec<BodyItem>)
    requires
        start <= toks.len(),
        end <= toks.len(),
    ensures
        views(items@) == body_items(views(toks@), start as int, end as int, Seq::empty()),
        forall|k: int| 0 <= k < items@.len() ==> item_fits((#[trigger] items@[k])@, toks.len() as int),
{
    let ghost vs = views(toks@);
    let ghost whole = body_items(vs, start as int, end as int, Seq::empty());
    let mut items: Vec<BodyItem> = Vec::new();
    let mut i: usize = start;
    loop
        invariant_except_break
            body_items(vs, i as int, end as int, views(items@)) == whole,
        invariant
            vs == views(toks@),
            i <= toks.len(),
            end <= toks.len(),
            forall|k: int|
                0 <= k < items@.len() ==> item_fits((#[trigger] items@[k])@, toks.len() as int),
        ensures
            views(items@) == whole,
        decreases toks.len() - i,
    {
        let p = find_text(toks, i, end);
        if p >= end {
            break;
        }
        assert(vs[p as int].kind == toks@[p as int].kind@);
        match &toks[p].kind {
            TokenKind::Mark(Mark::Semicolon) => {
                i = p + 1;
            },
            TokenKind::Close(Bracket::Curly) => {
                i = p + 1;
            },
            TokenKind::Word(WordKind::AtKeyword, name) => {
                let q = find_stop(toks, p + 1, end, true, true);
                if q >= end {
                    break;
                }
                assert(vs[q as int].kind == toks@[q as int].kind@);
                if is_semicolon(&toks[q].kind) {
                    i = q + 1;
                } else {
                    let close = find_block_end(toks, q + 1, Bracket::Curly);
                    items.push(
                        BodyItem::AtRule {
                            name: name.clone(),
                            start: p,
                            prelude: p + 1,
                            open: q,
                            close,
                        },
                    );
                    i = find_past_block(toks, q + 1, Bracket::Curly);
                }
            },
            TokenKind::Word(WordKind::Ident, name) => {
                let d = find_stop(toks, p + 1, end, true, false);
                match read_mark(toks, d, cursor_at(p + 1), Mark::Colon) {
                    Some(c) => {
                        items.push(
                            BodyItem::Declaration {
                                name: name.clone(),
                                start: p,
                                value: c.pos,
                                end: d,
                            },
                        );
                    },
                    None => {},
                }
                if d >= end {
                    break;
                }
                i = d + 1;
            },
            _ => {
                let from = settle(toks, pass(toks, p));
                let d = find_stop(toks, from, end, true, false);
                proof {
                    lemma_stop_at(vs, from as int, end as int, true, false);
                }
                if d >= end {
                    break;
                }
                i = d + 1;
            },
        }
    }
    items
}

/// Whether a token can stand between rules.
fn is_between(kind: &TokenKind) -> (r: bool)
    ensures
        r == between_rules(kind@),
{
    match kind {
        TokenKind::Mark(Mark::Space) => true,
        TokenKind::Mark(Mark::Comment) => true,
        TokenKind::Mark(Mark::HtmlOpen) => true,
        TokenKind::Mark(Mark::HtmlClose) => true,
        _ => false,
    }
}

/// Whether a name starts with two hyphens.
fn is_dashed(s: &str) -> (r: bool)
    ensures
        r == dashed(s@),
{
    s.unicode_len() >= 2 && s.get_char(0) == '-' && s.get_char(1) == '-'
}

/// The first index that can start a rule.
fn find_rule(toks: &Vec<CssToken>, i: usize) -> (r: usize)
    requires
        i <= toks.len(),
    ensures
        r == skip_between(views(toks@), i as int),
        i <= r <= toks.len(),
{
    let ghost vs = views(toks@);
    let mut at: usize = i;
    while at < toks.len() && is_between(&toks[at].kind)
        invariant
            vs == views(toks@),
            i <= at <= toks.len(),
            skip_between(vs, at as int) == skip_between(vs, i as int),
        decreases toks.len() - at,
    {
        at += 1;
    }
    at
}

/// The rules of a style sheet.
pub fn find_rules(toks: &Vec<CssToken>) -> (rules: Vec<SheetRule>)
    ensures
        views(rules@) == sheet_rules(views(toks@), 0, true, Seq::empty()),
        forall|k: int| 0 <= k < rules@.len() ==> rule_fits((#[trigger] rules@[k])@, toks.len() as int),
{
    let ghost vs = views(toks@);
    let ghost whole = sheet_rules(vs, 0, true, Seq::empty());
    let n = toks.len();
    let mut rules: Vec<SheetRule> = Vec::new();
    let mut first = true;
    let mut i: usize = 0;
    loop
        invariant_except_break
            sheet_rules(vs, i as int, first, views(rules@)) == whole,
        invariant
            vs == views(toks@),
            n == toks.len(),
            i <= n,
            forall|k: int|
                0 <= k < rules@.len() ==> rule_fits((#[trigger] rules@[k])@, n as int),
        ensures
            views(rules@) == whole,
        decreases n - i,
    {
        let p = find_rule(toks, i);
        if p >= n {
            break;
        }
        assert(vs[p as int].kind == toks@[p as int].kind@);
        match &toks[p].kind {
            TokenKind::Word(WordKind::AtKeyword, name) => {
                let q = find_stop(toks, p + 1, n, true, true);
                if q >= n {
                    break;
                }
                assert(vs[q as int].kind == toks@[q as int].kind@);
                if is_semicolon(&toks[q].kind) {
                    i = q + 1;
                } else {
                    let close = find_block_end(toks, q + 1, Bracket::Curly);
                    if !(first && name.as_str().eq_ignore_ascii_case("charset")) {
                        rules.push(
                            SheetRule::AtRule {
                                name: name.clone(),
                                start: p,
                                prelude: p + 1,
                                open: q,
                                close,
                            },
                        );
                    }
                    i = find_past_block(toks, q + 1, Bracket::Curly);
                }
            },
            kind => {
                let skipped = match kind {
                    TokenKind::Word(WordKind::Ident, s) => if is_dashed(s.as_str()) {
                        read_mark(toks, n, cursor_at(p + 1), Mark::Colon)
                    } else {
                        None
                    },
                    _ => None,
                };
                let from = match skipped {
                    Some(c) => c.pos,
                    None => p,
                };
                let q = find_stop(toks, from, n, false, true);
                if q >= n {
                    break;
                }
                let close = find_block_end(toks, q + 1, Bracket::Curly);
                if skipped.is_none() {
                    rules.push(SheetRule::Qualified { prelude: p, open: q, close });
                }
                i = find_past_block(toks, q + 1, Bracket::Curly);
            },
        }
        first = false;
    }
    rules
}

} // verus!
