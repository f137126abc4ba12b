//! Whole style sheets are understood as they are meant.

use crate::gcpm::bookmark::BookmarkModel;
use crate::gcpm::cursor::{after, blank, cur, peek, stop_at, Cur};
use crate::gcpm::grammar::same_word;
use crate::gcpm::page_rule_reading::{
    law_page_rules_are_read_as_meant, lemma_page_sayings_level, meant_by_page, sound_page_sayings,
    then_page_sayings, PageSaying,
};
use crate::gcpm::rule_reading::{
    asked_changes, law_declarations_are_read_as_meant, lemma_sayings_level, meant_by, said_in, sound_sayings, then_sayings, Saying,
};
use crate::gcpm::rules::{
    declare_all, gcpm_of, nothing_declared, page_prelude, edits_of, simple_selector, style_prelude, with_rules,
    EditModel,
};
use crate::gcpm::sheet::{
    between_rules, body_items, custom_property, dashed, sheet_rules, skip_between, RuleModel,
};
use crate::gcpm::spelling::{
    ahead, closed_by, even, lemma_block, lemma_calm, lemma_even_gap, lemma_even_token, lemma_gap_left,
    lemma_spells_both, lemma_spells_one, lemma_take, level, plain, proper, spells, then_ident, then_keyword,
    then_mark, then_token, Manner,
};
use crate::gcpm::token::{Bracket, Lexeme, Mark, Tok, WordKind};
use crate::gcpm::{
    ContentCounterModel, CounterMappingModel, GcpmModel, PageSettingsModel, PseudoElement, RunningModel,
    SelectorModel, StaticContentModel, StringSetModel,
};
use crate::text::lower;
use vstd::prelude::*;

verus! {

/// A rule of a style sheet.
pub ghost enum RuleText {
    /// A style rule: its selector, with a pseudo-element or without, and its block.
    Style(SelectorModel, Option<PseudoElement>, Seq<Saying>),
    /// A page rule: the name after the colon, if it has one, and its block.
    Page(Option<Seq<char>>, Seq<PageSaying>),
    /// Another rule after an at-sign: its name, what stands before its block, and its block.
    OtherAt(Seq<char>, Seq<Lexeme>, Seq<Lexeme>),
    /// A rule for more than a simple selector: the first one, the token behind it, what
    /// else stands before its block, and its block.
    OtherStyle(SelectorModel, Lexeme, Seq<Lexeme>, Seq<Lexeme>),
}

/// The keyword of a pseudo-element.
pub open spec fn pseudo_word(pseudo: PseudoElement) -> Seq<char> {
    match pseudo {
        PseudoElement::Before => "before"@,
        PseudoElement::After => "after"@,
    }
}

/// A pseudo-element where there is one.
pub open spec fn pseudo_tokens(m: Manner, pseudo: Option<PseudoElement>) -> Seq<Lexeme> {
    match pseudo {
        Some(p) => then_mark(m, Mark::Colon, then_mark(m, Mark::Colon, then_keyword(m, pseudo_word(p), m.gap))),
        None => m.gap,
    }
}

/// A selector and a pseudo-element.
pub open spec fn selector_tokens(m: Manner, selector: SelectorModel, pseudo: Option<PseudoElement>) -> Seq<Lexeme> {
    match selector {
        SelectorModel::Class(s) => then_mark(m, Mark::Delim('.'), then_ident(m, s, pseudo_tokens(m, pseudo))),
        SelectorModel::Id(s) => then_token(m, Lexeme::Word(WordKind::IdHash, s), pseudo_tokens(m, pseudo)),
        SelectorModel::Tag(s) => then_ident(m, s, pseudo_tokens(m, pseudo)),
    }
}

/// The name of a page after its colon, where there is one.
pub open spec fn page_tokens(m: Manner, name: Option<Seq<char>>) -> Seq<Lexeme> {
    match name {
        Some(s) => then_mark(m, Mark::Colon, then_ident(m, s, m.gap)),
        None => m.gap,
    }
}

/// A block in braces after what stands before it.
pub open spec fn with_block(lead: Seq<Lexeme>, block: Seq<Lexeme>, rest: Seq<Lexeme>) -> Seq<Lexeme> {
    lead + (seq![Lexeme::Open(Bracket::Curly)] + closed_by(block, Bracket::Curly, rest))
}

/// A simple selector by itself.
pub open spec fn then_simple(m: Manner, selector: SelectorModel, rest: Seq<Lexeme>) -> Seq<Lexeme> {
    match selector {
        SelectorModel::Class(s) => then_mark(m, Mark::Delim('.'), then_ident(m, s, rest)),
        SelectorModel::Id(s) => then_token(m, Lexeme::Word(WordKind::IdHash, s), rest),
        SelectorModel::Tag(s) => then_ident(m, s, rest),
    }
}

/// A rule.
pub open spec fn then_rule(m: Manner, rule: RuleText, rest: Seq<Lexeme>) -> Seq<Lexeme> {
    match rule {
        RuleText::Style(selector, pseudo, sayings) => with_block(
            selector_tokens(m, selector, pseudo),
            then_sayings(m, sayings, m.gap),
            rest,
        ),
        RuleText::Page(name, sayings) => then_token(
            m,
            Lexeme::Word(WordKind::AtKeyword, (m.case)("page"@)),
            with_block(page_tokens(m, name), then_page_sayings(m, sayings, m.gap), rest),
        ),
        RuleText::OtherAt(name, lead, block) => then_token(
            m,
            Lexeme::Word(WordKind::AtKeyword, name),
            with_block(lead, block, rest),
        ),
        RuleText::OtherStyle(selector, k, lead, block) => with_block(
            then_simple(m, selector, then_token(m, k, lead)),
            block,
            rest,
        ),
    }
}

/// Rules, one after the other.
pub open spec fn then_rules(m: Manner, rules: Seq<RuleText>, rest: Seq<Lexeme>) -> Seq<Lexeme>
    decreases rules.len(),
{
    if rules.len() == 0 {
        rest
    } else {
        then_rule(m, rules[0], then_rules(m, rules.drop_first(), rest))
    }
}

/// What can be written: no tag name looks like a custom property, other rules are other
/// ones, and their blocks are closed.
pub open spec fn sound_rule(rule: RuleText) -> bool {
    match rule {
        RuleText::Style(selector, _, sayings) => {
            &&& sound_sayings(sayings)
            &&& selector matches SelectorModel::Tag(s) ==> !dashed(s)
        },
        RuleText::Page(_, sayings) => sound_page_sayings(sayings),
        RuleText::OtherAt(name, lead, block) => {
            &&& !same_word(name, "page"@) && !same_word(name, "charset"@)
            &&& even(lead) && level(block)
        },
        RuleText::OtherStyle(selector, k, lead, block) => {
            &&& plain(k) && !blank(k) && k != Lexeme::Mark(Mark::Colon)
            &&& even(lead) && level(block)
            &&& selector matches SelectorModel::Tag(s) ==> !dashed(s)
        },
    }
}

/// All of it.
pub open spec fn sound_rules(rules: Seq<RuleText>) -> bool {
    forall|i: int| 0 <= i < rules.len() ==> sound_rule(#[trigger] rules[i])
}

/// What the first `k` rules of a style sheet say. A style rule adds one mapping of its
/// selector for each thing that it says; generated content counts on pseudo-elements and
/// bookmarks on elements. A page rule adds its margin boxes, and its settings where it
/// has any. Other rules say nothing.
pub open spec fn meant_sheet(rules: Seq<RuleText>, k: int) -> GcpmModel
    decreases k,
{
    if k <= 0 || k > rules.len() {
        GcpmModel {
            margin_boxes: Seq::empty(),
            running_mappings: Seq::empty(),
            string_set_mappings: Seq::empty(),
            page_settings: Seq::empty(),
            counter_mappings: Seq::empty(),
            content_counter_mappings: Seq::empty(),
            static_content_mappings: Seq::empty(),
            bookmark_mappings: Seq::empty(),
            cleaned_css: Seq::empty(),
        }
    } else {
        let g = meant_sheet(rules, k - 1);
        match rules[k - 1] {
            RuleText::Style(selector, pseudo, sayings) => {
                let d = meant_by(sayings, sayings.len() as int, pseudo is Some);
                GcpmModel {
                    running_mappings: if d.running is Some {
                        g.running_mappings.push(RunningModel { parsed: selector, running_name: d.running->0 })
                    } else {
                        g.running_mappings
                    },
                    string_set_mappings: match d.string_set {
                        Some((name, values)) => g.string_set_mappings.push(
                            StringSetModel { parsed: selector, name, values },
                        ),
                        None => g.string_set_mappings,
                    },
                    counter_mappings: if d.ops.len() > 0 {
                        g.counter_mappings.push(CounterMappingModel { parsed: selector, ops: d.ops })
                    } else {
                        g.counter_mappings
                    },
                    content_counter_mappings: if pseudo is Some && d.content is Some {
                        g.content_counter_mappings.push(
                            ContentCounterModel { parsed: selector, pseudo: pseudo->0, content: d.content->0 },
                        )
                    } else {
                        g.content_counter_mappings
                    },
                    static_content_mappings: if pseudo is Some && d.text is Some {
                        g.static_content_mappings.push(
                            StaticContentModel { parsed: selector, pseudo: pseudo->0, text: d.text->0 },
                        )
                    } else {
                        g.static_content_mappings
                    },
                    bookmark_mappings: if pseudo is None && (d.level is Some || d.label is Some) {
                        g.bookmark_mappings.push(BookmarkModel { selector, level: d.level, label: d.label })
                    } else {
                        g.bookmark_mappings
                    },
                    ..g
                }
            },
            RuleText::Page(name, sayings) => {
                let page_selector = match name {
                    Some(s) => Some(seq![':'] + s),
                    None => None,
                };
                let d = meant_by_page(sayings, sayings.len() as int, page_selector);
                let set = d.size is Some || d.margin.top is Some || d.margin.right is Some || d.margin.bottom is Some
                    || d.margin.left is Some;
                GcpmModel {
                    margin_boxes: g.margin_boxes + d.boxes,
                    page_settings: if set {
                        g.page_settings.push(PageSettingsModel { page_selector, size: d.size, margin: d.margin })
                    } else {
                        g.page_settings
                    },
                    ..g
                }
            },
            _ => g,
        }
    }
}

proof fn lemma_pseudo_even(m: Manner, pseudo: Option<PseudoElement>)
    requires
        proper(m),
    ensures
        even(pseudo_tokens(m, pseudo)),
{
    lemma_even_gap(m);
    match pseudo {
        Some(p) => {
            let w = pseudo_word(p);
            let colon = Lexeme::Mark(Mark::Colon);
            lemma_even_token(m, Lexeme::Word(WordKind::Ident, (m.case)(w)), m.gap);
            lemma_even_token(m, colon, then_keyword(m, w, m.gap));
            lemma_even_token(m, colon, then_mark(m, Mark::Colon, then_keyword(m, w, m.gap)));
        },
        None => {},
    }
}

proof fn lemma_selector_even(m: Manner, selector: SelectorModel, pseudo: Option<PseudoElement>)
    requires
        proper(m),
    ensures
        even(selector_tokens(m, selector, pseudo)),
{
    lemma_pseudo_even(m, pseudo);
    let p = pseudo_tokens(m, pseudo);
    match selector {
        SelectorModel::Class(s) => {
            lemma_even_token(m, Lexeme::Word(WordKind::Ident, s), p);
            lemma_even_token(m, Lexeme::Mark(Mark::Delim('.')), then_ident(m, s, p));
        },
        SelectorModel::Id(s) => lemma_even_token(m, Lexeme::Word(WordKind::IdHash, s), p),
        SelectorModel::Tag(s) => lemma_even_token(m, Lexeme::Word(WordKind::Ident, s), p),
    }
}

proof fn lemma_page_even(m: Manner, name: Option<Seq<char>>)
    requires
        proper(m),
    ensures
        even(page_tokens(m, name)),
{
    lemma_even_gap(m);
    match name {
        Some(s) => {
            lemma_even_token(m, Lexeme::Word(WordKind::Ident, s), m.gap);
            lemma_even_token(m, Lexeme::Mark(Mark::Colon), then_ident(m, s, m.gap));
        },
        None => {},
    }
}

/// Every selector picks what it is meant to pick: a class, an id or a tag, and one of its
/// pseudo-elements or the element itself.
pub proof fn law_selectors_are_read_as_meant(
    toks: Seq<Tok>,
    i: int,
    end: int,
    m: Manner,
    selector: SelectorModel,
    pseudo: Option<PseudoElement>,
)
    requires
        proper(m),
        ahead(toks, end, cur(i), selector_tokens(m, selector, pseudo)),
    ensures
        style_prelude(toks, i, end) == Some((selector, pseudo)),
        style_prelude(toks, i + m.gap.len(), end) == Some((selector, pseudo)),
{
    let p = pseudo_tokens(m, pseudo);
    let g = m.gap.len();
    let c1 = match selector {
        SelectorModel::Class(s) => {
            lemma_take(toks, end, cur(i), m, Lexeme::Mark(Mark::Delim('.')), then_ident(m, s, p));
            let c = after(toks, i + g);
            lemma_take(toks, end, c, m, Lexeme::Word(WordKind::Ident, s), p);
            after(toks, c.pos + g)
        },
        SelectorModel::Id(s) => {
            lemma_take(toks, end, cur(i), m, Lexeme::Word(WordKind::IdHash, s), p);
            after(toks, i + g)
        },
        SelectorModel::Tag(s) => {
            lemma_take(toks, end, cur(i), m, Lexeme::Word(WordKind::Ident, s), p);
            after(toks, i + g)
        },
    };
    assert(peek(toks, end, cur(i + g)) == i + g);
    assert(simple_selector(toks, end, cur(i)) == Some((selector, c1)));
    assert(simple_selector(toks, end, cur(i + g)) == Some((selector, c1)));
    match pseudo {
        None => lemma_gap_left(toks, end, c1, m),
        Some(e) => {
            let w = pseudo_word(e);
            let word = then_keyword(m, w, m.gap);
            lemma_take(toks, end, c1, m, Lexeme::Mark(Mark::Colon), then_mark(m, Mark::Colon, word));
            let c2 = after(toks, c1.pos + g);
            lemma_take(toks, end, c2, m, Lexeme::Mark(Mark::Colon), word);
            let c3 = after(toks, c2.pos + g);
            lemma_take(toks, end, c3, m, Lexeme::Word(WordKind::Ident, (m.case)(w)), m.gap);
            lemma_gap_left(toks, end, after(toks, c3.pos + g), m);
            assert(same_word((m.case)(w), w));
            reveal_strlit("before");
            reveal_strlit("after");
            assert(lower("before"@).len() != lower("after"@).len());
        },
    }
}

/// A page rule is for the pages that it names, or for all.
pub proof fn law_page_names_are_read_as_meant(
    toks: Seq<Tok>,
    i: int,
    end: int,
    m: Manner,
    name: Option<Seq<char>>,
)
    requires
        proper(m),
        ahead(toks, end, cur(i), page_tokens(m, name)),
    ensures
        page_prelude(toks, (m.case)("page"@), i, end) == Some(
            match name {
                Some(s) => Some(seq![':'] + s),
                None => None,
            },
        ),
{
    assert(same_word((m.case)("page"@), "page"@));
    match name {
        None => lemma_gap_left(toks, end, cur(i), m),
        Some(s) => {
            lemma_take(toks, end, cur(i), m, Lexeme::Mark(Mark::Colon), then_ident(m, s, m.gap));
            let c = after(toks, i + m.gap.len());
            lemma_take(toks, end, c, m, Lexeme::Word(WordKind::Ident, s), m.gap);
            lemma_gap_left(toks, end, after(toks, c.pos + m.gap.len()), m);
        },
    }
}

proof fn lemma_simple_read(
    toks: Seq<Tok>,
    i: int,
    end: int,
    m: Manner,
    selector: SelectorModel,
    rest: Seq<Lexeme>,
) -> (c: Cur)
    requires
        proper(m),
        ahead(toks, end, cur(i), then_simple(m, selector, rest)),
    ensures
        simple_selector(toks, end, cur(i)) == Some((selector, c)),
        simple_selector(toks, end, cur(i + m.gap.len())) == Some((selector, c)),
        ahead(toks, end, c, rest),
{
    let g = m.gap.len();
    match selector {
        SelectorModel::Class(s) => {
            lemma_take(toks, end, cur(i), m, Lexeme::Mark(Mark::Delim('.')), then_ident(m, s, rest));
            let c = after(toks, i + g);
            lemma_take(toks, end, c, m, Lexeme::Word(WordKind::Ident, s), rest);
            after(toks, c.pos + g)
        },
        SelectorModel::Id(s) => {
            lemma_take(toks, end, cur(i), m, Lexeme::Word(WordKind::IdHash, s), rest);
            after(toks, i + g)
        },
        SelectorModel::Tag(s) => {
            lemma_take(toks, end, cur(i), m, Lexeme::Word(WordKind::Ident, s), rest);
            after(toks, i + g)
        },
    }
}

/// A rule for more than a simple selector is passed over: one with a second selector or
/// another mark behind the first, and one with a pseudo-class.
pub proof fn law_other_selectors_are_passed_over(
    toks: Seq<Tok>,
    i: int,
    end: int,
    m: Manner,
    selector: SelectorModel,
    k: Lexeme,
    rest: Seq<Lexeme>,
)
    requires
        proper(m),
        plain(k) && !blank(k),
    ensures
        k != Lexeme::Mark(Mark::Colon) && ahead(toks, end, cur(i), then_simple(m, selector, then_token(m, k, rest)))
            ==> style_prelude(toks, i, end) is None && style_prelude(toks, i + m.gap.len(), end) is None,
        k != Lexeme::Mark(Mark::Colon) && ahead(
            toks,
            end,
            cur(i),
            then_simple(m, selector, then_mark(m, Mark::Colon, then_token(m, k, rest))),
        ) ==> style_prelude(toks, i, end) is None,
{
    if k != Lexeme::Mark(Mark::Colon) {
        if ahead(toks, end, cur(i), then_simple(m, selector, then_token(m, k, rest))) {
            let c = lemma_simple_read(toks, i, end, m, selector, then_token(m, k, rest));
            lemma_take(toks, end, c, m, k, rest);
        }
        let behind = then_mark(m, Mark::Colon, then_token(m, k, rest));
        if ahead(toks, end, cur(i), then_simple(m, selector, behind)) {
            let c = lemma_simple_read(toks, i, end, m, selector, behind);
            lemma_take(toks, end, c, m, Lexeme::Mark(Mark::Colon), then_token(m, k, rest));
            let c1 = after(toks, c.pos + m.gap.len());
            lemma_take(toks, end, c1, m, k, rest);
        }
    }
}

proof fn lemma_between_skipped(toks: Seq<Tok>, i: int, gap: Seq<Lexeme>)
    requires
        forall|j: int| 0 <= j < gap.len() ==> crate::gcpm::cursor::blank(#[trigger] gap[j]),
        spells(toks, i, gap),
        i + gap.len() < toks.len() ==> !between_rules(toks[i + gap.len()].kind),
    ensures
        skip_between(toks, i) == i + gap.len(),
    decreases gap.len(),
{
    if gap.len() > 0 {
        assert(gap =~= seq![gap[0]] + gap.drop_first());
        lemma_spells_one(toks, i, gap[0], gap.drop_first());
        assert forall|j: int| 0 <= j < gap.drop_first().len() implies crate::gcpm::cursor::blank(
            #[trigger] gap.drop_first()[j],
        ) by {
            assert(gap.drop_first()[j] == gap[j + 1]);
        }
        lemma_between_skipped(toks, i + 1, gap.drop_first());
    }
}

/// Whether a rule is found as it is written.
pub open spec fn found_rule(toks: Seq<Tok>, m: Manner, found: RuleModel, rule: RuleText) -> bool {
    match (found, rule) {
        (RuleModel::Qualified { prelude, open, close }, RuleText::Style(selector, pseudo, sayings)) => {
            &&& style_prelude(toks, prelude, open) == Some((selector, pseudo))
            &&& ahead(toks, close, cur(open + 1), then_sayings(m, sayings, m.gap))
        },
        (RuleModel::AtRule { name, start, prelude, open, close }, RuleText::Page(page, sayings)) => {
            &&& name == (m.case)("page"@)
            &&& prelude == start + 1
            &&& toks[start].kind == Lexeme::Word(WordKind::AtKeyword, name)
            &&& toks[close].kind == Lexeme::Close(Bracket::Curly)
            &&& ahead(toks, open, cur(prelude), page_tokens(m, page))
            &&& ahead(toks, close, cur(open + 1), then_page_sayings(m, sayings, m.gap))
        },
        (RuleModel::AtRule { name, start, .. }, RuleText::OtherAt(other, _, _)) => {
            &&& name == other
            &&& toks[start].kind == Lexeme::Word(WordKind::AtKeyword, name)
        },
        (RuleModel::Qualified { prelude, open, .. }, RuleText::OtherStyle(_, _, _, _)) => {
            style_prelude(toks, prelude, open) is None
        },
        _ => false,
    }
}

/// A style rule is found.
proof fn lemma_style_rule_found(
    toks: Seq<Tok>,
    i: int,
    first: bool,
    m: Manner,
    selector: SelectorModel,
    pseudo: Option<PseudoElement>,
    sayings: Seq<Saying>,
    more: Seq<Lexeme>,
    before: Seq<RuleModel>,
) -> (rule: RuleModel)
    requires
        proper(m),
        sound_rule(RuleText::Style(selector, pseudo, sayings)),
        ahead(toks, toks.len() as int, cur(i), then_rule(m, RuleText::Style(selector, pseudo, sayings), more)),
    ensures
        found_rule(toks, m, rule, RuleText::Style(selector, pseudo, sayings)),
        ahead(toks, toks.len() as int, cur(toks.len() - more.len()), more),
        sheet_rules(toks, i, first, before) == sheet_rules(toks, toks.len() - more.len(), false, before.push(rule)),
{
    let n = toks.len() as int;
    let lead = selector_tokens(m, selector, pseudo);
    let block = then_sayings(m, sayings, m.gap);
    let open = Lexeme::Open(Bracket::Curly);
    let tail = closed_by(block, Bracket::Curly, more);
    lemma_spells_both(toks, i, lead, seq![open] + tail);
    let q = i + lead.len();
    lemma_spells_one(toks, q, open, tail);
    assert(ahead(toks, q, cur(i), lead));
    law_selectors_are_read_as_meant(toks, i, q, m, selector, pseudo);
    let p = i + m.gap.len();
    let start = match selector {
        SelectorModel::Class(s) => Lexeme::Mark(Mark::Delim('.')),
        SelectorModel::Id(s) => Lexeme::Word(WordKind::IdHash, s),
        SelectorModel::Tag(s) => Lexeme::Word(WordKind::Ident, s),
    };
    let behind = match selector {
        SelectorModel::Class(s) => then_ident(m, s, pseudo_tokens(m, pseudo)),
        _ => pseudo_tokens(m, pseudo),
    };
    assert(lead == then_token(m, start, behind));
    lemma_take(toks, q, cur(i), m, start, behind);
    lemma_spells_both(toks, i, m.gap, seq![start] + behind);
    lemma_between_skipped(toks, i, m.gap);
    assert(custom_property(toks, p) is None);
    lemma_selector_even(m, selector, pseudo);
    lemma_calm(toks, i, n, lead, false, true);
    lemma_even_gap(m);
    lemma_calm(toks, i, n, m.gap, false, true);
    assert(stop_at(toks, q, n, false, true) == q);
    assert(stop_at(toks, p, n, false, true) == q);
    lemma_sayings_level(m, sayings, m.gap);
    lemma_block(toks, q + 1, block, Bracket::Curly, more);
    RuleModel::Qualified { prelude: p, open: q, close: q + 1 + block.len() }
}

/// A page rule is found.
proof fn lemma_page_rule_found(
    toks: Seq<Tok>,
    i: int,
    first: bool,
    m: Manner,
    page: Option<Seq<char>>,
    sayings: Seq<PageSaying>,
    more: Seq<Lexeme>,
    before: Seq<RuleModel>,
) -> (rule: RuleModel)
    requires
        proper(m),
        ahead(toks, toks.len() as int, cur(i), then_rule(m, RuleText::Page(page, sayings), more)),
    ensures
        found_rule(toks, m, rule, RuleText::Page(page, sayings)),
        ahead(toks, toks.len() as int, cur(toks.len() - more.len()), more),
        sheet_rules(toks, i, first, before) == sheet_rules(toks, toks.len() - more.len(), false, before.push(rule)),
{
    let n = toks.len() as int;
    let name = (m.case)("page"@);
    let at = Lexeme::Word(WordKind::AtKeyword, name);
    let lead = page_tokens(m, page);
    let block = then_page_sayings(m, sayings, m.gap);
    let open = Lexeme::Open(Bracket::Curly);
    let tail = closed_by(block, Bracket::Curly, more);
    lemma_take(toks, n, cur(i), m, at, with_block(lead, block, more));
    let p = i + m.gap.len();
    lemma_spells_both(toks, i, m.gap, seq![at] + with_block(lead, block, more));
    lemma_between_skipped(toks, i, m.gap);
    lemma_spells_both(toks, p + 1, lead, seq![open] + tail);
    let q = p + 1 + lead.len();
    lemma_spells_one(toks, q, open, tail);
    lemma_page_even(m, page);
    lemma_calm(toks, p + 1, n, lead, true, true);
    assert(stop_at(toks, q, n, true, true) == q);
    lemma_even_gap(m);
    lemma_page_sayings_level(m, sayings, m.gap);
    lemma_block(toks, q + 1, block, Bracket::Curly, more);
    assert(same_word(name, "page"@));
    reveal_strlit("page");
    reveal_strlit("charset");
    assert(lower("page"@).len() != lower("charset"@).len());
    RuleModel::AtRule { name, start: p, prelude: p + 1, open: q, close: q + 1 + block.len() }
}

/// Another rule after an at-sign is found.
proof fn lemma_other_at_found(
    toks: Seq<Tok>,
    i: int,
    first: bool,
    m: Manner,
    name: Seq<char>,
    lead: Seq<Lexeme>,
    block: Seq<Lexeme>,
    more: Seq<Lexeme>,
    before: Seq<RuleModel>,
) -> (rule: RuleModel)
    requires
        proper(m),
        sound_rule(RuleText::OtherAt(name, lead, block)),
        ahead(toks, toks.len() as int, cur(i), then_rule(m, RuleText::OtherAt(name, lead, block), more)),
    ensures
        found_rule(toks, m, rule, RuleText::OtherAt(name, lead, block)),
        ahead(toks, toks.len() as int, cur(toks.len() - more.len()), more),
        sheet_rules(toks, i, first, before) == sheet_rules(toks, toks.len() - more.len(), false, before.push(rule)),
{
    let n = toks.len() as int;
    let at = Lexeme::Word(WordKind::AtKeyword, name);
    let open = Lexeme::Open(Bracket::Curly);
    let tail = closed_by(block, Bracket::Curly, more);
    lemma_take(toks, n, cur(i), m, at, with_block(lead, block, more));
    let p = i + m.gap.len();
    lemma_spells_both(toks, i, m.gap, seq![at] + with_block(lead, block, more));
    lemma_between_skipped(toks, i, m.gap);
    lemma_spells_both(toks, p + 1, lead, seq![open] + tail);
    let q = p + 1 + lead.len();
    lemma_spells_one(toks, q, open, tail);
    lemma_calm(toks, p + 1, n, lead, true, true);
    assert(stop_at(toks, q, n, true, true) == q);
    lemma_block(toks, q + 1, block, Bracket::Curly, more);
    RuleModel::AtRule { name, start: p, prelude: p + 1, open: q, close: q + 1 + block.len() }
}

/// A rule for more than a simple selector is found.
proof fn lemma_other_style_found(
    toks: Seq<Tok>,
    i: int,
    first: bool,
    m: Manner,
    selector: SelectorModel,
    k: Lexeme,
    lead: Seq<Lexeme>,
    block: Seq<Lexeme>,
    more: Seq<Lexeme>,
    before: Seq<RuleModel>,
) -> (rule: RuleModel)
    requires
        proper(m),
        sound_rule(RuleText::OtherStyle(selector, k, lead, block)),
        ahead(toks, toks.len() as int, cur(i), then_rule(m, RuleText::OtherStyle(selector, k, lead, block), more)),
    ensures
        found_rule(toks, m, rule, RuleText::OtherStyle(selector, k, lead, block)),
        ahead(toks, toks.len() as int, cur(toks.len() - more.len()), more),
        sheet_rules(toks, i, first, before) == sheet_rules(toks, toks.len() - more.len(), false, before.push(rule)),
{
    let n = toks.len() as int;
    let rest = then_token(m, k, lead);
    let head = then_simple(m, selector, rest);
    let open = Lexeme::Open(Bracket::Curly);
    let tail = closed_by(block, Bracket::Curly, more);
    lemma_spells_both(toks, i, head, seq![open] + tail);
    let q = i + head.len();
    lemma_spells_one(toks, q, open, tail);
    assert(ahead(toks, q, cur(i), head));
    law_other_selectors_are_passed_over(toks, i, q, m, selector, k, lead);
    let p = i + m.gap.len();
    let start = match selector {
        SelectorModel::Class(s) => Lexeme::Mark(Mark::Delim('.')),
        SelectorModel::Id(s) => Lexeme::Word(WordKind::IdHash, s),
        SelectorModel::Tag(s) => Lexeme::Word(WordKind::Ident, s),
    };
    let behind = match selector {
        SelectorModel::Class(s) => then_ident(m, s, rest),
        _ => rest,
    };
    assert(head == then_token(m, start, behind));
    lemma_take(toks, q, cur(i), m, start, behind);
    lemma_spells_both(toks, i, m.gap, seq![start] + behind);
    lemma_between_skipped(toks, i, m.gap);
    assert(custom_property(toks, p) is None);
    lemma_even_token(m, k, lead);
    if let SelectorModel::Class(s) = selector {
        lemma_even_token(m, Lexeme::Word(WordKind::Ident, s), rest);
    }
    lemma_even_token(m, start, behind);
    lemma_calm(toks, i, n, head, false, true);
    lemma_even_gap(m);
    lemma_calm(toks, i, n, m.gap, false, true);
    assert(stop_at(toks, q, n, false, true) == q);
    assert(stop_at(toks, p, n, false, true) == q);
    lemma_block(toks, q + 1, block, Bracket::Curly, more);
    RuleModel::Qualified { prelude: p, open: q, close: q + 1 + block.len() }
}

/// All rules of a style sheet are found.
proof fn lemma_rules_found(
    toks: Seq<Tok>,
    i: int,
    first: bool,
    m: Manner,
    rules: Seq<RuleText>,
    before: Seq<RuleModel>,
)
    requires
        proper(m),
        sound_rules(rules),
        ahead(toks, toks.len() as int, cur(i), then_rules(m, rules, m.gap)),
    ensures
        ({
            let all = sheet_rules(toks, i, first, before);
            &&& all.len() == before.len() + rules.len()
            &&& forall|k: int| 0 <= k < before.len() ==> all[k] == #[trigger] before[k]
            &&& forall|k: int| 0 <= k < rules.len() ==> found_rule(toks, m, all[before.len() + k], #[trigger] rules[k])
        }),
    decreases rules.len(),
{
    if rules.len() == 0 {
        lemma_between_skipped(toks, i, m.gap);
    } else {
        let others = rules.drop_first();
        let more = then_rules(m, others, m.gap);
        assert(sound_rule(rules[0]));
        assert forall|j: int| 0 <= j < others.len() implies sound_rule(#[trigger] others[j]) by {
            assert(others[j] == rules[j + 1]);
        }
        let one = match rules[0] {
            RuleText::Style(selector, pseudo, sayings) => lemma_style_rule_found(
                toks,
                i,
                first,
                m,
                selector,
                pseudo,
                sayings,
                more,
                before,
            ),
            RuleText::Page(page, sayings) => lemma_page_rule_found(toks, i, first, m, page, sayings, more, before),
            RuleText::OtherAt(name, lead, block) => lemma_other_at_found(
                toks,
                i,
                first,
                m,
                name,
                lead,
                block,
                more,
                before,
            ),
            RuleText::OtherStyle(selector, k, lead, block) => lemma_other_style_found(
                toks,
                i,
                first,
                m,
                selector,
                k,
                lead,
                block,
                more,
                before,
            ),
        };
        let now = before.push(one);
        lemma_rules_found(toks, toks.len() - more.len(), false, m, others, now);
        let all = sheet_rules(toks, i, first, before);
        assert(all[before.len() as int] == now[before.len() as int]);
        assert forall|k: int| 0 <= k < before.len() implies all[k] == #[trigger] before[k] by {
            assert(now[k] == before[k]);
        }
        assert forall|k: int| 0 <= k < rules.len() implies found_rule(
            toks,
            m,
            all[before.len() + k],
            #[trigger] rules[k],
        ) by {
            if k > 0 {
                assert(others[k - 1] == rules[k]);
            }
        }
    }
}

/// The changes to the style sheet that its first `k` rules ask for, given where they are:
/// those of the declarations of a style rule, and a page rule is taken out whole.
pub open spec fn changes_of(toks: Seq<Tok>, m: Manner, rules: Seq<RuleText>, all: Seq<RuleModel>, k: int) -> Seq<EditModel>
    decreases k,
{
    if k <= 0 || k > rules.len() {
        Seq::empty()
    } else {
        let before = changes_of(toks, m, rules, all, k - 1);
        match (rules[k - 1], all[k - 1]) {
            (RuleText::Style(_, pseudo, sayings), RuleModel::Qualified { open, close, .. }) => before + asked_changes(
                m,
                sayings,
                body_items(toks, open + 1, close, Seq::empty()),
                sayings.len() as int,
                pseudo is Some,
            ),
            (RuleText::Page(_, _), RuleModel::AtRule { start, close, .. }) => before.push(
                EditModel { start, end: close, replacement: None },
            ),
            _ => before,
        }
    }
}

proof fn lemma_rules_meant(toks: Seq<Tok>, m: Manner, rules: Seq<RuleText>, all: Seq<RuleModel>, k: int)
    requires
        proper(m),
        sound_rules(rules),
        0 <= k <= rules.len(),
        all.len() == rules.len(),
        forall|j: int| 0 <= j < rules.len() ==> found_rule(toks, m, all[j], #[trigger] rules[j]),
    ensures
        with_rules(toks, all, k).context == meant_sheet(rules, k),
        with_rules(toks, all, k).edits == changes_of(toks, m, rules, all, k),
    decreases k,
{
    if k > 0 {
        lemma_rules_meant(toks, m, rules, all, k - 1);
        let s = with_rules(toks, all, k - 1);
        let rule = rules[k - 1];
        assert(sound_rule(rules[k - 1]));
        assert(found_rule(toks, m, all[k - 1], rules[k - 1]));
        match all[k - 1] {
            RuleModel::Qualified { prelude, open, close } => match rule {
                RuleText::Style(selector, pseudo, sayings) => {
                    law_declarations_are_read_as_meant(toks, open + 1, close, m, sayings, pseudo is Some, s.edits);
                    let items = body_items(toks, open + 1, close, Seq::empty());
                    let d = declare_all(toks, nothing_declared(s.edits), items, items.len() as int, pseudo is Some);
                    assert(said_in(d) == meant_by(sayings, sayings.len() as int, pseudo is Some));
                    assert(with_rules(toks, all, k).context =~= meant_sheet(rules, k));
                },
                _ => {},
            },
            RuleModel::AtRule { name, start, prelude, open, close } => match rule {
                RuleText::Page(page, sayings) => {
                    law_page_names_are_read_as_meant(toks, prelude, open, m, page);
                    let page_selector = match page {
                        Some(s) => Some(seq![':'] + s),
                        None => None,
                    };
                    law_page_rules_are_read_as_meant(toks, open + 1, close, m, page_selector, sayings);
                    assert(with_rules(toks, all, k).context =~= meant_sheet(rules, k));
                },
                _ => {},
            },
        }
    }
}

/// A style sheet is understood as it is meant, in whatever manner it is written: every
/// rule in order, every declaration of a rule, and every part of its value. Every rule is
/// found, and the changes to the style sheet are those that its rules ask for.
pub proof fn law_sheets_are_read_as_meant(toks: Seq<Tok>, m: Manner, rules: Seq<RuleText>)
    requires
        proper(m),
        sound_rules(rules),
        ahead(toks, toks.len() as int, cur(0), then_rules(m, rules, m.gap)),
    ensures
        gcpm_of(toks) == (GcpmModel {
            cleaned_css: gcpm_of(toks).cleaned_css,
            ..meant_sheet(rules, rules.len() as int)
        }),
        edits_of(toks) == changes_of(
            toks,
            m,
            rules,
            sheet_rules(toks, 0, true, Seq::empty()),
            rules.len() as int,
        ),
        forall|k: int|
            0 <= k < rules.len() ==> found_rule(
                toks,
                m,
                sheet_rules(toks, 0, true, Seq::empty())[k],
                #[trigger] rules[k],
            ),
{
    lemma_rules_found(toks, 0, true, m, rules, Seq::empty());
    let all = sheet_rules(toks, 0, true, Seq::empty());
    lemma_rules_meant(toks, m, rules, all, rules.len() as int);
}

/// A page rule with anything but one name after a colon is passed over.
pub proof fn law_other_page_names_are_passed_over(
    toks: Seq<Tok>,
    i: int,
    end: int,
    m: Manner,
    name: Seq<char>,
    page: Seq<char>,
    k: Lexeme,
    rest: Seq<Lexeme>,
)
    requires
        proper(m),
        plain(k) && !blank(k),
    ensures
        k != Lexeme::Mark(Mark::Colon) && ahead(toks, end, cur(i), then_token(m, k, rest)) ==> page_prelude(
            toks,
            name,
            i,
            end,
        ) is None,
        ahead(toks, end, cur(i), then_mark(m, Mark::Colon, then_ident(m, page, then_token(m, k, rest)))) ==> page_prelude(
            toks,
            name,
            i,
            end,
        ) is None,
        !same_word(name, "page"@) ==> page_prelude(toks, name, i, end) is None,
{
    if k != Lexeme::Mark(Mark::Colon) && ahead(toks, end, cur(i), then_token(m, k, rest)) {
        lemma_take(toks, end, cur(i), m, k, rest);
    }
    let behind = then_ident(m, page, then_token(m, k, rest));
    if ahead(toks, end, cur(i), then_mark(m, Mark::Colon, behind)) {
        lemma_take(toks, end, cur(i), m, Lexeme::Mark(Mark::Colon), behind);
        let c1 = after(toks, i + m.gap.len());
        lemma_take(toks, end, c1, m, Lexeme::Word(WordKind::Ident, page), then_token(m, k, rest));
        let c2 = after(toks, c1.pos + m.gap.len());
        lemma_take(toks, end, c2, m, k, rest);
    }
}

/// A statement after an at-sign, which ends with a semicolon, is passed over: the rules
/// behind it are read as if they stood there alone.
pub proof fn law_statements_are_passed_over(
    toks: Seq<Tok>,
    i: int,
    first: bool,
    m: Manner,
    name: Seq<char>,
    lead: Seq<Lexeme>,
    rules: Seq<RuleText>,
)
    requires
        proper(m),
        even(lead),
        sound_rules(rules),
        ahead(
            toks,
            toks.len() as int,
            cur(i),
            then_token(
                m,
                Lexeme::Word(WordKind::AtKeyword, name),
                lead + (seq![Lexeme::Mark(Mark::Semicolon)] + then_rules(m, rules, m.gap)),
            ),
        ),
    ensures
        sheet_rules(toks, i, first, Seq::empty()).len() == rules.len(),
        forall|k: int|
            0 <= k < rules.len() ==> found_rule(
                toks,
                m,
                sheet_rules(toks, i, first, Seq::empty())[k],
                #[trigger] rules[k],
            ),
{
    let n = toks.len() as int;
    let more = then_rules(m, rules, m.gap);
    let at = Lexeme::Word(WordKind::AtKeyword, name);
    let semicolon = Lexeme::Mark(Mark::Semicolon);
    let behind = lead + (seq![semicolon] + more);
    lemma_take(toks, n, cur(i), m, at, behind);
    let p = i + m.gap.len();
    lemma_spells_both(toks, i, m.gap, seq![at] + behind);
    lemma_between_skipped(toks, i, m.gap);
    lemma_spells_both(toks, p + 1, lead, seq![semicolon] + more);
    let q = p + 1 + lead.len();
    lemma_spells_one(toks, q, semicolon, more);
    lemma_calm(toks, p + 1, n, lead, true, true);
    assert(stop_at(toks, q, n, true, true) == q);
    lemma_rules_found(toks, q + 1, false, m, rules, Seq::empty());
}

} // verus!
