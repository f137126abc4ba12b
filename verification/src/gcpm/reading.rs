//! Values are understood as they are meant.
//!
//! A value is given as its author means it, and written out in any manner. Reading
//! the tokens gives what was meant.

use crate::gcpm::bookmark::BookmarkLevel;
use crate::gcpm::cursor::{
    after, blank, block_end, cur, exhausted, lemma_skip_comments, past_block, skip_blank, skip_comments, Cur,
};
use crate::gcpm::grammar::{
    bookmark_level, content_call, content_items, counter_ops, counter_style, counter_style_named,
    element_policy_named, ident, integer, mark, policy_name, running_name, same_word, set_call, set_values,
    string_set, string_policy_named, style_argument, target_url, text_kind_named, word, Call,
};
use crate::gcpm::spelling::{
    ahead, closed_by, even, lemma_block, lemma_even_block, lemma_even_gap, lemma_even_token, lemma_gap_left,
    lemma_spells_both, lemma_take, plain, proper, spells, then_call, then_ident, then_keyword, then_mark,
    then_quoted, then_token, Manner,
};
use crate::gcpm::token::{Bracket, Lexeme, Mark, Tok, WordKind};
use crate::gcpm::{
    ContentModel, CounterOpModel, CounterStyle, ElementPolicy, LeaderModel, SetValueModel, StringPolicy,
    TargetTextKind, TargetUrlModel,
};
use crate::text::lower;
use vstd::prelude::*;

verus! {

/// One of the properties that change counters.
pub ghost enum CounterProperty {
    Reset,
    Increment,
    SetTo,
}

/// A counter in the value of such a property, with an integer after its name or
/// without. The bits are those of the number as a single.
pub ghost struct CounterEntry {
    pub name: Seq<char>,
    pub value: Option<i32>,
    pub bits: u32,
}

/// The name of the property.
pub open spec fn counter_property_name(p: CounterProperty) -> Seq<char> {
    match p {
        CounterProperty::Reset => "counter-reset"@,
        CounterProperty::Increment => "counter-increment"@,
        CounterProperty::SetTo => "counter-set"@,
    }
}

/// What is to happen to the counter: what the integer says, or else a reset to 0, a
/// step of 1, or the value 0.
pub open spec fn meant_op(p: CounterProperty, e: CounterEntry) -> CounterOpModel {
    match (p, e.value) {
        (CounterProperty::Reset, Some(n)) => CounterOpModel::Reset { name: e.name, value: n },
        (CounterProperty::Reset, None) => CounterOpModel::Reset { name: e.name, value: 0 },
        (CounterProperty::Increment, Some(n)) => CounterOpModel::Increment { name: e.name, value: n },
        (CounterProperty::Increment, None) => CounterOpModel::Increment { name: e.name, value: 1 },
        (CounterProperty::SetTo, Some(n)) => CounterOpModel::SetTo { name: e.name, value: n },
        (CounterProperty::SetTo, None) => CounterOpModel::SetTo { name: e.name, value: 0 },
    }
}

/// What is to happen to all counters of a value.
pub open spec fn meant_ops(p: CounterProperty, entries: Seq<CounterEntry>) -> Seq<CounterOpModel> {
    Seq::new(entries.len(), |i: int| meant_op(p, entries[i]))
}

/// The counters of a value, written one after the other.
pub open spec fn then_counters(m: Manner, entries: Seq<CounterEntry>, rest: Seq<Lexeme>) -> Seq<Lexeme>
    decreases entries.len(),
{
    if entries.len() == 0 {
        rest
    } else {
        let e = entries[0];
        let more = then_counters(m, entries.drop_first(), rest);
        then_ident(
            m,
            e.name,
            match e.value {
                Some(n) => then_token(m, Lexeme::Number(e.bits, Some(n)), more),
                None => more,
            },
        )
    }
}

/// Whether no counter has the name `none`.
pub open spec fn none_is_none(entries: Seq<CounterEntry>) -> bool {
    forall|i: int| 0 <= i < entries.len() ==> !same_word((#[trigger] entries[i]).name, "none"@)
}

proof fn lemma_counter_properties_differ()
    ensures
        !same_word("counter-reset"@, "counter-increment"@),
        !same_word("counter-reset"@, "counter-set"@),
        !same_word("counter-increment"@, "counter-set"@),
{
    reveal_strlit("counter-reset");
    reveal_strlit("counter-increment");
    reveal_strlit("counter-set");
    assert(lower("counter-reset"@).len() == 13);
    assert(lower("counter-increment"@).len() == 17);
    assert(lower("counter-set"@).len() == 11);
}

/// A value of `counter-reset`, `counter-increment` or `counter-set` gives for each of
/// its counters one operation of that property on that counter, with the integer that
/// stands behind the counter's name; only where none stands there, it is 0, 1 and 0. All
/// of the value is read.
pub proof fn law_counters_are_read_as_meant(
    toks: Seq<Tok>,
    end: int,
    c: Cur,
    m: Manner,
    p: CounterProperty,
    property: Seq<char>,
    entries: Seq<CounterEntry>,
    before: Seq<CounterOpModel>,
)
    requires
        proper(m),
        same_word(property, counter_property_name(p)),
        none_is_none(entries),
        ahead(toks, end, c, then_counters(m, entries, m.gap)),
    ensures
        counter_ops(toks, end, c, property, before).0 == before + meant_ops(p, entries),
        counter_ops(toks, end, c, property, before).1 == if entries.len() > 0 { cur(end - m.gap.len()) } else { c },
    decreases entries.len(),
{
    lemma_counter_properties_differ();
    if entries.len() == 0 {
        lemma_gap_left(toks, end, c, m);
        assert(before + meant_ops(p, entries) =~= before);
    } else {
        let e = entries[0];
        let others = entries.drop_first();
        let more = then_counters(m, others, m.gap);
        let tail = match e.value {
            Some(n) => then_token(m, Lexeme::Number(e.bits, Some(n)), more),
            None => more,
        };
        lemma_take(toks, end, c, m, Lexeme::Word(WordKind::Ident, e.name), tail);
        let c1 = after(toks, c.pos + m.gap.len());
        assert(ident(toks, end, c) == Some((e.name, c1)));
        assert(!same_word(entries[0].name, "none"@));
        assert forall|i: int| 0 <= i < others.len() implies !same_word((#[trigger] others[i]).name, "none"@) by {
            assert(others[i] == entries[i + 1]);
        }
        let now = before.push(meant_op(p, e));
        assert(now + meant_ops(p, others) =~= before + meant_ops(p, entries)) by {
            assert forall|i: int| 0 <= i < others.len() implies others[i] == #[trigger] entries[i + 1] by {}
        }
        match e.value {
            Some(n) => {
                lemma_take(toks, end, c1, m, Lexeme::Number(e.bits, Some(n)), more);
                let c2 = after(toks, c1.pos + m.gap.len());
                assert(integer(toks, end, c1) == Some((n, c2)));
                law_counters_are_read_as_meant(toks, end, c2, m, p, property, others, now);
            },
            None => {
                assert(integer(toks, end, c1) is None) by {
                    if others.len() == 0 {
                        lemma_gap_left(toks, end, c1, m);
                    } else {
                        let f = others[0];
                        let then = then_counters(m, others.drop_first(), m.gap);
                        lemma_take(
                            toks,
                            end,
                            c1,
                            m,
                            Lexeme::Word(WordKind::Ident, f.name),
                            match f.value {
                                Some(n) => then_token(m, Lexeme::Number(f.bits, Some(n)), then),
                                None => then,
                            },
                        );
                    }
                }
                law_counters_are_read_as_meant(toks, end, c1, m, p, property, others, now);
            },
        }
    }
}

/// `none` asks for nothing.
pub proof fn law_none_changes_no_counter(toks: Seq<Tok>, end: int, c: Cur, m: Manner, property: Seq<char>)
    requires
        proper(m),
        ahead(toks, end, c, then_keyword(m, "none"@, m.gap)),
    ensures
        counter_ops(toks, end, c, property, Seq::empty()).0.len() == 0,
{
    lemma_take(toks, end, c, m, Lexeme::Word(WordKind::Ident, (m.case)("none"@)), m.gap);
}

pub proof fn lemma_counters_even(m: Manner, entries: Seq<CounterEntry>, rest: Seq<Lexeme>)
    requires
        proper(m),
        even(rest),
    ensures
        even(then_counters(m, entries, rest)),
    decreases entries.len(),
{
    if entries.len() > 0 {
        let e = entries[0];
        let more = then_counters(m, entries.drop_first(), rest);
        lemma_counters_even(m, entries.drop_first(), rest);
        match e.value {
            Some(n) => {
                let k = Lexeme::Number(e.bits, Some(n));
                lemma_even_token(m, k, more);
                lemma_even_token(m, Lexeme::Word(WordKind::Ident, e.name), then_token(m, k, more));
            },
            None => lemma_even_token(m, Lexeme::Word(WordKind::Ident, e.name), more),
        }
    }
}

/// Which text of an element `content()` takes.
pub ghost enum ContentPart {
    Text,
    Before,
    After,
}

/// A link, as an author writes it: `attr(<name>)`, a string, `url(<link>)`, or `url()` of a
/// string.
pub ghost enum LinkText {
    Attr(Seq<char>),
    Quoted(Seq<char>),
    Bare(Seq<char>),
    Url(Seq<char>),
}

/// The link that is meant. The names of attributes do not depend on the case of their
/// letters.
pub open spec fn meant_link(link: LinkText) -> TargetUrlModel {
    match link {
        LinkText::Attr(s) => TargetUrlModel::Attr(lower(s)),
        LinkText::Quoted(s) => TargetUrlModel::Literal(s),
        LinkText::Bare(s) => TargetUrlModel::Literal(s),
        LinkText::Url(s) => TargetUrlModel::Literal(s),
    }
}

/// One piece of generated content, as an author writes it. What can be left out is
/// optional.
pub ghost enum Piece {
    Text(Seq<char>),
    Counter(Seq<char>, Option<CounterStyle>),
    Counters(Seq<char>, Seq<char>, Option<CounterStyle>),
    Named(Seq<char>, Option<StringPolicy>),
    Element(Seq<char>, Option<ElementPolicy>),
    Attr(Seq<char>),
    Content(Option<ContentPart>),
    Leader(Option<LeaderModel>),
    TargetCounter(LinkText, Seq<char>, Option<CounterStyle>),
    TargetCounters(LinkText, Seq<char>, Seq<char>, Option<CounterStyle>),
    TargetText(LinkText, Option<TargetTextKind>),
}

/// What a piece is to show.
pub open spec fn meant_item(piece: Piece) -> ContentModel {
    match piece {
        Piece::Text(s) => ContentModel::String(s),
        Piece::Counter(name, Some(style)) => ContentModel::Counter { name, style },
        Piece::Counter(name, None) => ContentModel::Counter { name, style: CounterStyle::Decimal },
        Piece::Counters(name, separator, Some(style)) => ContentModel::Counters { name, separator, style },
        Piece::Counters(name, separator, None) => ContentModel::Counters {
            name,
            separator,
            style: CounterStyle::Decimal,
        },
        Piece::Named(name, Some(policy)) => ContentModel::StringRef { name, policy },
        Piece::Named(name, None) => ContentModel::StringRef { name, policy: StringPolicy::First },
        Piece::Element(name, Some(policy)) => ContentModel::Element { name, policy },
        Piece::Element(name, None) => ContentModel::Element { name, policy: ElementPolicy::First },
        Piece::Attr(name) => ContentModel::Attr(name),
        Piece::Content(None) => ContentModel::ContentText,
        Piece::Content(Some(ContentPart::Text)) => ContentModel::ContentText,
        Piece::Content(Some(ContentPart::Before)) => ContentModel::ContentBefore,
        Piece::Content(Some(ContentPart::After)) => ContentModel::ContentAfter,
        Piece::Leader(None) => ContentModel::Leader { style: LeaderModel::Dotted },
        Piece::Leader(Some(style)) => ContentModel::Leader { style },
        Piece::TargetCounter(link, counter_name, Some(style)) => ContentModel::TargetCounter {
            url: meant_link(link),
            counter_name,
            style,
        },
        Piece::TargetCounter(link, counter_name, None) => ContentModel::TargetCounter {
            url: meant_link(link),
            counter_name,
            style: CounterStyle::Decimal,
        },
        Piece::TargetCounters(link, counter_name, separator, Some(style)) => ContentModel::TargetCounters {
            url: meant_link(link),
            counter_name,
            separator,
            style,
        },
        Piece::TargetCounters(link, counter_name, separator, None) => ContentModel::TargetCounters {
            url: meant_link(link),
            counter_name,
            separator,
            style: CounterStyle::Decimal,
        },
        Piece::TargetText(link, Some(kind)) => ContentModel::TargetText { url: meant_link(link), kind },
        Piece::TargetText(link, None) => ContentModel::TargetText { url: meant_link(link), kind: TargetTextKind::Content },
    }
}

/// What a list of pieces is to show.
pub open spec fn meant_items(pieces: Seq<Piece>) -> Seq<ContentModel> {
    Seq::new(pieces.len(), |i: int| meant_item(pieces[i]))
}

/// The keyword of a counter style.
pub open spec fn style_word(style: CounterStyle) -> Seq<char> {
    match style {
        CounterStyle::Decimal => "decimal"@,
        CounterStyle::UpperRoman => "upper-roman"@,
        CounterStyle::LowerRoman => "lower-roman"@,
        CounterStyle::UpperAlpha => "upper-alpha"@,
        CounterStyle::LowerAlpha => "lower-alpha"@,
    }
}

/// The keyword of a policy for named strings.
pub open spec fn string_policy_word(policy: StringPolicy) -> Seq<char> {
    match policy {
        StringPolicy::Start => "start"@,
        StringPolicy::First => "first"@,
        StringPolicy::Last => "last"@,
        StringPolicy::FirstExcept => "first-except"@,
    }
}

/// The keyword of a policy for running elements.
pub open spec fn element_policy_word(policy: ElementPolicy) -> Seq<char> {
    match policy {
        ElementPolicy::Start => "start"@,
        ElementPolicy::First => "first"@,
        ElementPolicy::Last => "last"@,
        ElementPolicy::FirstExcept => "first-except"@,
    }
}

/// The keyword of a kind of text.
pub open spec fn text_kind_word(kind: TargetTextKind) -> Seq<char> {
    match kind {
        TargetTextKind::Content => "content"@,
        TargetTextKind::Before => "before"@,
        TargetTextKind::After => "after"@,
        TargetTextKind::FirstLetter => "first-letter"@,
    }
}

/// The argument of `content()`.
pub open spec fn part_word(part: ContentPart) -> Seq<char> {
    match part {
        ContentPart::Text => "text"@,
        ContentPart::Before => "before"@,
        ContentPart::After => "after"@,
    }
}

/// A comma and a keyword where there is one, and the end of the arguments.
pub open spec fn last_argument(m: Manner, keyword: Option<Seq<char>>) -> Seq<Lexeme> {
    match keyword {
        Some(w) => then_mark(m, Mark::Comma, then_keyword(m, w, m.gap)),
        None => m.gap,
    }
}

/// A counter style as the last argument.
pub open spec fn style_at_last(m: Manner, style: Option<CounterStyle>) -> Seq<Lexeme> {
    last_argument(
        m,
        match style {
            Some(s) => Some(style_word(s)),
            None => None,
        },
    )
}

/// A link.
pub open spec fn then_url(m: Manner, link: LinkText, rest: Seq<Lexeme>) -> Seq<Lexeme> {
    match link {
        LinkText::Attr(s) => then_call(m, "attr"@, then_ident(m, s, m.gap), rest),
        LinkText::Quoted(s) => then_quoted(m, s, rest),
        LinkText::Bare(s) => then_token(m, Lexeme::Word(WordKind::Url, s), rest),
        LinkText::Url(s) => then_call(m, "url"@, then_quoted(m, s, m.gap), rest),
    }
}

/// The function that writes a piece, and its arguments. Text is no function.
pub open spec fn piece_call(m: Manner, piece: Piece) -> (Seq<char>, Seq<Lexeme>) {
    match piece {
        Piece::Text(s) => (Seq::empty(), Seq::empty()),
        Piece::Counter(name, style) => ("counter"@, then_ident(m, name, style_at_last(m, style))),
        Piece::Counters(name, separator, style) => (
            "counters"@,
            then_ident(m, name, then_mark(m, Mark::Comma, then_quoted(m, separator, style_at_last(m, style)))),
        ),
        Piece::Named(name, policy) => (
            "string"@,
            then_ident(
                m,
                name,
                last_argument(
                    m,
                    match policy {
                        Some(p) => Some(string_policy_word(p)),
                        None => None,
                    },
                ),
            ),
        ),
        Piece::Element(name, policy) => (
            "element"@,
            then_ident(
                m,
                name,
                last_argument(
                    m,
                    match policy {
                        Some(p) => Some(element_policy_word(p)),
                        None => None,
                    },
                ),
            ),
        ),
        Piece::Attr(name) => ("attr"@, then_ident(m, name, m.gap)),
        Piece::Content(None) => ("content"@, m.gap),
        Piece::Content(Some(part)) => ("content"@, then_ident(m, part_word(part), m.gap)),
        Piece::Leader(None) => ("leader"@, m.gap),
        Piece::Leader(Some(LeaderModel::Dotted)) => ("leader"@, then_keyword(m, "dotted"@, m.gap)),
        Piece::Leader(Some(LeaderModel::Solid)) => ("leader"@, then_keyword(m, "solid"@, m.gap)),
        Piece::Leader(Some(LeaderModel::Space)) => ("leader"@, then_keyword(m, "space"@, m.gap)),
        Piece::Leader(Some(LeaderModel::Custom(s))) => ("leader"@, then_quoted(m, s, m.gap)),
        Piece::TargetCounter(url, name, style) => (
            "target-counter"@,
            then_url(m, url, then_mark(m, Mark::Comma, then_ident(m, name, style_at_last(m, style)))),
        ),
        Piece::TargetCounters(url, name, separator, style) => (
            "target-counters"@,
            then_url(
                m,
                url,
                then_mark(
                    m,
                    Mark::Comma,
                    then_ident(
                        m,
                        name,
                        then_mark(m, Mark::Comma, then_quoted(m, separator, style_at_last(m, style))),
                    ),
                ),
            ),
        ),
        Piece::TargetText(url, kind) => (
            "target-text"@,
            then_url(
                m,
                url,
                last_argument(
                    m,
                    match kind {
                        Some(k) => Some(text_kind_word(k)),
                        None => None,
                    },
                ),
            ),
        ),
    }
}

/// A piece.
pub open spec fn then_piece(m: Manner, piece: Piece, rest: Seq<Lexeme>) -> Seq<Lexeme> {
    match piece {
        Piece::Text(s) => then_quoted(m, s, rest),
        _ => then_call(m, piece_call(m, piece).0, piece_call(m, piece).1, rest),
    }
}

/// Pieces, one after the other.
pub open spec fn then_pieces(m: Manner, pieces: Seq<Piece>, rest: Seq<Lexeme>) -> Seq<Lexeme>
    decreases pieces.len(),
{
    if pieces.len() == 0 {
        rest
    } else {
        then_piece(m, pieces[0], then_pieces(m, pieces.drop_first(), rest))
    }
}

pub proof fn lemma_url_even(m: Manner, link: LinkText, rest: Seq<Lexeme>)
    requires
        proper(m),
        even(rest),
    ensures
        even(then_url(m, link, rest)),
{
    lemma_even_gap(m);
    match link {
        LinkText::Attr(s) => {
            lemma_even_token(m, Lexeme::Word(WordKind::Ident, s), m.gap);
            lemma_even_block(
                m,
                Lexeme::Word(WordKind::Function, (m.case)("attr"@)),
                Bracket::Paren,
                then_ident(m, s, m.gap),
                rest,
            );
        },
        LinkText::Quoted(s) => lemma_even_token(m, Lexeme::Word(WordKind::Quoted, s), rest),
        LinkText::Bare(s) => lemma_even_token(m, Lexeme::Word(WordKind::Url, s), rest),
        LinkText::Url(s) => {
            lemma_even_token(m, Lexeme::Word(WordKind::Quoted, s), m.gap);
            lemma_even_block(
                m,
                Lexeme::Word(WordKind::Function, (m.case)("url"@)),
                Bracket::Paren,
                then_quoted(m, s, m.gap),
                rest,
            );
        },
    }
}

proof fn lemma_last_even(m: Manner, keyword: Option<Seq<char>>)
    requires
        proper(m),
    ensures
        even(last_argument(m, keyword)),
{
    lemma_even_gap(m);
    match keyword {
        Some(w) => {
            lemma_even_token(m, Lexeme::Word(WordKind::Ident, (m.case)(w)), m.gap);
            lemma_even_token(m, Lexeme::Mark(Mark::Comma), then_keyword(m, w, m.gap));
        },
        None => {},
    }
}

proof fn lemma_call_even(m: Manner, piece: Piece)
    requires
        proper(m),
    ensures
        even(piece_call(m, piece).1),
{
    lemma_even_gap(m);
    let comma = Lexeme::Mark(Mark::Comma);
    match piece {
        Piece::Text(_) => crate::gcpm::spelling::lemma_even_empty(),
        Piece::Counter(name, style) => {
            lemma_last_even(m, if style is Some { Some(style_word(style->0)) } else { None });
            lemma_even_token(m, Lexeme::Word(WordKind::Ident, name), style_at_last(m, style));
        },
        Piece::Counters(name, separator, style) => {
            lemma_last_even(m, if style is Some { Some(style_word(style->0)) } else { None });
            let a = style_at_last(m, style);
            let b = then_quoted(m, separator, a);
            lemma_even_token(m, Lexeme::Word(WordKind::Quoted, separator), a);
            lemma_even_token(m, comma, b);
            lemma_even_token(m, Lexeme::Word(WordKind::Ident, name), then_mark(m, Mark::Comma, b));
        },
        Piece::Named(name, policy) => {
            let w = if policy is Some { Some(string_policy_word(policy->0)) } else { None };
            lemma_last_even(m, w);
            lemma_even_token(m, Lexeme::Word(WordKind::Ident, name), last_argument(m, w));
        },
        Piece::Element(name, policy) => {
            let w = if policy is Some { Some(element_policy_word(policy->0)) } else { None };
            lemma_last_even(m, w);
            lemma_even_token(m, Lexeme::Word(WordKind::Ident, name), last_argument(m, w));
        },
        Piece::Attr(name) => lemma_even_token(m, Lexeme::Word(WordKind::Ident, name), m.gap),
        Piece::Content(None) => {},
        Piece::Content(Some(part)) => lemma_even_token(m, Lexeme::Word(WordKind::Ident, part_word(part)), m.gap),
        Piece::Leader(None) => {},
        Piece::Leader(Some(style)) => {
            lemma_even_token(m, Lexeme::Word(WordKind::Ident, (m.case)("dotted"@)), m.gap);
            lemma_even_token(m, Lexeme::Word(WordKind::Ident, (m.case)("solid"@)), m.gap);
            lemma_even_token(m, Lexeme::Word(WordKind::Ident, (m.case)("space"@)), m.gap);
            match style {
                LeaderModel::Custom(s) => lemma_even_token(m, Lexeme::Word(WordKind::Quoted, s), m.gap),
                _ => {},
            }
        },
        Piece::TargetCounter(url, name, style) => {
            lemma_last_even(m, if style is Some { Some(style_word(style->0)) } else { None });
            let a = style_at_last(m, style);
            let b = then_ident(m, name, a);
            lemma_even_token(m, Lexeme::Word(WordKind::Ident, name), a);
            lemma_even_token(m, comma, b);
            lemma_url_even(m, url, then_mark(m, Mark::Comma, b));
        },
        Piece::TargetCounters(url, name, separator, style) => {
            lemma_last_even(m, if style is Some { Some(style_word(style->0)) } else { None });
            let a = style_at_last(m, style);
            let b = then_mark(m, Mark::Comma, then_quoted(m, separator, a));
            lemma_even_token(m, Lexeme::Word(WordKind::Quoted, separator), a);
            lemma_even_token(m, comma, then_quoted(m, separator, a));
            lemma_even_token(m, Lexeme::Word(WordKind::Ident, name), b);
            lemma_even_token(m, comma, then_ident(m, name, b));
            lemma_url_even(m, url, then_mark(m, Mark::Comma, then_ident(m, name, b)));
        },
        Piece::TargetText(url, kind) => {
            let w = if kind is Some { Some(text_kind_word(kind->0)) } else { None };
            lemma_last_even(m, w);
            lemma_url_even(m, url, last_argument(m, w));
        },
    }
}

pub proof fn lemma_pieces_even(m: Manner, pieces: Seq<Piece>, rest: Seq<Lexeme>)
    requires
        proper(m),
        even(rest),
    ensures
        even(then_pieces(m, pieces, rest)),
    decreases pieces.len(),
{
    if pieces.len() > 0 {
        let more = then_pieces(m, pieces.drop_first(), rest);
        lemma_pieces_even(m, pieces.drop_first(), rest);
        match pieces[0] {
            Piece::Text(s) => lemma_even_token(m, Lexeme::Word(WordKind::Quoted, s), more),
            piece => {
                lemma_call_even(m, piece);
                lemma_even_block(
                    m,
                    Lexeme::Word(WordKind::Function, (m.case)(piece_call(m, piece).0)),
                    Bracket::Paren,
                    piece_call(m, piece).1,
                    more,
                );
            },
        }
    }
}

proof fn lemma_styles_lower()
    ensures
        lower("decimal"@) == "decimal"@,
        lower("upper-roman"@) == "upper-roman"@,
        lower("lower-roman"@) == "lower-roman"@,
        lower("upper-alpha"@) == "upper-alpha"@,
        lower("lower-alpha"@) == "lower-alpha"@,
        lower("upper-latin"@) == "upper-latin"@,
        lower("lower-latin"@) == "lower-latin"@,
{
    reveal_strlit("decimal");
    assert(lower("decimal"@) =~= "decimal"@);
    reveal_strlit("upper-roman");
    assert(lower("upper-roman"@) =~= "upper-roman"@);
    reveal_strlit("lower-roman");
    assert(lower("lower-roman"@) =~= "lower-roman"@);
    reveal_strlit("upper-alpha");
    assert(lower("upper-alpha"@) =~= "upper-alpha"@);
    reveal_strlit("lower-alpha");
    assert(lower("lower-alpha"@) =~= "lower-alpha"@);
    reveal_strlit("upper-latin");
    assert(lower("upper-latin"@) =~= "upper-latin"@);
    reveal_strlit("lower-latin");
    assert(lower("lower-latin"@) =~= "lower-latin"@);
}

proof fn lemma_policies_lower()
    ensures
        lower("start"@) == "start"@,
        lower("first"@) == "first"@,
        lower("last"@) == "last"@,
        lower("first-except"@) == "first-except"@,
{
    reveal_strlit("start");
    assert(lower("start"@) =~= "start"@);
    reveal_strlit("first");
    assert(lower("first"@) =~= "first"@);
    reveal_strlit("last");
    assert(lower("last"@) =~= "last"@);
    reveal_strlit("first-except");
    assert(lower("first-except"@) =~= "first-except"@);
}

proof fn lemma_kinds_lower()
    ensures
        lower("content"@) == "content"@,
        lower("before"@) == "before"@,
        lower("after"@) == "after"@,
        lower("first-letter"@) == "first-letter"@,
{
    reveal_strlit("content");
    assert(lower("content"@) =~= "content"@);
    reveal_strlit("before");
    assert(lower("before"@) =~= "before"@);
    reveal_strlit("after");
    assert(lower("after"@) =~= "after"@);
    reveal_strlit("first-letter");
    assert(lower("first-letter"@) =~= "first-letter"@);
}

proof fn lemma_leaders_lower()
    ensures
        lower("dotted"@) == "dotted"@,
        lower("solid"@) == "solid"@,
        lower("space"@) == "space"@,
{
    reveal_strlit("dotted");
    assert(lower("dotted"@) =~= "dotted"@);
    reveal_strlit("solid");
    assert(lower("solid"@) =~= "solid"@);
    reveal_strlit("space");
    assert(lower("space"@) =~= "space"@);
}

proof fn lemma_styles_differ()
    ensures
        "decimal"@ != "upper-roman"@,
        "decimal"@ != "lower-roman"@,
        "decimal"@ != "upper-alpha"@,
        "decimal"@ != "lower-alpha"@,
        "decimal"@ != "upper-latin"@,
        "decimal"@ != "lower-latin"@,
        "upper-roman"@ != "lower-roman"@,
        "upper-roman"@ != "upper-alpha"@,
        "upper-roman"@ != "lower-alpha"@,
        "upper-roman"@ != "upper-latin"@,
        "upper-roman"@ != "lower-latin"@,
        "lower-roman"@ != "upper-alpha"@,
        "lower-roman"@ != "lower-alpha"@,
        "lower-roman"@ != "upper-latin"@,
        "lower-roman"@ != "lower-latin"@,
        "upper-alpha"@ != "lower-alpha"@,
        "upper-alpha"@ != "upper-latin"@,
        "upper-alpha"@ != "lower-latin"@,
        "lower-alpha"@ != "upper-latin"@,
        "lower-alpha"@ != "lower-latin"@,
        "upper-latin"@ != "lower-latin"@,
{
    reveal_strlit("decimal");
    reveal_strlit("upper-roman");
    reveal_strlit("lower-roman");
    reveal_strlit("upper-alpha");
    reveal_strlit("lower-alpha");
    reveal_strlit("upper-latin");
    reveal_strlit("lower-latin");
    assert("decimal"@.len() != "upper-roman"@.len());
    assert("decimal"@.len() != "lower-roman"@.len());
    assert("decimal"@.len() != "upper-alpha"@.len());
    assert("decimal"@.len() != "lower-alpha"@.len());
    assert("decimal"@.len() != "upper-latin"@.len());
    assert("decimal"@.len() != "lower-latin"@.len());
    assert("upper-roman"@[0] != "lower-roman"@[0]);
    assert("upper-roman"@[6] != "upper-alpha"@[6]);
    assert("upper-roman"@[0] != "lower-alpha"@[0]);
    assert("upper-roman"@[6] != "upper-latin"@[6]);
    assert("upper-roman"@[0] != "lower-latin"@[0]);
    assert("lower-roman"@[0] != "upper-alpha"@[0]);
    assert("lower-roman"@[6] != "lower-alpha"@[6]);
    assert("lower-roman"@[0] != "upper-latin"@[0]);
    assert("lower-roman"@[6] != "lower-latin"@[6]);
    assert("upper-alpha"@[0] != "lower-alpha"@[0]);
    assert("upper-alpha"@[6] != "upper-latin"@[6]);
    assert("upper-alpha"@[0] != "lower-latin"@[0]);
    assert("lower-alpha"@[0] != "upper-latin"@[0]);
    assert("lower-alpha"@[6] != "lower-latin"@[6]);
    assert("upper-latin"@[0] != "lower-latin"@[0]);
}

proof fn lemma_policies_differ()
    ensures
        "start"@ != "first"@,
        "start"@ != "last"@,
        "start"@ != "first-except"@,
        "first"@ != "last"@,
        "first"@ != "first-except"@,
        "last"@ != "first-except"@,
{
    reveal_strlit("start");
    reveal_strlit("first");
    reveal_strlit("last");
    reveal_strlit("first-except");
    assert("start"@[0] != "first"@[0]);
    assert("start"@.len() != "last"@.len());
    assert("start"@.len() != "first-except"@.len());
    assert("first"@.len() != "last"@.len());
    assert("first"@.len() != "first-except"@.len());
    assert("last"@.len() != "first-except"@.len());
}

proof fn lemma_kinds_differ()
    ensures
        "content"@ != "before"@,
        "content"@ != "after"@,
        "content"@ != "first-letter"@,
        "before"@ != "after"@,
        "before"@ != "first-letter"@,
        "after"@ != "first-letter"@,
{
    reveal_strlit("content");
    reveal_strlit("before");
    reveal_strlit("after");
    reveal_strlit("first-letter");
    assert("content"@.len() != "before"@.len());
    assert("content"@.len() != "after"@.len());
    assert("content"@.len() != "first-letter"@.len());
    assert("before"@.len() != "after"@.len());
    assert("before"@.len() != "first-letter"@.len());
    assert("after"@.len() != "first-letter"@.len());
}

proof fn lemma_parts_differ()
    ensures
        "text"@ != "before"@,
        "text"@ != "after"@,
        "before"@ != "after"@,
{
    reveal_strlit("text");
    reveal_strlit("before");
    reveal_strlit("after");
    assert("text"@.len() != "before"@.len());
    assert("text"@.len() != "after"@.len());
    assert("before"@.len() != "after"@.len());
}

proof fn lemma_leaders_differ()
    ensures
        "dotted"@ != "solid"@,
        "dotted"@ != "space"@,
        "solid"@ != "space"@,
{
    reveal_strlit("dotted");
    reveal_strlit("solid");
    reveal_strlit("space");
    assert("dotted"@.len() != "solid"@.len());
    assert("dotted"@.len() != "space"@.len());
    assert("solid"@[1] != "space"@[1]);
}

proof fn lemma_functions_differ()
    ensures
        !same_word("leader"@, "content"@),
        !same_word("leader"@, "target-counter"@),
        !same_word("leader"@, "target-counters"@),
        !same_word("leader"@, "target-text"@),
        !same_word("leader"@, "attr"@),
        !same_word("leader"@, "element"@),
        !same_word("leader"@, "counter"@),
        !same_word("leader"@, "counters"@),
        !same_word("leader"@, "string"@),
        !same_word("content"@, "target-counter"@),
        !same_word("content"@, "target-counters"@),
        !same_word("content"@, "target-text"@),
        !same_word("content"@, "attr"@),
        !same_word("content"@, "element"@),
        !same_word("content"@, "counter"@),
        !same_word("content"@, "counters"@),
        !same_word("content"@, "string"@),
        !same_word("target-counter"@, "target-counters"@),
        !same_word("target-counter"@, "target-text"@),
        !same_word("target-counter"@, "attr"@),
        !same_word("target-counter"@, "element"@),
        !same_word("target-counter"@, "counter"@),
        !same_word("target-counter"@, "counters"@),
        !same_word("target-counter"@, "string"@),
        !same_word("target-counters"@, "target-text"@),
        !same_word("target-counters"@, "attr"@),
        !same_word("target-counters"@, "element"@),
        !same_word("target-counters"@, "counter"@),
        !same_word("target-counters"@, "counters"@),
        !same_word("target-counters"@, "string"@),
        !same_word("target-text"@, "attr"@),
        !same_word("target-text"@, "element"@),
        !same_word("target-text"@, "counter"@),
        !same_word("target-text"@, "counters"@),
        !same_word("target-text"@, "string"@),
        !same_word("attr"@, "element"@),
        !same_word("attr"@, "counter"@),
        !same_word("attr"@, "counters"@),
        !same_word("attr"@, "string"@),
        !same_word("element"@, "counter"@),
        !same_word("element"@, "counters"@),
        !same_word("element"@, "string"@),
        !same_word("counter"@, "counters"@),
        !same_word("counter"@, "string"@),
        !same_word("counters"@, "string"@),
{
    reveal_strlit("leader");
    reveal_strlit("content");
    reveal_strlit("target-counter");
    reveal_strlit("target-counters");
    reveal_strlit("target-text");
    reveal_strlit("attr");
    reveal_strlit("element");
    reveal_strlit("counter");
    reveal_strlit("counters");
    reveal_strlit("string");
    assert(lower("leader"@).len() != lower("content"@).len());
    assert(lower("leader"@).len() != lower("target-counter"@).len());
    assert(lower("leader"@).len() != lower("target-counters"@).len());
    assert(lower("leader"@).len() != lower("target-text"@).len());
    assert(lower("leader"@).len() != lower("attr"@).len());
    assert(lower("leader"@).len() != lower("element"@).len());
    assert(lower("leader"@).len() != lower("counter"@).len());
    assert(lower("leader"@).len() != lower("counters"@).len());
    assert(lower("leader"@)[0] != lower("string"@)[0]);
    assert(lower("content"@).len() != lower("target-counter"@).len());
    assert(lower("content"@).len() != lower("target-counters"@).len());
    assert(lower("content"@).len() != lower("target-text"@).len());
    assert(lower("content"@).len() != lower("attr"@).len());
    assert(lower("content"@)[0] != lower("element"@)[0]);
    assert(lower("content"@)[2] != lower("counter"@)[2]);
    assert(lower("content"@).len() != lower("counters"@).len());
    assert(lower("content"@).len() != lower("string"@).len());
    assert(lower("target-counter"@).len() != lower("target-counters"@).len());
    assert(lower("target-counter"@).len() != lower("target-text"@).len());
    assert(lower("target-counter"@).len() != lower("attr"@).len());
    assert(lower("target-counter"@).len() != lower("element"@).len());
    assert(lower("target-counter"@).len() != lower("counter"@).len());
    assert(lower("target-counter"@).len() != lower("counters"@).len());
    assert(lower("target-counter"@).len() != lower("string"@).len());
    assert(lower("target-counters"@).len() != lower("target-text"@).len());
    assert(lower("target-counters"@).len() != lower("attr"@).len());
    assert(lower("target-counters"@).len() != lower("element"@).len());
    assert(lower("target-counters"@).len() != lower("counter"@).len());
    assert(lower("target-counters"@).len() != lower("counters"@).len());
    assert(lower("target-counters"@).len() != lower("string"@).len());
    assert(lower("target-text"@).len() != lower("attr"@).len());
    assert(lower("target-text"@).len() != lower("element"@).len());
    assert(lower("target-text"@).len() != lower("counter"@).len());
    assert(lower("target-text"@).len() != lower("counters"@).len());
    assert(lower("target-text"@).len() != lower("string"@).len());
    assert(lower("attr"@).len() != lower("element"@).len());
    assert(lower("attr"@).len() != lower("counter"@).len());
    assert(lower("attr"@).len() != lower("counters"@).len());
    assert(lower("attr"@).len() != lower("string"@).len());
    assert(lower("element"@)[0] != lower("counter"@)[0]);
    assert(lower("element"@).len() != lower("counters"@).len());
    assert(lower("element"@).len() != lower("string"@).len());
    assert(lower("counter"@).len() != lower("counters"@).len());
    assert(lower("counter"@).len() != lower("string"@).len());
    assert(lower("counters"@).len() != lower("string"@).len());
}

/// A link is read as it is meant.
proof fn lemma_url_read(toks: Seq<Tok>, end: int, c: Cur, m: Manner, link: LinkText, rest: Seq<Lexeme>) -> (c1: Cur)
    requires
        proper(m),
        ahead(toks, end, c, then_url(m, link, rest)),
    ensures
        target_url(toks, end, c) == Some((meant_link(link), c1)),
        ahead(toks, end, c1, rest),
{
    reveal_strlit("attr");
    reveal_strlit("url");
    assert(lower("attr"@).len() != lower("url"@).len());
    let p = c.pos + m.gap.len();
    lemma_even_gap(m);
    match link {
        LinkText::Attr(s) => {
            let k = Lexeme::Word(WordKind::Function, (m.case)("attr"@));
            let inner = then_ident(m, s, m.gap);
            lemma_take(toks, end, c, m, k, closed_by(inner, Bracket::Paren, rest));
            lemma_even_token(m, Lexeme::Word(WordKind::Ident, s), m.gap);
            lemma_block(toks, p + 1, inner, Bracket::Paren, rest);
            let q = p + 1 + inner.len();
            lemma_take(toks, q, cur(p + 1), m, Lexeme::Word(WordKind::Ident, s), m.gap);
            lemma_gap_left(toks, q, after(toks, p + 1 + m.gap.len()), m);
            assert(same_word((m.case)("attr"@), "attr"@));
            cur(q + 1)
        },
        LinkText::Quoted(s) => {
            lemma_take(toks, end, c, m, Lexeme::Word(WordKind::Quoted, s), rest);
            after(toks, p)
        },
        LinkText::Bare(s) => {
            lemma_take(toks, end, c, m, Lexeme::Word(WordKind::Url, s), rest);
            after(toks, p)
        },
        LinkText::Url(s) => {
            let k = Lexeme::Word(WordKind::Function, (m.case)("url"@));
            let inner = then_quoted(m, s, m.gap);
            lemma_take(toks, end, c, m, k, closed_by(inner, Bracket::Paren, rest));
            lemma_even_token(m, Lexeme::Word(WordKind::Quoted, s), m.gap);
            lemma_block(toks, p + 1, inner, Bracket::Paren, rest);
            let q = p + 1 + inner.len();
            lemma_take(toks, q, cur(p + 1), m, Lexeme::Word(WordKind::Quoted, s), m.gap);
            lemma_gap_left(toks, q, after(toks, p + 1 + m.gap.len()), m);
            assert(same_word((m.case)("url"@), "url"@));
            cur(q + 1)
        },
    }
}

/// A counter style at the end of the arguments is read as it is meant.
proof fn lemma_style_read(toks: Seq<Tok>, end: int, c: Cur, m: Manner, style: Option<CounterStyle>)
    requires
        proper(m),
        ahead(toks, end, c, style_at_last(m, style)),
    ensures
        style_argument(toks, end, c).0 == (match style {
            Some(s) => s,
            None => CounterStyle::Decimal,
        }),
        exhausted(toks, end, style_argument(toks, end, c).1),
{
    match style {
        None => lemma_gap_left(toks, end, c, m),
        Some(s) => {
            let w = style_word(s);
            lemma_take(toks, end, c, m, Lexeme::Mark(Mark::Comma), then_keyword(m, w, m.gap));
            let c1 = after(toks, c.pos + m.gap.len());
            lemma_take(toks, end, c1, m, Lexeme::Word(WordKind::Ident, (m.case)(w)), m.gap);
            let c2 = after(toks, c1.pos + m.gap.len());
            lemma_gap_left(toks, end, c2, m);
            assert(mark(toks, end, c2, Mark::Delim('-')) is None);
            lemma_styles_lower();
            lemma_styles_differ();
            assert(same_word((m.case)(w), w));
            assert(counter_style(toks, end, c1) == Some((s, c2)));
        },
    }
}

/// A keyword at the end of the arguments.
proof fn lemma_last_read(toks: Seq<Tok>, end: int, c: Cur, m: Manner, w: Seq<char>) -> (r: (Cur, Cur))
    requires
        proper(m),
        ahead(toks, end, c, last_argument(m, Some(w))),
    ensures
        mark(toks, end, c, Mark::Comma) == Some(r.0),
        ident(toks, end, r.0) == Some(((m.case)(w), r.1)),
        lower((m.case)(w)) == lower(w),
        exhausted(toks, end, r.1),
        mark(toks, end, r.1, Mark::Delim('-')) is None,
{
    lemma_take(toks, end, c, m, Lexeme::Mark(Mark::Comma), then_keyword(m, w, m.gap));
    let c1 = after(toks, c.pos + m.gap.len());
    lemma_take(toks, end, c1, m, Lexeme::Word(WordKind::Ident, (m.case)(w)), m.gap);
    let c2 = after(toks, c1.pos + m.gap.len());
    lemma_gap_left(toks, end, c2, m);
    assert(same_word((m.case)(w), w));
    (c1, c2)
}

/// A function whose first argument is a name.
proof fn lemma_named_piece(toks: Seq<Tok>, end: int, c: Cur, m: Manner, piece: Piece)
    requires
        proper(m),
        piece is Counter || piece is Counters || piece is Named || piece is Element || piece is Attr,
        ahead(toks, end, c, piece_call(m, piece).1),
    ensures
        content_call(toks, end, (m.case)(piece_call(m, piece).0), c) == (Call {
            item: Some(meant_item(piece)),
            complete: true,
        }),
{
    lemma_functions_differ();
    let f = piece_call(m, piece).0;
    assert(same_word((m.case)(f), f));
    let comma = Lexeme::Mark(Mark::Comma);
    match piece {
        Piece::Counter(name, style) => {
            lemma_take(toks, end, c, m, Lexeme::Word(WordKind::Ident, name), style_at_last(m, style));
            lemma_style_read(toks, end, after(toks, c.pos + m.gap.len()), m, style);
        },
        Piece::Counters(name, separator, style) => {
            let a = style_at_last(m, style);
            let b = then_quoted(m, separator, a);
            lemma_take(toks, end, c, m, Lexeme::Word(WordKind::Ident, name), then_mark(m, Mark::Comma, b));
            let c1 = after(toks, c.pos + m.gap.len());
            lemma_take(toks, end, c1, m, comma, b);
            let c2 = after(toks, c1.pos + m.gap.len());
            lemma_take(toks, end, c2, m, Lexeme::Word(WordKind::Quoted, separator), a);
            lemma_style_read(toks, end, after(toks, c2.pos + m.gap.len()), m, style);
        },
        Piece::Named(name, policy) => {
            let w = if policy is Some { Some(string_policy_word(policy->0)) } else { None };
            lemma_take(toks, end, c, m, Lexeme::Word(WordKind::Ident, name), last_argument(m, w));
            let c1 = after(toks, c.pos + m.gap.len());
            lemma_policies_lower();
            lemma_policies_differ();
            match w {
                None => lemma_gap_left(toks, end, c1, m),
                Some(w) => {
                    let _ = lemma_last_read(toks, end, c1, m, w);
                },
            }
        },
        Piece::Element(name, policy) => {
            let w = if policy is Some { Some(element_policy_word(policy->0)) } else { None };
            lemma_take(toks, end, c, m, Lexeme::Word(WordKind::Ident, name), last_argument(m, w));
            let c1 = after(toks, c.pos + m.gap.len());
            lemma_policies_lower();
            lemma_policies_differ();
            match w {
                None => lemma_gap_left(toks, end, c1, m),
                Some(w) => {
                    let _ = lemma_last_read(toks, end, c1, m, w);
                },
            }
        },
        Piece::Attr(name) => {
            lemma_take(toks, end, c, m, Lexeme::Word(WordKind::Ident, name), m.gap);
            lemma_gap_left(toks, end, after(toks, c.pos + m.gap.len()), m);
        },
        _ => {},
    }
}

/// `content()` and `leader()`.
proof fn lemma_bare_piece(toks: Seq<Tok>, end: int, c: Cur, m: Manner, piece: Piece)
    requires
        proper(m),
        piece is Content || piece is Leader,
        ahead(toks, end, c, piece_call(m, piece).1),
    ensures
        content_call(toks, end, (m.case)(piece_call(m, piece).0), c) == (Call {
            item: Some(meant_item(piece)),
            complete: true,
        }),
{
    lemma_functions_differ();
    lemma_parts_differ();
    lemma_leaders_lower();
    lemma_leaders_differ();
    let f = piece_call(m, piece).0;
    assert(same_word((m.case)(f), f));
    let c1 = after(toks, c.pos + m.gap.len());
    match piece {
        Piece::Content(None) => lemma_gap_left(toks, end, c, m),
        Piece::Content(Some(part)) => {
            lemma_take(toks, end, c, m, Lexeme::Word(WordKind::Ident, part_word(part)), m.gap);
            lemma_gap_left(toks, end, c1, m);
        },
        Piece::Leader(None) => lemma_gap_left(toks, end, c, m),
        Piece::Leader(Some(LeaderModel::Custom(s))) => {
            lemma_take(toks, end, c, m, Lexeme::Word(WordKind::Quoted, s), m.gap);
            lemma_gap_left(toks, end, c1, m);
        },
        Piece::Leader(Some(style)) => {
            let w = match style {
                LeaderModel::Solid => "solid"@,
                LeaderModel::Space => "space"@,
                _ => "dotted"@,
            };
            lemma_take(toks, end, c, m, Lexeme::Word(WordKind::Ident, (m.case)(w)), m.gap);
            lemma_gap_left(toks, end, c1, m);
            assert(same_word((m.case)(w), w));
        },
        _ => {},
    }
}

/// A function that refers to a target.
proof fn lemma_target_piece(toks: Seq<Tok>, end: int, c: Cur, m: Manner, piece: Piece)
    requires
        proper(m),
        piece is TargetCounter || piece is TargetCounters || piece is TargetText,
        ahead(toks, end, c, piece_call(m, piece).1),
    ensures
        content_call(toks, end, (m.case)(piece_call(m, piece).0), c) == (Call {
            item: Some(meant_item(piece)),
            complete: true,
        }),
{
    lemma_functions_differ();
    let f = piece_call(m, piece).0;
    assert(same_word((m.case)(f), f));
    let comma = Lexeme::Mark(Mark::Comma);
    match piece {
        Piece::TargetCounter(url, name, style) => {
            let a = style_at_last(m, style);
            let b = then_ident(m, name, a);
            let c1 = lemma_url_read(toks, end, c, m, url, then_mark(m, Mark::Comma, b));
            lemma_take(toks, end, c1, m, comma, b);
            let c2 = after(toks, c1.pos + m.gap.len());
            lemma_take(toks, end, c2, m, Lexeme::Word(WordKind::Ident, name), a);
            lemma_style_read(toks, end, after(toks, c2.pos + m.gap.len()), m, style);
        },
        Piece::TargetCounters(url, name, separator, style) => {
            let a = style_at_last(m, style);
            let s = then_quoted(m, separator, a);
            let b = then_ident(m, name, then_mark(m, Mark::Comma, s));
            let c1 = lemma_url_read(toks, end, c, m, url, then_mark(m, Mark::Comma, b));
            lemma_take(toks, end, c1, m, comma, b);
            let c2 = after(toks, c1.pos + m.gap.len());
            lemma_take(toks, end, c2, m, Lexeme::Word(WordKind::Ident, name), then_mark(m, Mark::Comma, s));
            let c3 = after(toks, c2.pos + m.gap.len());
            lemma_take(toks, end, c3, m, comma, s);
            let c4 = after(toks, c3.pos + m.gap.len());
            lemma_take(toks, end, c4, m, Lexeme::Word(WordKind::Quoted, separator), a);
            lemma_style_read(toks, end, after(toks, c4.pos + m.gap.len()), m, style);
        },
        Piece::TargetText(url, kind) => {
            let w = if kind is Some { Some(text_kind_word(kind->0)) } else { None };
            let c1 = lemma_url_read(toks, end, c, m, url, last_argument(m, w));
            lemma_kinds_lower();
            lemma_kinds_differ();
            match w {
                None => lemma_gap_left(toks, end, c1, m),
                Some(w) => {
                    let _ = lemma_last_read(toks, end, c1, m, w);
                },
            }
        },
        _ => {},
    }
}

/// White space and comments before the next piece are passed over.
proof fn lemma_content_gap(toks: Seq<Tok>, end: int, i: int, t: int, items: Seq<ContentModel>)
    requires
        0 <= i <= t < end <= toks.len(),
        forall|j: int| i <= j < t ==> blank(#[trigger] toks[j].kind),
        toks[t].kind is Word,
    ensures
        match toks[t].kind {
            Lexeme::Word(WordKind::Quoted, s) => content_items(toks, end, cur(i), items) == content_items(
                toks,
                end,
                cur(t + 1),
                items.push(ContentModel::String(s)),
            ),
            Lexeme::Word(WordKind::Function, f) => {
                let call = content_call(toks, block_end(toks, t + 1, Bracket::Paren), f, cur(t + 1));
                call.complete && call.item is Some ==> content_items(toks, end, cur(i), items) == content_items(
                    toks,
                    end,
                    cur(past_block(toks, t + 1, Bracket::Paren)),
                    items.push(call.item->0),
                )
            },
            _ => true,
        },
    decreases t - i,
{
    lemma_blanks_to(toks, i, t, end);
    lemma_skip_comments(toks, i, end);
    lemma_comments_to(toks, i, t, end);
    let p = skip_comments(toks, i, end);
    if p < t {
        assert(blank(toks[p].kind));
        lemma_content_gap(toks, end, p + 1, t, items);
        assert(after(toks, p) == cur(p + 1));
    }
}

proof fn lemma_blanks_to(toks: Seq<Tok>, i: int, t: int, end: int)
    requires
        0 <= i <= t < end,
        forall|j: int| i <= j < t ==> blank(#[trigger] toks[j].kind),
        !blank(toks[t].kind),
    ensures
        skip_blank(toks, i, end) == t,
    decreases t - i,
{
    if i < t {
        assert(blank(toks[i].kind));
        lemma_blanks_to(toks, i + 1, t, end);
    }
}

proof fn lemma_comments_to(toks: Seq<Tok>, i: int, t: int, end: int)
    requires
        0 <= i <= t < end,
        !blank(toks[t].kind),
    ensures
        i <= skip_comments(toks, i, end) <= t,
        skip_comments(toks, i, end) < t ==> toks[skip_comments(toks, i, end)].kind != Lexeme::Mark(Mark::Comment),
    decreases t - i,
{
    if i < t && toks[i].kind == Lexeme::Mark(Mark::Comment) {
        lemma_comments_to(toks, i + 1, t, end);
    }
}

/// What stands in a gap is blank.
proof fn lemma_gap_blank(toks: Seq<Tok>, i: int, m: Manner, rest: Seq<Lexeme>)
    requires
        proper(m),
        spells(toks, i, m.gap + rest),
    ensures
        forall|j: int| i <= j < i + m.gap.len() ==> blank(#[trigger] toks[j].kind),
{
    lemma_spells_both(toks, i, m.gap, rest);
    assert forall|j: int| i <= j < i + m.gap.len() implies blank(#[trigger] toks[j].kind) by {
        assert(blank(m.gap[j - i]));
        assert(toks[i + (j - i)].kind == m.gap[j - i]);
    }
}

/// Generated content is read as it is meant: every piece of it, in order, to the end.
pub proof fn law_content_is_read_as_meant(
    toks: Seq<Tok>,
    end: int,
    c: Cur,
    m: Manner,
    pieces: Seq<Piece>,
    before: Seq<ContentModel>,
)
    requires
        proper(m),
        ahead(toks, end, c, then_pieces(m, pieces, m.gap)),
    ensures
        content_items(toks, end, c, before).0 == before + meant_items(pieces),
        content_items(toks, end, c, before).1 == if pieces.len() > 0 { cur(end - m.gap.len()) } else { c },
    decreases pieces.len(),
{
    if pieces.len() == 0 {
        lemma_gap_left(toks, end, c, m);
        assert(before + meant_items(pieces) =~= before);
    } else {
        let piece = pieces[0];
        let others = pieces.drop_first();
        let more = then_pieces(m, others, m.gap);
        let now = before.push(meant_item(piece));
        assert(now + meant_items(others) =~= before + meant_items(pieces));
        let t = c.pos + m.gap.len();
        lemma_even_gap(m);
        lemma_pieces_even(m, others, m.gap);
        match piece {
            Piece::Text(s) => {
                let k = Lexeme::Word(WordKind::Quoted, s);
                lemma_take(toks, end, c, m, k, more);
                lemma_gap_blank(toks, c.pos, m, seq![k] + more);
                lemma_content_gap(toks, end, c.pos, t, before);
                law_content_is_read_as_meant(toks, end, cur(t + 1), m, others, now);
            },
            _ => {
                let (f, inner) = piece_call(m, piece);
                let k = Lexeme::Word(WordKind::Function, (m.case)(f));
                lemma_take(toks, end, c, m, k, closed_by(inner, Bracket::Paren, more));
                lemma_gap_blank(toks, c.pos, m, seq![k] + closed_by(inner, Bracket::Paren, more));
                lemma_call_even(m, piece);
                lemma_block(toks, t + 1, inner, Bracket::Paren, more);
                let q = t + 1 + inner.len();
                match piece {
                    Piece::Content(_) => lemma_bare_piece(toks, q, cur(t + 1), m, piece),
                    Piece::Leader(_) => lemma_bare_piece(toks, q, cur(t + 1), m, piece),
                    Piece::TargetCounter(_, _, _) => lemma_target_piece(toks, q, cur(t + 1), m, piece),
                    Piece::TargetCounters(_, _, _, _) => lemma_target_piece(toks, q, cur(t + 1), m, piece),
                    Piece::TargetText(_, _) => lemma_target_piece(toks, q, cur(t + 1), m, piece),
                    _ => lemma_named_piece(toks, q, cur(t + 1), m, piece),
                }
                lemma_content_gap(toks, end, c.pos, t, before);
                law_content_is_read_as_meant(toks, end, cur(q + 1), m, others, now);
            },
        }
    }
}

/// A piece of the value of `string-set`.
pub open spec fn then_set_value(m: Manner, value: SetValueModel, rest: Seq<Lexeme>) -> Seq<Lexeme> {
    match value {
        SetValueModel::Literal(s) => then_quoted(m, s, rest),
        SetValueModel::Attr(s) => then_call(m, "attr"@, then_ident(m, s, m.gap), rest),
        SetValueModel::ContentText => then_call(m, "content"@, then_ident(m, "text"@, m.gap), rest),
        SetValueModel::ContentBefore => then_call(m, "content"@, then_ident(m, "before"@, m.gap), rest),
        SetValueModel::ContentAfter => then_call(m, "content"@, then_ident(m, "after"@, m.gap), rest),
    }
}

/// Such pieces, one after the other.
pub open spec fn then_set_values(m: Manner, values: Seq<SetValueModel>, rest: Seq<Lexeme>) -> Seq<Lexeme>
    decreases values.len(),
{
    if values.len() == 0 {
        rest
    } else {
        then_set_value(m, values[0], then_set_values(m, values.drop_first(), rest))
    }
}

/// The function that writes a piece, and its argument.
spec fn set_words(value: SetValueModel) -> (Seq<char>, Seq<char>) {
    match value {
        SetValueModel::Literal(s) => (Seq::empty(), Seq::empty()),
        SetValueModel::Attr(s) => ("attr"@, s),
        SetValueModel::ContentText => ("content"@, "text"@),
        SetValueModel::ContentBefore => ("content"@, "before"@),
        SetValueModel::ContentAfter => ("content"@, "after"@),
    }
}

pub proof fn lemma_set_values_even(m: Manner, values: Seq<SetValueModel>, rest: Seq<Lexeme>)
    requires
        proper(m),
        even(rest),
    ensures
        even(then_set_values(m, values, rest)),
    decreases values.len(),
{
    if values.len() > 0 {
        let more = then_set_values(m, values.drop_first(), rest);
        lemma_set_values_even(m, values.drop_first(), rest);
        match values[0] {
            SetValueModel::Literal(s) => lemma_even_token(m, Lexeme::Word(WordKind::Quoted, s), more),
            value => {
                let (f, a) = set_words(value);
                lemma_even_gap(m);
                lemma_even_token(m, Lexeme::Word(WordKind::Ident, a), m.gap);
                lemma_even_block(
                    m,
                    Lexeme::Word(WordKind::Function, (m.case)(f)),
                    Bracket::Paren,
                    then_ident(m, a, m.gap),
                    more,
                );
            },
        }
    }
}

proof fn lemma_set_gap(toks: Seq<Tok>, end: int, i: int, t: int, values: Seq<SetValueModel>)
    requires
        0 <= i <= t < end <= toks.len(),
        forall|j: int| i <= j < t ==> blank(#[trigger] toks[j].kind),
        toks[t].kind is Word,
    ensures
        match toks[t].kind {
            Lexeme::Word(WordKind::Quoted, s) => set_values(toks, end, cur(i), values) == set_values(
                toks,
                end,
                cur(t + 1),
                values.push(SetValueModel::Literal(s)),
            ),
            Lexeme::Word(WordKind::Function, f) => {
                let call = set_call(toks, block_end(toks, t + 1, Bracket::Paren), f, cur(t + 1));
                call.1 && call.0 is Some ==> set_values(toks, end, cur(i), values) == set_values(
                    toks,
                    end,
                    cur(past_block(toks, t + 1, Bracket::Paren)),
                    values.push(call.0->0),
                )
            },
            _ => true,
        },
    decreases t - i,
{
    lemma_blanks_to(toks, i, t, end);
    lemma_skip_comments(toks, i, end);
    lemma_comments_to(toks, i, t, end);
    let p = skip_comments(toks, i, end);
    if p < t {
        assert(blank(toks[p].kind));
        lemma_set_gap(toks, end, p + 1, t, values);
        assert(after(toks, p) == cur(p + 1));
    }
}

proof fn lemma_set_values_read(
    toks: Seq<Tok>,
    end: int,
    c: Cur,
    m: Manner,
    values: Seq<SetValueModel>,
    before: Seq<SetValueModel>,
)
    requires
        proper(m),
        ahead(toks, end, c, then_set_values(m, values, m.gap)),
    ensures
        set_values(toks, end, c, before).0 == before + values,
        set_values(toks, end, c, before).1 == if values.len() > 0 { cur(end - m.gap.len()) } else { c },
    decreases values.len(),
{
    if values.len() == 0 {
        lemma_gap_left(toks, end, c, m);
        assert(before + values =~= before);
    } else {
        let value = values[0];
        let others = values.drop_first();
        let more = then_set_values(m, others, m.gap);
        let now = before.push(value);
        assert(now + others =~= before + values);
        let t = c.pos + m.gap.len();
        match value {
            SetValueModel::Literal(s) => {
                let k = Lexeme::Word(WordKind::Quoted, s);
                lemma_take(toks, end, c, m, k, more);
                lemma_gap_blank(toks, c.pos, m, seq![k] + more);
                lemma_set_gap(toks, end, c.pos, t, before);
                lemma_set_values_read(toks, end, cur(t + 1), m, others, now);
            },
            _ => {
                let (f, a) = set_words(value);
                let inner = then_ident(m, a, m.gap);
                let k = Lexeme::Word(WordKind::Function, (m.case)(f));
                lemma_take(toks, end, c, m, k, closed_by(inner, Bracket::Paren, more));
                lemma_gap_blank(toks, c.pos, m, seq![k] + closed_by(inner, Bracket::Paren, more));
                lemma_even_gap(m);
                lemma_even_token(m, Lexeme::Word(WordKind::Ident, a), m.gap);
                lemma_block(toks, t + 1, inner, Bracket::Paren, more);
                let q = t + 1 + inner.len();
                lemma_take(toks, q, cur(t + 1), m, Lexeme::Word(WordKind::Ident, a), m.gap);
                lemma_gap_left(toks, q, after(toks, t + 1 + m.gap.len()), m);
                lemma_functions_differ();
                lemma_parts_differ();
                assert(same_word((m.case)(f), f));
                assert(set_call(toks, q, (m.case)(f), cur(t + 1)) == (Some(value), true));
                lemma_set_gap(toks, end, c.pos, t, before);
                lemma_set_values_read(toks, end, cur(q + 1), m, others, now);
            },
        }
    }
}

/// `string-set` is read as it is meant: the name of the string, and every piece of its
/// value in order. Without a value it says nothing.
pub proof fn law_string_set_is_read_as_meant(
    toks: Seq<Tok>,
    end: int,
    c: Cur,
    m: Manner,
    name: Seq<char>,
    values: Seq<SetValueModel>,
)
    requires
        proper(m),
        ahead(toks, end, c, then_ident(m, name, then_set_values(m, values, m.gap))),
    ensures
        values.len() > 0 ==> string_set(toks, end, c) == Some(((name, values), cur(end - m.gap.len()))),
        values.len() == 0 ==> string_set(toks, end, c) is None,
{
    lemma_take(toks, end, c, m, Lexeme::Word(WordKind::Ident, name), then_set_values(m, values, m.gap));
    let c1 = after(toks, c.pos + m.gap.len());
    lemma_set_values_read(toks, end, c1, m, values, Seq::empty());
    assert(Seq::empty() + values =~= values);
}

/// `running(<name>)` is read as it is meant.
pub proof fn law_running_is_read_as_meant(toks: Seq<Tok>, end: int, c: Cur, m: Manner, name: Seq<char>)
    requires
        proper(m),
        ahead(toks, end, c, then_call(m, "running"@, then_ident(m, name, m.gap), m.gap)),
    ensures
        running_name(toks, end, c) == Some((name, cur(end - m.gap.len()))),
{
    let t = c.pos + m.gap.len();
    let inner = then_ident(m, name, m.gap);
    let k = Lexeme::Word(WordKind::Function, (m.case)("running"@));
    lemma_take(toks, end, c, m, k, closed_by(inner, Bracket::Paren, m.gap));
    lemma_even_gap(m);
    lemma_even_token(m, Lexeme::Word(WordKind::Ident, name), m.gap);
    lemma_block(toks, t + 1, inner, Bracket::Paren, m.gap);
    let q = t + 1 + inner.len();
    lemma_take(toks, q, cur(t + 1), m, Lexeme::Word(WordKind::Ident, name), m.gap);
    lemma_gap_left(toks, q, after(toks, t + 1 + m.gap.len()), m);
    assert(same_word((m.case)("running"@), "running"@));
}

/// A positive integer is a bookmark level, one beyond 255 the level 255; no other
/// integer is one.
pub proof fn law_bookmark_levels_are_read_as_meant(
    toks: Seq<Tok>,
    end: int,
    c: Cur,
    m: Manner,
    n: i32,
    bits: u32,
    rest: Seq<Lexeme>,
)
    requires
        proper(m),
        ahead(toks, end, c, then_token(m, Lexeme::Number(bits, Some(n)), rest)),
    ensures
        bookmark_level(toks, end, c) is Some <==> n >= 1,
        n >= 1 ==> (bookmark_level(toks, end, c)->0 matches BookmarkLevel::Integer(l) && l == if n <= 255 {
            n as int
        } else {
            255
        }),
{
    lemma_take(toks, end, c, m, Lexeme::Number(bits, Some(n)), rest);
}

/// `none` is the level of what is no bookmark.
pub proof fn law_bookmark_none_is_read_as_meant(toks: Seq<Tok>, end: int, c: Cur, m: Manner, rest: Seq<Lexeme>)
    requires
        proper(m),
        ahead(toks, end, c, then_keyword(m, "none"@, rest)),
    ensures
        bookmark_level(toks, end, c) == Some(BookmarkLevel::None_),
{
    lemma_take(toks, end, c, m, Lexeme::Word(WordKind::Ident, (m.case)("none"@)), rest);
    assert(same_word((m.case)("none"@), "none"@));
}

/// Letters have two names each, and every other style one; nothing else names a style.
pub proof fn law_styles_have_their_names(name: Seq<char>)
    ensures
        counter_style_named("upper-latin"@) == Some(CounterStyle::UpperAlpha),
        counter_style_named("lower-latin"@) == Some(CounterStyle::LowerAlpha),
        counter_style_named(name) matches Some(style) ==> name == style_word(style) || (name == "upper-latin"@ && style
            == CounterStyle::UpperAlpha) || (name == "lower-latin"@ && style == CounterStyle::LowerAlpha),
{
    lemma_styles_differ();
}

/// Nothing but its keyword names a policy or a kind of text.
pub proof fn law_policies_have_their_names(name: Seq<char>)
    ensures
        string_policy_named(name) matches Some(policy) ==> name == string_policy_word(policy),
        element_policy_named(name) matches Some(policy) ==> name == element_policy_word(policy),
        text_kind_named(name) matches Some(kind) ==> name == text_kind_word(kind),
{
}

/// The name of a style may be written as two words around a dash.
pub proof fn law_styles_are_read_in_two_words(
    toks: Seq<Tok>,
    end: int,
    c: Cur,
    m: Manner,
    a: Seq<char>,
    b: Seq<char>,
    style: CounterStyle,
    rest: Seq<Lexeme>,
)
    requires
        proper(m),
        same_word(a + seq!['-'] + b, style_word(style)),
        ahead(toks, end, c, then_ident(m, a, then_mark(m, Mark::Delim('-'), then_ident(m, b, rest)))),
    ensures
        counter_style(toks, end, c) matches Some((read, c1)) && read == style && ahead(toks, end, c1, rest),
{
    let g = m.gap.len();
    let dash = Lexeme::Mark(Mark::Delim('-'));
    lemma_take(toks, end, c, m, Lexeme::Word(WordKind::Ident, a), then_token(m, dash, then_ident(m, b, rest)));
    let c1 = after(toks, c.pos + g);
    lemma_take(toks, end, c1, m, dash, then_ident(m, b, rest));
    let c2 = after(toks, c1.pos + g);
    lemma_take(toks, end, c2, m, Lexeme::Word(WordKind::Ident, b), rest);
    assert(a.push('-') + b =~= a + seq!['-'] + b);
    lemma_styles_lower();
    lemma_styles_differ();
}

/// `first-except` may be written as two words around a dash.
pub proof fn law_first_except_is_read_in_two_words(toks: Seq<Tok>, end: int, c: Cur, m: Manner, rest: Seq<Lexeme>)
    requires
        proper(m),
        ahead(
            toks,
            end,
            c,
            then_keyword(m, "first"@, then_mark(m, Mark::Delim('-'), then_keyword(m, "except"@, rest))),
        ),
    ensures
        policy_name(toks, end, c) matches Some((name, c1)) && string_policy_named(name) == Some(
            StringPolicy::FirstExcept,
        ) && element_policy_named(name) == Some(ElementPolicy::FirstExcept) && ahead(toks, end, c1, rest),
{
    let g = m.gap.len();
    let dash = Lexeme::Mark(Mark::Delim('-'));
    let word = then_keyword(m, "except"@, rest);
    lemma_take(toks, end, c, m, Lexeme::Word(WordKind::Ident, (m.case)("first"@)), then_token(m, dash, word));
    let c1 = after(toks, c.pos + g);
    lemma_take(toks, end, c1, m, dash, word);
    let c2 = after(toks, c1.pos + g);
    lemma_take(toks, end, c2, m, Lexeme::Word(WordKind::Ident, (m.case)("except"@)), rest);
    assert(same_word((m.case)("first"@), "first"@));
    assert(same_word((m.case)("except"@), "except"@));
    lemma_policies_differ();
}

/// White space and comments before what is no piece are passed over, and so is it.
proof fn lemma_other_gap(toks: Seq<Tok>, end: int, i: int, t: int, items: Seq<ContentModel>)
    requires
        0 <= i <= t < end <= toks.len(),
        forall|j: int| i <= j < t ==> blank(#[trigger] toks[j].kind),
        !blank(toks[t].kind),
        match toks[t].kind {
            Lexeme::Word(WordKind::Quoted, _) => false,
            Lexeme::Word(WordKind::Function, _) => false,
            _ => true,
        },
    ensures
        content_items(toks, end, cur(i), items) == content_items(toks, end, after(toks, t), items),
    decreases t - i,
{
    lemma_blanks_to(toks, i, t, end);
    lemma_skip_comments(toks, i, end);
    lemma_comments_to(toks, i, t, end);
    let p = skip_comments(toks, i, end);
    if p < t {
        assert(blank(toks[p].kind));
        lemma_other_gap(toks, end, p + 1, t, items);
        assert(after(toks, p) == cur(p + 1));
    }
}

/// A token between the pieces of generated content that is none of them changes nothing:
/// all of the pieces behind it are read.
pub proof fn law_other_tokens_are_passed_over(
    toks: Seq<Tok>,
    end: int,
    i: int,
    m: Manner,
    k: Lexeme,
    pieces: Seq<Piece>,
    before: Seq<ContentModel>,
)
    requires
        proper(m),
        plain(k) && !blank(k),
        k matches Lexeme::Word(kind, _) ==> kind != WordKind::Quoted,
        ahead(toks, end, cur(i), then_token(m, k, then_pieces(m, pieces, m.gap))),
    ensures
        content_items(toks, end, cur(i), before).0 == before + meant_items(pieces),
{
    let more = then_pieces(m, pieces, m.gap);
    let t = i + m.gap.len();
    lemma_take(toks, end, cur(i), m, k, more);
    lemma_gap_blank(toks, i, m, seq![k] + more);
    lemma_other_gap(toks, end, i, t, before);
    law_content_is_read_as_meant(toks, end, after(toks, t), m, pieces, before);
}

/// Nothing but `running()` takes an element out of the flow.
pub proof fn law_only_running_is_running(
    toks: Seq<Tok>,
    end: int,
    c: Cur,
    m: Manner,
    k: Lexeme,
    rest: Seq<Lexeme>,
)
    requires
        proper(m),
        !blank(k),
        k matches Lexeme::Word(WordKind::Function, f) ==> !same_word(f, "running"@),
        ahead(toks, end, c, then_token(m, k, rest)),
    ensures
        running_name(toks, end, c) is None,
{
    lemma_take(toks, end, c, m, k, rest);
}

} // verus!
