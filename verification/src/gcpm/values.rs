//! Reading the values of declarations.

use crate::gcpm::bookmark::BookmarkLevel;
use crate::gcpm::cursor::{
    cursor_at, find_block_end, find_past_block, is_exhausted, look, look_text, pass, Cur, Cursor,
};
use crate::gcpm::grammar::{
    bookmark_level, content_argument, content_call, content_items, counter_op, counter_ops,
    counter_style, counter_style_named, counters_call, dash_word, dimension, element_call,
    element_policy_argument, element_policy_named, ident, integer, leader_call, leader_named,
    length, lengths, link_text, margin_side, mark, named_call, orientation, page_margin, page_size,
    policy_name, positive_dimension, quoted, running_name, set_call, set_values, size_keyword,
    string_policy_argument, string_policy_named, string_set, style_argument, target_counter_call,
    target_counters_call, target_text_call, target_url, text_kind_argument, text_kind_named,
    unit_named, word, zero, Call,
};
use crate::gcpm::token::{Bracket, CssToken, Mark, TokenKind, WordKind};
use crate::gcpm::{
    ContentItem, CounterOp, CounterStyle, CssLength, ElementPolicy, LeaderStyle, LengthUnit,
    PageSizeDecl, PartialMargin, StringPolicy, StringSetValue, TargetTextKind, TargetUrl,
};
use crate::model::{group_views, opt_view, views};
use vstd::prelude::*;

verus! {

broadcast use group_views;

/// The model of a value that is its own model, with the cursor after it.
pub open spec fn plain<T>(r: Option<(T, Cursor)>) -> Option<(T, Cur)> {
    match r {
        Some((t, c)) => Some((t, c@)),
        None => None,
    }
}

/// Whether a cursor and an end lie within a token list.
pub open spec fn within(toks: &Vec<CssToken>, end: usize, c: Cursor) -> bool {
    c.pos <= toks.len() && end <= toks.len()
}

/// A word of a given kind.
pub fn read_word(toks: &Vec<CssToken>, end: usize, c: Cursor, kind: WordKind) -> (r: Option<
    (String, Cursor),
>)
    requires
        within(toks, end, c),
    ensures
        opt_view(r) == word(views(toks@), end as int, c@, kind),
        r matches Some((_, c1)) ==> c.pos < c1.pos <= toks.len(),
{
    let p = look(toks, end, c);
    if p >= end {
        return None;
    }
    assert(views(toks@)[p as int].kind == toks@[p as int].kind@);
    match &toks[p].kind {
        TokenKind::Word(k, s) => if *k == kind {
            Some((s.clone(), pass(toks, p)))
        } else {
            None
        },
        _ => None,
    }
}

/// An identifier.
pub fn read_ident(toks: &Vec<CssToken>, end: usize, c: Cursor) -> (r: Option<(String, Cursor)>)
    requires
        within(toks, end, c),
    ensures
        opt_view(r) == ident(views(toks@), end as int, c@),
        r matches Some((_, c1)) ==> c.pos < c1.pos <= toks.len(),
{
    read_word(toks, end, c, WordKind::Ident)
}

/// A string literal.
pub fn read_quoted(toks: &Vec<CssToken>, end: usize, c: Cursor) -> (r: Option<(String, Cursor)>)
    requires
        within(toks, end, c),
    ensures
        opt_view(r) == quoted(views(toks@), end as int, c@),
        r matches Some((_, c1)) ==> c.pos < c1.pos <= toks.len(),
{
    read_word(toks, end, c, WordKind::Quoted)
}

/// A given mark.
pub fn read_mark(toks: &Vec<CssToken>, end: usize, c: Cursor, m: Mark) -> (r: Option<Cursor>)
    requires
        within(toks, end, c),
    ensures
        opt_view(r) == mark(views(toks@), end as int, c@, m),
        r matches Some(c1) ==> c.pos < c1.pos <= toks.len(),
{
    let p = look(toks, end, c);
    if p >= end {
        return None;
    }
    assert(views(toks@)[p as int].kind == toks@[p as int].kind@);
    match &toks[p].kind {
        TokenKind::Mark(k) => if *k == m {
            Some(pass(toks, p))
        } else {
            None
        },
        _ => None,
    }
}

/// An integer.
pub fn read_integer(toks: &Vec<CssToken>, end: usize, c: Cursor) -> (r: Option<(i32, Cursor)>)
    requires
        within(toks, end, c),
    ensures
        plain(r) == integer(views(toks@), end as int, c@),
        r matches Some((_, c1)) ==> c.pos < c1.pos <= toks.len(),
{
    let p = look(toks, end, c);
    if p >= end {
        return None;
    }
    assert(views(toks@)[p as int].kind == toks@[p as int].kind@);
    match &toks[p].kind {
        TokenKind::Number(_, Some(n)) => Some((*n, pass(toks, p))),
        _ => None,
    }
}

/// `-` and a given word.
fn read_dash_word(toks: &Vec<CssToken>, end: usize, c: Cursor, w: &str) -> (r: Option<Cursor>)
    requires
        within(toks, end, c),
    ensures
        opt_view(r) == dash_word(views(toks@), end as int, c@, w@),
        r matches Some(c1) ==> c.pos < c1.pos <= toks.len(),
{
    let c1 = match read_mark(toks, end, c, Mark::Delim('-')) {
        Some(c1) => c1,
        None => return None,
    };
    match read_ident(toks, end, c1) {
        Some((s, c2)) => if s.as_str().eq_ignore_ascii_case(w) {
            Some(c2)
        } else {
            None
        },
        None => None,
    }
}

/// The name of a policy in lower case.
fn parse_policy_ident(toks: &Vec<CssToken>, end: usize, c: Cursor) -> (r: Option<(String, Cursor)>)
    requires
        within(toks, end, c),
    ensures
        opt_view(r) == policy_name(views(toks@), end as int, c@),
        r matches Some((_, c1)) ==> c.pos < c1.pos <= toks.len(),
{
    let (s, c1) = match read_ident(toks, end, c) {
        Some(r) => r,
        None => return None,
    };
    if s.as_str().eq_ignore_ascii_case("first") {
        match read_dash_word(toks, end, c1, "except") {
            Some(c2) => Some(("first-except".to_owned(), c2)),
            None => Some(("first".to_owned(), c1)),
        }
    } else {
        Some((s.as_str().to_ascii_lowercase(), c1))
    }
}

fn string_policy_of(name: &str) -> (r: Option<StringPolicy>)
    ensures
        r == string_policy_named(name@),
{
    if *name == *"first" {
        Some(StringPolicy::First)
    } else if *name == *"start" {
        Some(StringPolicy::Start)
    } else if *name == *"last" {
        Some(StringPolicy::Last)
    } else if *name == *"first-except" {
        Some(StringPolicy::FirstExcept)
    } else {
        None
    }
}

fn element_policy_of(name: &str) -> (r: Option<ElementPolicy>)
    ensures
        r == element_policy_named(name@),
{
    if *name == *"first" {
        Some(ElementPolicy::First)
    } else if *name == *"start" {
        Some(ElementPolicy::Start)
    } else if *name == *"last" {
        Some(ElementPolicy::Last)
    } else if *name == *"first-except" {
        Some(ElementPolicy::FirstExcept)
    } else {
        None
    }
}

fn counter_style_of(name: &str) -> (r: Option<CounterStyle>)
    ensures
        r == counter_style_named(name@),
{
    if *name == *"decimal" {
        Some(CounterStyle::Decimal)
    } else if *name == *"upper-roman" {
        Some(CounterStyle::UpperRoman)
    } else if *name == *"lower-roman" {
        Some(CounterStyle::LowerRoman)
    } else if *name == *"upper-alpha" || *name == *"upper-latin" {
        Some(CounterStyle::UpperAlpha)
    } else if *name == *"lower-alpha" || *name == *"lower-latin" {
        Some(CounterStyle::LowerAlpha)
    } else {
        None
    }
}

/// The style argument of `counter(<name>, <style>)`.
fn parse_counter_style(toks: &Vec<CssToken>, end: usize, c: Cursor) -> (r: Option<
    (CounterStyle, Cursor),
>)
    requires
        within(toks, end, c),
    ensures
        plain(r) == counter_style(views(toks@), end as int, c@),
        r matches Some((_, c1)) ==> c.pos < c1.pos <= toks.len(),
{
    let (s, c1) = match read_ident(toks, end, c) {
        Some(r) => r,
        None => return None,
    };
    match read_mark(toks, end, c1, Mark::Delim('-')) {
        None => match counter_style_of(s.as_str().to_ascii_lowercase().as_str()) {
            Some(style) => Some((style, c1)),
            None => None,
        },
        Some(c2) => {
            let (t, c3) = match read_ident(toks, end, c2) {
                Some(r) => r,
                None => return None,
            };
            let mut full = s;
            full.push('-');
            full.append(t.as_str());
            match counter_style_of(full.as_str().to_ascii_lowercase().as_str()) {
                Some(style) => Some((style, c3)),
                None => None,
            }
        },
    }
}

/// `, <counter-style>`, or decimal.
fn read_style_argument(toks: &Vec<CssToken>, end: usize, c: Cursor) -> (r: (CounterStyle, Cursor))
    requires
        within(toks, end, c),
    ensures
        (r.0, r.1@) == style_argument(views(toks@), end as int, c@),
        c.pos <= r.1.pos <= toks.len(),
{
    let c1 = match read_mark(toks, end, c, Mark::Comma) {
        Some(c1) => c1,
        None => return (CounterStyle::Decimal, c),
    };
    match parse_counter_style(toks, end, c1) {
        Some((style, c2)) => (style, c2),
        None => (CounterStyle::Decimal, c),
    }
}

/// The policy argument of `string(<name>, <policy>)`.
fn parse_string_policy(toks: &Vec<CssToken>, end: usize, c: Cursor) -> (r: (StringPolicy, Cursor))
    requires
        within(toks, end, c),
    ensures
        (r.0, r.1@) == string_policy_argument(views(toks@), end as int, c@),
        c.pos <= r.1.pos <= toks.len(),
{
    let c1 = match read_mark(toks, end, c, Mark::Comma) {
        Some(c1) => c1,
        None => return (StringPolicy::First, c),
    };
    match parse_policy_ident(toks, end, c1) {
        Some((name, c2)) => match string_policy_of(name.as_str()) {
            Some(policy) => (policy, c2),
            None => (StringPolicy::First, c),
        },
        None => (StringPolicy::First, c),
    }
}

/// The policy argument of `element(<name>, <policy>)`.
fn parse_element_policy(toks: &Vec<CssToken>, end: usize, c: Cursor) -> (r: (
    Option<ElementPolicy>,
    Cursor,
))
    requires
        within(toks, end, c),
    ensures
        (r.0, r.1@) == element_policy_argument(views(toks@), end as int, c@),
        r.1.pos <= toks.len(),
{
    match parse_policy_ident(toks, end, c) {
        Some((name, c1)) => (element_policy_of(name.as_str()), c1),
        None => {
            let p = look(toks, end, c);
            if p < end {
                (None, pass(toks, p))
            } else {
                (None, cursor_at(p))
            }
        },
    }
}

/// A string or an unquoted link.
fn read_link_text(toks: &Vec<CssToken>, end: usize, c: Cursor) -> (r: Option<(String, Cursor)>)
    requires
        within(toks, end, c),
    ensures
        opt_view(r) == link_text(views(toks@), end as int, c@),
        r matches Some((_, c1)) ==> c.pos < c1.pos <= toks.len(),
{
    match read_quoted(toks, end, c) {
        Some(r) => Some(r),
        None => read_word(toks, end, c, WordKind::Url),
    }
}

/// The link argument of a `target-*` function.
fn parse_target_url(toks: &Vec<CssToken>, end: usize, c: Cursor) -> (r: Option<(TargetUrl, Cursor)>)
    requires
        within(toks, end, c),
    ensures
        opt_view(r) == target_url(views(toks@), end as int, c@),
        r matches Some((_, c1)) ==> c.pos <= c1.pos <= toks.len(),
{
    let p = look(toks, end, c);
    if p >= end {
        return None;
    }
    assert(views(toks@)[p as int].kind == toks@[p as int].kind@);
    match &toks[p].kind {
        TokenKind::Word(WordKind::Function, name) => {
            let q = find_block_end(toks, p + 1, Bracket::Paren);
            let next = cursor_at(find_past_block(toks, p + 1, Bracket::Paren));
            let inner = cursor_at(p + 1);
            if name.as_str().eq_ignore_ascii_case("attr") {
                match read_ident(toks, q, inner) {
                    Some((s, c1)) => if is_exhausted(toks, q, c1) {
                        Some((TargetUrl::Attr(s.as_str().to_ascii_lowercase()), next))
                    } else {
                        None
                    },
                    None => None,
                }
            } else if name.as_str().eq_ignore_ascii_case("url") {
                match read_link_text(toks, q, inner) {
                    Some((s, c1)) => if is_exhausted(toks, q, c1) {
                        Some((TargetUrl::Literal(s), next))
                    } else {
                        None
                    },
                    None => None,
                }
            } else {
                None
            }
        },
        TokenKind::Word(WordKind::Quoted, s) => Some((TargetUrl::Literal(s.clone()), pass(toks, p))),
        TokenKind::Word(WordKind::Url, s) => Some((TargetUrl::Literal(s.clone()), pass(toks, p))),
        _ => None,
    }
}

fn text_kind_of(name: &str) -> (r: Option<TargetTextKind>)
    ensures
        r == text_kind_named(name@),
{
    if *name == *"content" {
        Some(TargetTextKind::Content)
    } else if *name == *"before" {
        Some(TargetTextKind::Before)
    } else if *name == *"after" {
        Some(TargetTextKind::After)
    } else if *name == *"first-letter" {
        Some(TargetTextKind::FirstLetter)
    } else {
        None
    }
}

/// `, <kind>` of `target-text()`.
fn read_text_kind(toks: &Vec<CssToken>, end: usize, c: Cursor) -> (r: (TargetTextKind, Cursor))
    requires
        within(toks, end, c),
    ensures
        (r.0, r.1@) == text_kind_argument(views(toks@), end as int, c@),
        c.pos <= r.1.pos <= toks.len(),
{
    let c1 = match read_mark(toks, end, c, Mark::Comma) {
        Some(c1) => c1,
        None => return (TargetTextKind::Content, c),
    };
    match read_ident(toks, end, c1) {
        Some((s, c2)) => match text_kind_of(s.as_str().to_ascii_lowercase().as_str()) {
            Some(kind) => (kind, c2),
            None => (TargetTextKind::Content, c),
        },
        None => (TargetTextKind::Content, c),
    }
}

/// What a function in a `content` list comes to.
pub struct CallResult {
    pub item: Option<ContentItem>,
    pub complete: bool,
}

impl View for CallResult {
    type V = Call;

    open spec fn view(&self) -> Call {
        Call { item: opt_view(self.item), complete: self.complete }
    }
}

fn add_item(toks: &Vec<CssToken>, end: usize, item: ContentItem, c: Cursor) -> (r: CallResult)
    requires
        within(toks, end, c),
    ensures
        r@ == crate::gcpm::grammar::adds(views(toks@), end as int, item@, c@),
{
    CallResult { item: Some(item), complete: is_exhausted(toks, end, c) }
}

fn add_nothing(toks: &Vec<CssToken>, end: usize, c: Cursor) -> (r: CallResult)
    requires
        within(toks, end, c),
    ensures
        r@ == crate::gcpm::grammar::adds_nothing(views(toks@), end as int, c@),
{
    CallResult { item: None, complete: is_exhausted(toks, end, c) }
}

fn broken_call() -> (r: CallResult)
    ensures
        r@ == crate::gcpm::grammar::broken(),
{
    CallResult { item: None, complete: false }
}

fn leader_of(name: &str) -> (r: LeaderStyle)
    ensures
        r@ == leader_named(name@),
{
    if *name == *"solid" {
        LeaderStyle::Solid
    } else if *name == *"space" {
        LeaderStyle::Space
    } else {
        LeaderStyle::Dotted
    }
}

fn parse_leader_call(toks: &Vec<CssToken>, end: usize, c: Cursor) -> (r: CallResult)
    requires
        within(toks, end, c),
    ensures
        r@ == leader_call(views(toks@), end as int, c@),
{
    match read_quoted(toks, end, c) {
        Some((s, c1)) => add_item(
            toks,
            end,
            ContentItem::Leader { style: LeaderStyle::Custom(s) },
            c1,
        ),
        None => match read_ident(toks, end, c) {
            Some((s, c1)) => {
                let style = leader_of(s.as_str().to_ascii_lowercase().as_str());
                add_item(toks, end, ContentItem::Leader { style }, c1)
            },
            None => add_item(toks, end, ContentItem::Leader { style: LeaderStyle::Dotted }, c),
        },
    }
}

fn parse_target_counter_call(toks: &Vec<CssToken>, end: usize, c: Cursor) -> (r: CallResult)
    requires
        within(toks, end, c),
    ensures
        r@ == target_counter_call(views(toks@), end as int, c@),
{
    let (url, c1) = match parse_target_url(toks, end, c) {
        Some(r) => r,
        None => return add_nothing(toks, end, c),
    };
    let c2 = match read_mark(toks, end, c1, Mark::Comma) {
        Some(c2) => c2,
        None => return broken_call(),
    };
    let (counter_name, c3) = match read_ident(toks, end, c2) {
        Some(r) => r,
        None => return broken_call(),
    };
    let (style, c4) = read_style_argument(toks, end, c3);
    if is_exhausted(toks, end, c4) {
        add_item(toks, end, ContentItem::TargetCounter { url, counter_name, style }, c4)
    } else {
        broken_call()
    }
}

fn parse_target_counters_call(toks: &Vec<CssToken>, end: usize, c: Cursor) -> (r: CallResult)
    requires
        within(toks, end, c),
    ensures
        r@ == target_counters_call(views(toks@), end as int, c@),
{
    let (url, c1) = match parse_target_url(toks, end, c) {
        Some(r) => r,
        None => return add_nothing(toks, end, c),
    };
    let c2 = match read_mark(toks, end, c1, Mark::Comma) {
        Some(c2) => c2,
        None => return broken_call(),
    };
    let (counter_name, c3) = match read_ident(toks, end, c2) {
        Some(r) => r,
        None => return broken_call(),
    };
    let c4 = match read_mark(toks, end, c3, Mark::Comma) {
        Some(c4) => c4,
        None => return broken_call(),
    };
    let (separator, c5) = match read_quoted(toks, end, c4) {
        Some(r) => r,
        None => return add_nothing(toks, end, c4),
    };
    let (style, c6) = read_style_argument(toks, end, c5);
    if is_exhausted(toks, end, c6) {
        add_item(
            toks,
            end,
            ContentItem::TargetCounters { url, counter_name, separator, style },
            c6,
        )
    } else {
        broken_call()
    }
}

fn parse_target_text_call(toks: &Vec<CssToken>, end: usize, c: Cursor) -> (r: CallResult)
    requires
        within(toks, end, c),
    ensures
        r@ == target_text_call(views(toks@), end as int, c@),
{
    let (url, c1) = match parse_target_url(toks, end, c) {
        Some(r) => r,
        None => return add_nothing(toks, end, c),
    };
    let (kind, c2) = read_text_kind(toks, end, c1);
    if is_exhausted(toks, end, c2) {
        add_item(toks, end, ContentItem::TargetText { url, kind }, c2)
    } else {
        broken_call()
    }
}

fn content_of(arg: &str) -> (r: Option<ContentItem>)
    ensures
        opt_view(r) == content_argument(arg@),
{
    if *arg == *"text" {
        Some(ContentItem::ContentText)
    } else if *arg == *"before" {
        Some(ContentItem::ContentBefore)
    } else if *arg == *"after" {
        Some(ContentItem::ContentAfter)
    } else {
        None
    }
}

fn parse_element_call(toks: &Vec<CssToken>, end: usize, name: String, c: Cursor) -> (r: CallResult)
    requires
        within(toks, end, c),
    ensures
        r@ == element_call(views(toks@), end as int, name@, c@),
{
    let c1 = match read_mark(toks, end, c, Mark::Comma) {
        Some(c1) => c1,
        None => return add_item(
            toks,
            end,
            ContentItem::Element { name, policy: ElementPolicy::First },
            c,
        ),
    };
    let (policy, c2) = parse_element_policy(toks, end, c1);
    match policy {
        Some(policy) => add_item(toks, end, ContentItem::Element { name, policy }, c2),
        None => add_nothing(toks, end, c2),
    }
}

fn parse_counters_call(toks: &Vec<CssToken>, end: usize, name: String, c: Cursor) -> (r: CallResult)
    requires
        within(toks, end, c),
    ensures
        r@ == counters_call(views(toks@), end as int, name@, c@),
{
    let c1 = match read_mark(toks, end, c, Mark::Comma) {
        Some(c1) => c1,
        None => return add_nothing(toks, end, c),
    };
    let (separator, c2) = match read_quoted(toks, end, c1) {
        Some(r) => r,
        None => return add_nothing(toks, end, c1),
    };
    let (style, c3) = read_style_argument(toks, end, c2);
    add_item(toks, end, ContentItem::Counters { name, separator, style }, c3)
}

fn parse_named_call(
    toks: &Vec<CssToken>,
    end: usize,
    function: &str,
    arg: String,
    c: Cursor,
) -> (r: CallResult)
    requires
        within(toks, end, c),
    ensures
        r@ == named_call(views(toks@), end as int, function@, arg@, c@),
{
    if function.eq_ignore_ascii_case("content") {
        match content_of(arg.as_str()) {
            Some(item) => add_item(toks, end, item, c),
            None => add_nothing(toks, end, c),
        }
    } else if function.eq_ignore_ascii_case("attr") {
        add_item(toks, end, ContentItem::Attr(arg), c)
    } else if function.eq_ignore_ascii_case("element") {
        parse_element_call(toks, end, arg, c)
    } else if function.eq_ignore_ascii_case("counter") {
        let (style, c1) = read_style_argument(toks, end, c);
        add_item(toks, end, ContentItem::Counter { name: arg, style }, c1)
    } else if function.eq_ignore_ascii_case("counters") {
        parse_counters_call(toks, end, arg, c)
    } else if function.eq_ignore_ascii_case("string") {
        let (policy, c1) = parse_string_policy(toks, end, c);
        add_item(toks, end, ContentItem::StringRef { name: arg, policy }, c1)
    } else {
        add_nothing(toks, end, c)
    }
}

fn parse_content_call(toks: &Vec<CssToken>, end: usize, function: &str, c: Cursor) -> (r: CallResult)
    requires
        within(toks, end, c),
    ensures
        r@ == content_call(views(toks@), end as int, function@, c@),
{
    if function.eq_ignore_ascii_case("leader") {
        parse_leader_call(toks, end, c)
    } else if function.eq_ignore_ascii_case("content") && is_exhausted(toks, end, c) {
        add_item(toks, end, ContentItem::ContentText, c)
    } else if function.eq_ignore_ascii_case("target-counter") {
        parse_target_counter_call(toks, end, c)
    } else if function.eq_ignore_ascii_case("target-counters") {
        parse_target_counters_call(toks, end, c)
    } else if function.eq_ignore_ascii_case("target-text") {
        parse_target_text_call(toks, end, c)
    } else {
        match read_ident(toks, end, c) {
            Some((arg, c1)) => parse_named_call(toks, end, function, arg, c1),
            None => broken_call(),
        }
    }
}

/// The items of a `content` list, and the cursor where it ends.
pub fn parse_content_value(toks: &Vec<CssToken>, end: usize, start: Cursor) -> (r: (
    Vec<ContentItem>,
    Cursor,
))
    requires
        within(toks, end, start),
    ensures
        (views(r.0@), r.1@) == content_items(views(toks@), end as int, start@, Seq::empty()),
        r.1.pos <= toks.len(),
{
    let ghost vs = views(toks@);
    let ghost whole = content_items(vs, end as int, start@, Seq::empty());
    let mut items: Vec<ContentItem> = Vec::new();
    let mut c = start;
    loop
        invariant_except_break
            content_items(vs, end as int, c@, views(items@)) == whole,
        invariant
            vs == views(toks@),
            within(toks, end, c),
        ensures
            (views(items@), c@) == whole,
            c.pos <= toks.len(),
        decreases toks.len() - c.pos,
    {
        if is_exhausted(toks, end, c) {
            break;
        }
        let p = look_text(toks, end, c);
        if p >= end {
            break;
        }
        assert(vs[p as int].kind == toks@[p as int].kind@);
        match &toks[p].kind {
            TokenKind::Word(WordKind::Quoted, s) => {
                items.push(ContentItem::String(s.clone()));
                c = pass(toks, p);
            },
            TokenKind::Word(WordKind::Function, function) => {
                let q = find_block_end(toks, p + 1, Bracket::Paren);
                let call = parse_content_call(toks, q, function.as_str(), cursor_at(p + 1));
                let complete = call.complete;
                match call.item {
                    Some(item) => {
                        items.push(item);
                    },
                    None => {},
                }
                if !complete {
                    break;
                }
                c = cursor_at(find_past_block(toks, p + 1, Bracket::Paren));
            },
            _ => {
                c = pass(toks, p);
            },
        }
    }
    (items, c)
}

fn parse_set_call(toks: &Vec<CssToken>, end: usize, function: &str, c: Cursor) -> (r: (
    Option<StringSetValue>,
    bool,
))
    requires
        within(toks, end, c),
    ensures
        (opt_view(r.0), r.1) == set_call(views(toks@), end as int, function@, c@),
{
    if function.eq_ignore_ascii_case("content") {
        match read_ident(toks, end, c) {
            Some((arg, c1)) => {
                let complete = is_exhausted(toks, end, c1);
                let a = arg.as_str();
                if *a == *"text" {
                    (Some(StringSetValue::ContentText), complete)
                } else if *a == *"before" {
                    (Some(StringSetValue::ContentBefore), complete)
                } else if *a == *"after" {
                    (Some(StringSetValue::ContentAfter), complete)
                } else {
                    (None, complete)
                }
            },
            None => (None, false),
        }
    } else if function.eq_ignore_ascii_case("attr") {
        match read_ident(toks, end, c) {
            Some((arg, c1)) => (
                Some(StringSetValue::Attr(arg)),
                is_exhausted(toks, end, c1),
            ),
            None => (None, false),
        }
    } else {
        (None, is_exhausted(toks, end, c))
    }
}

/// The value of `string-set`: a name and at least one value.
pub fn parse_string_set_value(toks: &Vec<CssToken>, end: usize, start: Cursor) -> (r: Option<
    ((String, Vec<StringSetValue>), Cursor),
>)
    requires
        within(toks, end, start),
    ensures
        match r {
            Some(((name, values), c)) => string_set(views(toks@), end as int, start@) == Some(
                ((name@, views(values@)), c@),
            ) && c.pos <= toks.len(),
            None => string_set(views(toks@), end as int, start@) is None,
        },
{
    let ghost vs = views(toks@);
    let (name, c1) = match read_ident(toks, end, start) {
        Some(r) => r,
        None => return None,
    };
    let ghost whole = set_values(vs, end as int, c1@, Seq::empty());
    let mut values: Vec<StringSetValue> = Vec::new();
    let mut c = c1;
    loop
        invariant_except_break
            set_values(vs, end as int, c@, views(values@)) == whole,
        invariant
            vs == views(toks@),
            within(toks, end, c),
        ensures
            (views(values@), c@) == whole,
            c.pos <= toks.len(),
        decreases toks.len() - c.pos,
    {
        if is_exhausted(toks, end, c) {
            break;
        }
        let p = look_text(toks, end, c);
        if p >= end {
            break;
        }
        assert(vs[p as int].kind == toks@[p as int].kind@);
        match &toks[p].kind {
            TokenKind::Word(WordKind::Quoted, s) => {
                values.push(StringSetValue::Literal(s.clone()));
                c = pass(toks, p);
            },
            TokenKind::Word(WordKind::Function, function) => {
                let q = find_block_end(toks, p + 1, Bracket::Paren);
                let (value, complete) = parse_set_call(
                    toks,
                    q,
                    function.as_str(),
                    cursor_at(p + 1),
                );
                match value {
                    Some(v) => {
                        values.push(v);
                    },
                    None => {},
                }
                if !complete {
                    break;
                }
                c = cursor_at(find_past_block(toks, p + 1, Bracket::Paren));
            },
            _ => {
                c = pass(toks, p);
            },
        }
    }
    if values.len() == 0 {
        None
    } else {
        Some(((name, values), c))
    }
}

fn make_counter_op(property: &str, name: String, value: Option<i32>) -> (r: CounterOp)
    ensures
        r@ == counter_op(property@, name@, value),
{
    if property.eq_ignore_ascii_case("counter-reset") {
        CounterOp::Reset { name, value: value.unwrap_or(0) }
    } else if property.eq_ignore_ascii_case("counter-increment") {
        CounterOp::Increment { name, value: value.unwrap_or(1) }
    } else {
        CounterOp::SetTo { name, value: value.unwrap_or(0) }
    }
}

/// The operations of a counter property, and the cursor where they end.
pub fn parse_counter_ops(toks: &Vec<CssToken>, end: usize, start: Cursor, property: &str) -> (r: (
    Vec<CounterOp>,
    Cursor,
))
    requires
        within(toks, end, start),
    ensures
        (views(r.0@), r.1@) == counter_ops(
            views(toks@),
            end as int,
            start@,
            property@,
            Seq::empty(),
        ),
        r.1.pos <= toks.len(),
{
    let ghost vs = views(toks@);
    let ghost whole = counter_ops(vs, end as int, start@, property@, Seq::empty());
    let mut ops: Vec<CounterOp> = Vec::new();
    let mut c = start;
    loop
        invariant_except_break
            counter_ops(vs, end as int, c@, property@, views(ops@)) == whole,
        invariant
            vs == views(toks@),
            within(toks, end, c),
        ensures
            (views(ops@), c@) == whole,
            c.pos <= toks.len(),
        decreases toks.len() - c.pos,
    {
        let (name, c1) = match read_ident(toks, end, c) {
            Some(r) => r,
            None => {
                break;
            },
        };
        if name.as_str().eq_ignore_ascii_case("none") {
            c = c1;
            break;
        }
        match read_integer(toks, end, c1) {
            Some((value, c2)) => {
                ops.push(make_counter_op(property, name, Some(value)));
                c = c2;
            },
            None => {
                ops.push(make_counter_op(property, name, None));
                c = c1;
            },
        }
    }
    (ops, c)
}

/// The value of `bookmark-level`.
pub fn parse_bookmark_level_value(toks: &Vec<CssToken>, end: usize, c: Cursor) -> (r: Option<
    BookmarkLevel,
>)
    requires
        within(toks, end, c),
    ensures
        r == bookmark_level(views(toks@), end as int, c@),
{
    let p = look(toks, end, c);
    if p >= end {
        return None;
    }
    assert(views(toks@)[p as int].kind == toks@[p as int].kind@);
    match &toks[p].kind {
        TokenKind::Number(_, Some(n)) => if *n > 255 {
            Some(BookmarkLevel::Integer(255))
        } else if *n >= 1 {
            Some(BookmarkLevel::Integer(*n as u8))
        } else {
            None
        },
        TokenKind::Word(WordKind::Ident, s) => if s.as_str().eq_ignore_ascii_case("none") {
            Some(BookmarkLevel::None_)
        } else {
            None
        },
        _ => None,
    }
}

/// The name in `running(<name>)`.
pub fn parse_running_name(toks: &Vec<CssToken>, end: usize, c: Cursor) -> (r: Option<
    (String, Cursor),
>)
    requires
        within(toks, end, c),
    ensures
        opt_view(r) == running_name(views(toks@), end as int, c@),
        r matches Some((_, c1)) ==> c1.pos <= toks.len(),
{
    let (function, c1) = match read_word(toks, end, c, WordKind::Function) {
        Some(r) => r,
        None => return None,
    };
    if !function.as_str().eq_ignore_ascii_case("running") {
        return None;
    }
    let q = find_block_end(toks, c1.pos, Bracket::Paren);
    match read_ident(toks, q, cursor_at(c1.pos)) {
        Some((name, c2)) => if is_exhausted(toks, q, c2) {
            Some((name, cursor_at(find_past_block(toks, c1.pos, Bracket::Paren))))
        } else {
            None
        },
        None => None,
    }
}

fn unit_of(name: &str) -> (r: Option<LengthUnit>)
    ensures
        r == unit_named(name@),
{
    if name.eq_ignore_ascii_case("mm") {
        Some(LengthUnit::Mm)
    } else if name.eq_ignore_ascii_case("cm") {
        Some(LengthUnit::Cm)
    } else if name.eq_ignore_ascii_case("in") {
        Some(LengthUnit::In)
    } else if name.eq_ignore_ascii_case("pt") {
        Some(LengthUnit::Pt)
    } else if name.eq_ignore_ascii_case("px") {
        Some(LengthUnit::Px)
    } else {
        None
    }
}

fn dimension_of(kind: &TokenKind) -> (r: Option<CssLength>)
    ensures
        r == dimension(kind@),
{
    match kind {
        TokenKind::Dimension(bits, unit) => match unit_of(unit.as_str()) {
            Some(unit) => Some(CssLength { bits: *bits, unit }),
            None => None,
        },
        _ => None,
    }
}

fn read_positive_dimension(toks: &Vec<CssToken>, end: usize, c: Cursor) -> (r: Option<
    (CssLength, Cursor),
>)
    requires
        within(toks, end, c),
    ensures
        plain(r) == positive_dimension(views(toks@), end as int, c@),
        r matches Some((_, c1)) ==> c1.pos <= toks.len(),
{
    let p = look(toks, end, c);
    if p >= end {
        return None;
    }
    assert(views(toks@)[p as int].kind == toks@[p as int].kind@);
    match dimension_of(&toks[p].kind) {
        Some(l) => if 0 < l.bits && l.bits <= 0x7f80_0000 {
            Some((l, pass(toks, p)))
        } else {
            None
        },
        None => None,
    }
}

/// A length: a number with a unit, or a bare zero.
fn parse_length_token(toks: &Vec<CssToken>, end: usize, c: Cursor) -> (r: Option<(CssLength, Cursor)>)
    requires
        within(toks, end, c),
    ensures
        plain(r) == length(views(toks@), end as int, c@),
        r matches Some((_, c1)) ==> c1.pos <= toks.len(),
{
    let p = look(toks, end, c);
    if p >= end {
        return None;
    }
    assert(views(toks@)[p as int].kind == toks@[p as int].kind@);
    match &toks[p].kind {
        TokenKind::Number(bits, _) => if *bits == 0 || *bits == 0x8000_0000 {
            Some((CssLength { bits: 0, unit: LengthUnit::Pt }, pass(toks, p)))
        } else {
            None
        },
        kind => match dimension_of(kind) {
            Some(l) => Some((l, pass(toks, p))),
            None => None,
        },
    }
}

fn read_orientation(toks: &Vec<CssToken>, end: usize, c: Cursor) -> (r: Option<(bool, Cursor)>)
    requires
        within(toks, end, c),
    ensures
        plain(r) == orientation(views(toks@), end as int, c@),
        r matches Some((_, c1)) ==> c1.pos <= toks.len(),
{
    match read_ident(toks, end, c) {
        Some((s, c1)) => if s.as_str().eq_ignore_ascii_case("landscape") {
            Some((true, c1))
        } else if s.as_str().eq_ignore_ascii_case("portrait") {
            Some((false, c1))
        } else {
            None
        },
        None => None,
    }
}

fn read_size_keyword(toks: &Vec<CssToken>, end: usize, s: String, c: Cursor) -> (r: (
    PageSizeDecl<CssLength>,
    Cursor,
))
    requires
        within(toks, end, c),
    ensures
        (r.0@, r.1@) == size_keyword(views(toks@), end as int, s@, c@),
        r.1.pos <= toks.len(),
{
    if s.as_str().eq_ignore_ascii_case("auto") {
        (PageSizeDecl::Auto, c)
    } else if s.as_str().eq_ignore_ascii_case("landscape") {
        (PageSizeDecl::KeywordWithOrientation("auto".to_owned(), true), c)
    } else if s.as_str().eq_ignore_ascii_case("portrait") {
        (PageSizeDecl::KeywordWithOrientation("auto".to_owned(), false), c)
    } else {
        match read_orientation(toks, end, c) {
            Some((landscape, c1)) => (PageSizeDecl::KeywordWithOrientation(s, landscape), c1),
            None => (PageSizeDecl::Keyword(s), c),
        }
    }
}

/// The value of `size` in a page rule.
pub fn parse_page_size_value(toks: &Vec<CssToken>, end: usize, c: Cursor) -> (r: Option<
    PageSizeDecl<CssLength>,
>)
    requires
        within(toks, end, c),
    ensures
        opt_view(r) == page_size(views(toks@), end as int, c@),
{
    match read_ident(toks, end, c) {
        Some((s, c1)) => {
            let (size, c2) = read_size_keyword(toks, end, s, c1);
            if is_exhausted(toks, end, c2) {
                Some(size)
            } else {
                None
            }
        },
        None => {
            let (w, c1) = match read_positive_dimension(toks, end, c) {
                Some(r) => r,
                None => return None,
            };
            let (h, c2) = match read_positive_dimension(toks, end, c1) {
                Some(r) => r,
                None => (w, c1),
            };
            if is_exhausted(toks, end, c2) {
                Some(PageSizeDecl::Custom(w, h))
            } else {
                None
            }
        },
    }
}

/// The value of `margin` in a page rule.
pub fn parse_page_margin_value(toks: &Vec<CssToken>, end: usize, start: Cursor) -> (r: Option<
    PartialMargin<CssLength>,
>)
    requires
        within(toks, end, start),
    ensures
        r == page_margin(views(toks@), end as int, start@),
{
    let ghost vs = views(toks@);
    let ghost whole = lengths(vs, end as int, start@, Seq::empty());
    let mut values: Vec<CssLength> = Vec::new();
    let mut c = start;
    assert(values@ =~= Seq::<CssLength>::empty());
    loop
        invariant
            vs == views(toks@),
            within(toks, end, c),
            values@.len() <= 4,
            lengths(vs, end as int, c@, values@) == whole,
        ensures
            (values@, c@) == whole,
            within(toks, end, c),
        decreases 4 - values@.len(),
    {
        if values.len() >= 4 {
            break;
        }
        match parse_length_token(toks, end, c) {
            Some((l, c1)) => {
                values.push(l);
                c = c1;
            },
            None => {
                break;
            },
        }
    }
    if !is_exhausted(toks, end, c) {
        return None;
    }
    if values.len() == 1 {
        Some(PartialMargin::from_uniform(values[0]))
    } else if values.len() == 2 {
        Some(PartialMargin::from_sides(values[0], values[1], values[0], values[1]))
    } else if values.len() == 3 {
        Some(PartialMargin::from_sides(values[0], values[1], values[2], values[1]))
    } else if values.len() == 4 {
        Some(PartialMargin::from_sides(values[0], values[1], values[2], values[3]))
    } else {
        None
    }
}

/// The value of `margin-top` and the other longhands in a page rule.
pub fn parse_page_margin_longhand_value(toks: &Vec<CssToken>, end: usize, c: Cursor) -> (r: Option<
    CssLength,
>)
    requires
        within(toks, end, c),
    ensures
        r == margin_side(views(toks@), end as int, c@),
{
    match parse_length_token(toks, end, c) {
        Some((l, c1)) => if is_exhausted(toks, end, c1) {
            Some(l)
        } else {
            None
        },
        None => None,
    }
}

} // verus!
