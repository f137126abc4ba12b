//! What the values of the declarations mean, as functions of the tokens.
//!
//! Each function reads from a cursor in a range that ends at `end`. One that can
//! fail gives `None`; otherwise it gives its value and the cursor after it.

use crate::gcpm::bookmark::BookmarkLevel;
use crate::gcpm::cursor::{
    after, block_end, cur, exhausted, lemma_closer_bounds, lemma_peek, past_block, peek,
    peek_text, Cur,
};
use crate::gcpm::token::{Bracket, Lexeme, Mark, Tok, WordKind};
use crate::gcpm::{
    ContentModel, CounterOpModel, CounterStyle, CssLength, ElementPolicy, LeaderModel,
    LengthUnit, PageSizeModel, PartialMargin, SetValueModel, StringPolicy, TargetTextKind,
    TargetUrlModel,
};
use crate::text::lower;
use vstd::prelude::*;

verus! {

/// Whether two words differ at most in the case of ASCII letters.
pub open spec fn same_word(a: Seq<char>, b: Seq<char>) -> bool {
    lower(a) == lower(b)
}

/// A word of a given kind.
pub open spec fn word(toks: Seq<Tok>, end: int, c: Cur, kind: WordKind) -> Option<
    (Seq<char>, Cur),
> {
    let p = peek(toks, end, c);
    if p >= end {
        None
    } else {
        match toks[p].kind {
            Lexeme::Word(k, s) => if k == kind {
                Some((s, after(toks, p)))
            } else {
                None
            },
            _ => None,
        }
    }
}

/// An identifier.
pub open spec fn ident(toks: Seq<Tok>, end: int, c: Cur) -> Option<(Seq<char>, Cur)> {
    word(toks, end, c, WordKind::Ident)
}

/// A string literal.
pub open spec fn quoted(toks: Seq<Tok>, end: int, c: Cur) -> Option<(Seq<char>, Cur)> {
    word(toks, end, c, WordKind::Quoted)
}

/// A given mark.
pub open spec fn mark(toks: Seq<Tok>, end: int, c: Cur, m: Mark) -> Option<Cur> {
    let p = peek(toks, end, c);
    if p < end && toks[p].kind == Lexeme::Mark(m) {
        Some(after(toks, p))
    } else {
        None
    }
}

/// An integer.
pub open spec fn integer(toks: Seq<Tok>, end: int, c: Cur) -> Option<(i32, Cur)> {
    let p = peek(toks, end, c);
    if p >= end {
        None
    } else {
        match toks[p].kind {
            Lexeme::Number(_, Some(n)) => Some((n, after(toks, p))),
            _ => None,
        }
    }
}

/// `-` and an identifier that is a given word.
pub open spec fn dash_word(toks: Seq<Tok>, end: int, c: Cur, w: Seq<char>) -> Option<Cur> {
    match mark(toks, end, c, Mark::Delim('-')) {
        None => None,
        Some(c1) => match ident(toks, end, c1) {
            None => None,
            Some((s, c2)) => if same_word(s, w) {
                Some(c2)
            } else {
                None
            },
        },
    }
}

/// The name of a policy in lower case, with `first-except` also as three tokens.
pub open spec fn policy_name(toks: Seq<Tok>, end: int, c: Cur) -> Option<(Seq<char>, Cur)> {
    match ident(toks, end, c) {
        None => None,
        Some((s, c1)) => if same_word(s, "first"@) {
            match dash_word(toks, end, c1, "except"@) {
                Some(c2) => Some(("first-except"@, c2)),
                None => Some(("first"@, c1)),
            }
        } else {
            Some((lower(s), c1))
        },
    }
}

/// The string policy with a given name.
pub open spec fn string_policy_named(name: Seq<char>) -> Option<StringPolicy> {
    if name == "first"@ {
        Some(StringPolicy::First)
    } else if name == "start"@ {
        Some(StringPolicy::Start)
    } else if name == "last"@ {
        Some(StringPolicy::Last)
    } else if name == "first-except"@ {
        Some(StringPolicy::FirstExcept)
    } else {
        None
    }
}

/// The element policy with a given name.
pub open spec fn element_policy_named(name: Seq<char>) -> Option<ElementPolicy> {
    if name == "first"@ {
        Some(ElementPolicy::First)
    } else if name == "start"@ {
        Some(ElementPolicy::Start)
    } else if name == "last"@ {
        Some(ElementPolicy::Last)
    } else if name == "first-except"@ {
        Some(ElementPolicy::FirstExcept)
    } else {
        None
    }
}

/// The counter style with a given name in lower case.
pub open spec fn counter_style_named(name: Seq<char>) -> Option<CounterStyle> {
    if name == "decimal"@ {
        Some(CounterStyle::Decimal)
    } else if name == "upper-roman"@ {
        Some(CounterStyle::UpperRoman)
    } else if name == "lower-roman"@ {
        Some(CounterStyle::LowerRoman)
    } else if name == "upper-alpha"@ || name == "upper-latin"@ {
        Some(CounterStyle::UpperAlpha)
    } else if name == "lower-alpha"@ || name == "lower-latin"@ {
        Some(CounterStyle::LowerAlpha)
    } else {
        None
    }
}

/// A counter style, its name also as two identifiers around a `-`.
pub open spec fn counter_style(toks: Seq<Tok>, end: int, c: Cur) -> Option<(CounterStyle, Cur)> {
    match ident(toks, end, c) {
        None => None,
        Some((s, c1)) => match mark(toks, end, c1, Mark::Delim('-')) {
            None => match counter_style_named(lower(s)) {
                Some(style) => Some((style, c1)),
                None => None,
            },
            Some(c2) => match ident(toks, end, c2) {
                None => None,
                Some((t, c3)) => match counter_style_named(lower(s.push('-') + t)) {
                    Some(style) => Some((style, c3)),
                    None => None,
                },
            },
        },
    }
}

/// `, <counter-style>`, or decimal where that is not what follows.
pub open spec fn style_argument(toks: Seq<Tok>, end: int, c: Cur) -> (CounterStyle, Cur) {
    match mark(toks, end, c, Mark::Comma) {
        None => (CounterStyle::Decimal, c),
        Some(c1) => match counter_style(toks, end, c1) {
            Some((style, c2)) => (style, c2),
            None => (CounterStyle::Decimal, c),
        },
    }
}

/// `, <policy>` of `string()`, or `first` where that is not what follows.
pub open spec fn string_policy_argument(toks: Seq<Tok>, end: int, c: Cur) -> (StringPolicy, Cur) {
    match mark(toks, end, c, Mark::Comma) {
        None => (StringPolicy::First, c),
        Some(c1) => match policy_name(toks, end, c1) {
            None => (StringPolicy::First, c),
            Some((name, c2)) => match string_policy_named(name) {
                Some(policy) => (policy, c2),
                None => (StringPolicy::First, c),
            },
        },
    }
}

/// The policy after the comma of `element()`: `None` where there is none, with the
/// cursor after the token that was read in its place.
pub open spec fn element_policy_argument(toks: Seq<Tok>, end: int, c: Cur) -> (
    Option<ElementPolicy>,
    Cur,
) {
    match policy_name(toks, end, c) {
        Some((name, c1)) => (element_policy_named(name), c1),
        None => {
            let p = peek(toks, end, c);
            (
                None,
                if p < end {
                    after(toks, p)
                } else {
                    cur(p)
                },
            )
        },
    }
}

/// The link argument of a `target-*` function: `attr(<name>)`, a string, or a `url`.
pub open spec fn target_url(toks: Seq<Tok>, end: int, c: Cur) -> Option<(TargetUrlModel, Cur)> {
    let p = peek(toks, end, c);
    if p >= end {
        None
    } else {
        let q = block_end(toks, p + 1, Bracket::Paren);
        let next = cur(past_block(toks, p + 1, Bracket::Paren));
        match toks[p].kind {
            Lexeme::Word(WordKind::Function, name) => {
                if same_word(name, "attr"@) {
                    match ident(toks, q, cur(p + 1)) {
                        Some((s, c1)) => if exhausted(toks, q, c1) {
                            Some((TargetUrlModel::Attr(lower(s)), next))
                        } else {
                            None
                        },
                        None => None,
                    }
                } else if same_word(name, "url"@) {
                    match link_text(toks, q, cur(p + 1)) {
                        Some((s, c1)) => if exhausted(toks, q, c1) {
                            Some((TargetUrlModel::Literal(s), next))
                        } else {
                            None
                        },
                        None => None,
                    }
                } else {
                    None
                }
            },
            Lexeme::Word(WordKind::Quoted, s) => Some((TargetUrlModel::Literal(s), after(toks, p))),
            Lexeme::Word(WordKind::Url, s) => Some((TargetUrlModel::Literal(s), after(toks, p))),
            _ => None,
        }
    }
}

/// A string or an unquoted link.
pub open spec fn link_text(toks: Seq<Tok>, end: int, c: Cur) -> Option<(Seq<char>, Cur)> {
    match quoted(toks, end, c) {
        Some(r) => Some(r),
        None => word(toks, end, c, WordKind::Url),
    }
}

/// The text kind with a given name in lower case.
pub open spec fn text_kind_named(name: Seq<char>) -> Option<TargetTextKind> {
    if name == "content"@ {
        Some(TargetTextKind::Content)
    } else if name == "before"@ {
        Some(TargetTextKind::Before)
    } else if name == "after"@ {
        Some(TargetTextKind::After)
    } else if name == "first-letter"@ {
        Some(TargetTextKind::FirstLetter)
    } else {
        None
    }
}

/// `, <kind>` of `target-text()`, or `content` where that is not what follows.
pub open spec fn text_kind_argument(toks: Seq<Tok>, end: int, c: Cur) -> (TargetTextKind, Cur) {
    match mark(toks, end, c, Mark::Comma) {
        None => (TargetTextKind::Content, c),
        Some(c1) => match ident(toks, end, c1) {
            None => (TargetTextKind::Content, c),
            Some((s, c2)) => match text_kind_named(lower(s)) {
                Some(kind) => (kind, c2),
                None => (TargetTextKind::Content, c),
            },
        },
    }
}

/// What a function in a `content` list comes to: the item that it adds, if any, and
/// whether all of its arguments were read. Where they were not, the list ends
/// there.
pub ghost struct Call {
    pub item: Option<ContentModel>,
    pub complete: bool,
}

/// A function that adds an item and has been read up to a cursor.
pub open spec fn adds(toks: Seq<Tok>, end: int, item: ContentModel, c: Cur) -> Call {
    Call { item: Some(item), complete: exhausted(toks, end, c) }
}

/// A function that adds nothing and has been read up to a cursor.
pub open spec fn adds_nothing(toks: Seq<Tok>, end: int, c: Cur) -> Call {
    Call { item: None, complete: exhausted(toks, end, c) }
}

/// A function whose arguments are not what they should be.
pub open spec fn broken() -> Call {
    Call { item: None, complete: false }
}

/// The leader style that an identifier stands for: dotted for one that is not known.
pub open spec fn leader_named(name: Seq<char>) -> LeaderModel {
    if name == "solid"@ {
        LeaderModel::Solid
    } else if name == "space"@ {
        LeaderModel::Space
    } else {
        LeaderModel::Dotted
    }
}

/// `leader(<style>?)`.
pub open spec fn leader_call(toks: Seq<Tok>, end: int, c: Cur) -> Call {
    match quoted(toks, end, c) {
        Some((s, c1)) => adds(toks, end, ContentModel::Leader { style: LeaderModel::Custom(s) }, c1),
        None => match ident(toks, end, c) {
            Some((s, c1)) => adds(
                toks,
                end,
                ContentModel::Leader { style: leader_named(lower(s)) },
                c1,
            ),
            None => adds(toks, end, ContentModel::Leader { style: LeaderModel::Dotted }, c),
        },
    }
}

/// `target-counter(<url>, <name>, <style>?)`.
pub open spec fn target_counter_call(toks: Seq<Tok>, end: int, c: Cur) -> Call {
    match target_url(toks, end, c) {
        None => adds_nothing(toks, end, c),
        Some((url, c1)) => match mark(toks, end, c1, Mark::Comma) {
            None => broken(),
            Some(c2) => match ident(toks, end, c2) {
                None => broken(),
                Some((counter_name, c3)) => {
                    let (style, c4) = style_argument(toks, end, c3);
                    if exhausted(toks, end, c4) {
                        adds(
                            toks,
                            end,
                            ContentModel::TargetCounter { url, counter_name, style },
                            c4,
                        )
                    } else {
                        broken()
                    }
                },
            },
        },
    }
}

/// `target-counters(<url>, <name>, <separator>, <style>?)`.
pub open spec fn target_counters_call(toks: Seq<Tok>, end: int, c: Cur) -> Call {
    match target_url(toks, end, c) {
        None => adds_nothing(toks, end, c),
        Some((url, c1)) => match mark(toks, end, c1, Mark::Comma) {
            None => broken(),
            Some(c2) => match ident(toks, end, c2) {
                None => broken(),
                Some((counter_name, c3)) => match mark(toks, end, c3, Mark::Comma) {
                    None => broken(),
                    Some(c4) => match quoted(toks, end, c4) {
                        None => adds_nothing(toks, end, c4),
                        Some((separator, c5)) => {
                            let (style, c6) = style_argument(toks, end, c5);
                            if exhausted(toks, end, c6) {
                                adds(
                                    toks,
                                    end,
                                    ContentModel::TargetCounters {
                                        url,
                                        counter_name,
                                        separator,
                                        style,
                                    },
                                    c6,
                                )
                            } else {
                                broken()
                            }
                        },
                    },
                },
            },
        },
    }
}

/// `target-text(<url>, <kind>?)`.
pub open spec fn target_text_call(toks: Seq<Tok>, end: int, c: Cur) -> Call {
    match target_url(toks, end, c) {
        None => adds_nothing(toks, end, c),
        Some((url, c1)) => {
            let (kind, c2) = text_kind_argument(toks, end, c1);
            if exhausted(toks, end, c2) {
                adds(toks, end, ContentModel::TargetText { url, kind }, c2)
            } else {
                broken()
            }
        },
    }
}

/// What `content(<arg>)` stands for.
pub open spec fn content_argument(arg: Seq<char>) -> Option<ContentModel> {
    if arg == "text"@ {
        Some(ContentModel::ContentText)
    } else if arg == "before"@ {
        Some(ContentModel::ContentBefore)
    } else if arg == "after"@ {
        Some(ContentModel::ContentAfter)
    } else {
        None
    }
}

/// `element(<name>, <policy>?)` after the name. An unknown policy drops the item.
pub open spec fn element_call(toks: Seq<Tok>, end: int, name: Seq<char>, c: Cur) -> Call {
    match mark(toks, end, c, Mark::Comma) {
        None => adds(
            toks,
            end,
            ContentModel::Element { name, policy: ElementPolicy::First },
            c,
        ),
        Some(c1) => {
            let (policy, c2) = element_policy_argument(toks, end, c1);
            match policy {
                Some(policy) => adds(toks, end, ContentModel::Element { name, policy }, c2),
                None => adds_nothing(toks, end, c2),
            }
        },
    }
}

/// `counters(<name>, <separator>, <style>?)` after the name.
pub open spec fn counters_call(toks: Seq<Tok>, end: int, name: Seq<char>, c: Cur) -> Call {
    match mark(toks, end, c, Mark::Comma) {
        None => adds_nothing(toks, end, c),
        Some(c1) => match quoted(toks, end, c1) {
            None => adds_nothing(toks, end, c1),
            Some((separator, c2)) => {
                let (style, c3) = style_argument(toks, end, c2);
                adds(toks, end, ContentModel::Counters { name, separator, style }, c3)
            },
        },
    }
}

/// The functions whose first argument is an identifier, after it.
pub open spec fn named_call(
    toks: Seq<Tok>,
    end: int,
    function: Seq<char>,
    arg: Seq<char>,
    c: Cur,
) -> Call {
    if same_word(function, "content"@) {
        match content_argument(arg) {
            Some(item) => adds(toks, end, item, c),
            None => adds_nothing(toks, end, c),
        }
    } else if same_word(function, "attr"@) {
        adds(toks, end, ContentModel::Attr(arg), c)
    } else if same_word(function, "element"@) {
        element_call(toks, end, arg, c)
    } else if same_word(function, "counter"@) {
        let (style, c1) = style_argument(toks, end, c);
        adds(toks, end, ContentModel::Counter { name: arg, style }, c1)
    } else if same_word(function, "counters"@) {
        counters_call(toks, end, arg, c)
    } else if same_word(function, "string"@) {
        let (policy, c1) = string_policy_argument(toks, end, c);
        adds(toks, end, ContentModel::StringRef { name: arg, policy }, c1)
    } else {
        adds_nothing(toks, end, c)
    }
}

/// A function in a `content` list, with its arguments from `c` to `end`.
pub open spec fn content_call(toks: Seq<Tok>, end: int, function: Seq<char>, c: Cur) -> Call {
    if same_word(function, "leader"@) {
        leader_call(toks, end, c)
    } else if same_word(function, "content"@) && exhausted(toks, end, c) {
        adds(toks, end, ContentModel::ContentText, c)
    } else if same_word(function, "target-counter"@) {
        target_counter_call(toks, end, c)
    } else if same_word(function, "target-counters"@) {
        target_counters_call(toks, end, c)
    } else if same_word(function, "target-text"@) {
        target_text_call(toks, end, c)
    } else {
        match ident(toks, end, c) {
            None => broken(),
            Some((arg, c1)) => named_call(toks, end, function, arg, c1),
        }
    }
}

/// A list with an optional item more.
pub open spec fn with_item<T>(items: Seq<T>, item: Option<T>) -> Seq<T> {
    match item {
        Some(i) => items.push(i),
        None => items,
    }
}

/// The items of a `content` list from a cursor on, after those read before, and the
/// cursor where the list ends. Tokens that are no item are passed over; a function
/// that is not read completely ends the list before it.
pub open spec fn content_items(
    toks: Seq<Tok>,
    end: int,
    c: Cur,
    items: Seq<ContentModel>,
) -> (Seq<ContentModel>, Cur)
    decreases toks.len() - c.pos,
{
    if c.pos < 0 || c.pos > toks.len() || end > toks.len() || exhausted(toks, end, c) {
        (items, c)
    } else {
        let p = peek_text(toks, end, c);
        proof {
            lemma_peek(toks, end, c);
        }
        if p >= end {
            (items, c)
        } else {
            match toks[p].kind {
                Lexeme::Word(WordKind::Quoted, s) => content_items(
                    toks,
                    end,
                    after(toks, p),
                    items.push(ContentModel::String(s)),
                ),
                Lexeme::Word(WordKind::Function, function) => {
                    let call = content_call(
                        toks,
                        block_end(toks, p + 1, Bracket::Paren),
                        function,
                        cur(p + 1),
                    );
                    proof {
                        lemma_closer_bounds(toks, p + 1, seq![Bracket::Paren]);
                    }
                    if call.complete {
                        content_items(
                            toks,
                            end,
                            cur(past_block(toks, p + 1, Bracket::Paren)),
                            with_item(items, call.item),
                        )
                    } else {
                        (with_item(items, call.item), c)
                    }
                },
                _ => content_items(toks, end, after(toks, p), items),
            }
        }
    }
}

/// What a function in a `string-set` list comes to: the value that it adds, if any,
/// and whether all of its arguments were read.
pub open spec fn set_call(toks: Seq<Tok>, end: int, function: Seq<char>, c: Cur) -> (
    Option<SetValueModel>,
    bool,
) {
    if same_word(function, "content"@) {
        match ident(toks, end, c) {
            None => (None, false),
            Some((arg, c1)) => (
                if arg == "text"@ {
                    Some(SetValueModel::ContentText)
                } else if arg == "before"@ {
                    Some(SetValueModel::ContentBefore)
                } else if arg == "after"@ {
                    Some(SetValueModel::ContentAfter)
                } else {
                    None
                },
                exhausted(toks, end, c1),
            ),
        }
    } else if same_word(function, "attr"@) {
        match ident(toks, end, c) {
            None => (None, false),
            Some((arg, c1)) => (Some(SetValueModel::Attr(arg)), exhausted(toks, end, c1)),
        }
    } else {
        (None, exhausted(toks, end, c))
    }
}

/// The values of a `string-set` list from a cursor on, after those read before, and
/// the cursor where the list ends.
pub open spec fn set_values(
    toks: Seq<Tok>,
    end: int,
    c: Cur,
    values: Seq<SetValueModel>,
) -> (Seq<SetValueModel>, Cur)
    decreases toks.len() - c.pos,
{
    if c.pos < 0 || c.pos > toks.len() || end > toks.len() || exhausted(toks, end, c) {
        (values, c)
    } else {
        let p = peek_text(toks, end, c);
        proof {
            lemma_peek(toks, end, c);
        }
        if p >= end {
            (values, c)
        } else {
            match toks[p].kind {
                Lexeme::Word(WordKind::Quoted, s) => set_values(
                    toks,
                    end,
                    after(toks, p),
                    values.push(SetValueModel::Literal(s)),
                ),
                Lexeme::Word(WordKind::Function, function) => {
                    let (value, complete) = set_call(
                        toks,
                        block_end(toks, p + 1, Bracket::Paren),
                        function,
                        cur(p + 1),
                    );
                    proof {
                        lemma_closer_bounds(toks, p + 1, seq![Bracket::Paren]);
                    }
                    if complete {
                        set_values(
                            toks,
                            end,
                            cur(past_block(toks, p + 1, Bracket::Paren)),
                            with_item(values, value),
                        )
                    } else {
                        (with_item(values, value), c)
                    }
                },
                _ => set_values(toks, end, after(toks, p), values),
            }
        }
    }
}

/// `<name> <value>+`.
pub open spec fn string_set(toks: Seq<Tok>, end: int, c: Cur) -> Option<
    ((Seq<char>, Seq<SetValueModel>), Cur),
> {
    match ident(toks, end, c) {
        None => None,
        Some((name, c1)) => {
            let (values, c2) = set_values(toks, end, c1, Seq::empty());
            if values.len() == 0 {
                None
            } else {
                Some(((name, values), c2))
            }
        },
    }
}

/// The operation of a counter property on one counter. Where the style sheet gives
/// no value, incrementing is by 1 and the others are to 0.
pub open spec fn counter_op(property: Seq<char>, name: Seq<char>, value: Option<i32>) -> CounterOpModel {
    if same_word(property, "counter-reset"@) {
        CounterOpModel::Reset { name, value: value.unwrap_or(0) }
    } else if same_word(property, "counter-increment"@) {
        CounterOpModel::Increment { name, value: value.unwrap_or(1) }
    } else {
        CounterOpModel::SetTo { name, value: value.unwrap_or(0) }
    }
}

/// The operations of a counter property from a cursor on, after those read before,
/// and the cursor where they end: at `none`, or before what is no identifier.
pub open spec fn counter_ops(
    toks: Seq<Tok>,
    end: int,
    c: Cur,
    property: Seq<char>,
    ops: Seq<CounterOpModel>,
) -> (Seq<CounterOpModel>, Cur)
    decreases toks.len() - c.pos,
{
    if c.pos < 0 || c.pos > toks.len() || end > toks.len() {
        (ops, c)
    } else {
        match ident(toks, end, c) {
            None => (ops, c),
            Some((name, c1)) => {
                proof {
                    lemma_peek(toks, end, c);
                    lemma_peek(toks, end, c1);
                }
                if same_word(name, "none"@) {
                    (ops, c1)
                } else {
                    match integer(toks, end, c1) {
                        Some((value, c2)) => counter_ops(
                            toks,
                            end,
                            c2,
                            property,
                            ops.push(counter_op(property, name, Some(value))),
                        ),
                        None => counter_ops(
                            toks,
                            end,
                            c1,
                            property,
                            ops.push(counter_op(property, name, None)),
                        ),
                    }
                }
            },
        }
    }
}

/// A bookmark level: a positive integer, those above 255 taken for 255, or `none`.
pub open spec fn bookmark_level(toks: Seq<Tok>, end: int, c: Cur) -> Option<BookmarkLevel> {
    let p = peek(toks, end, c);
    if p >= end {
        None
    } else {
        match toks[p].kind {
            Lexeme::Number(_, Some(n)) => if n > 255 {
                Some(BookmarkLevel::Integer(255))
            } else if n >= 1 {
                Some(BookmarkLevel::Integer(n as u8))
            } else {
                None
            },
            Lexeme::Word(WordKind::Ident, s) => if same_word(s, "none"@) {
                Some(BookmarkLevel::None_)
            } else {
                None
            },
            _ => None,
        }
    }
}

/// The name in `running(<name>)`, and the cursor after it.
pub open spec fn running_name(toks: Seq<Tok>, end: int, c: Cur) -> Option<(Seq<char>, Cur)> {
    match word(toks, end, c, WordKind::Function) {
        None => None,
        Some((function, c1)) => {
            let q = block_end(toks, c1.pos, Bracket::Paren);
            if !same_word(function, "running"@) {
                None
            } else {
                match ident(toks, q, cur(c1.pos)) {
                    Some((name, c2)) => if exhausted(toks, q, c2) {
                        Some((name, cur(past_block(toks, c1.pos, Bracket::Paren))))
                    } else {
                        None
                    },
                    None => None,
                }
            }
        },
    }
}

/// The unit with a given name, in any case of its letters.
pub open spec fn unit_named(name: Seq<char>) -> Option<LengthUnit> {
    if same_word(name, "mm"@) {
        Some(LengthUnit::Mm)
    } else if same_word(name, "cm"@) {
        Some(LengthUnit::Cm)
    } else if same_word(name, "in"@) {
        Some(LengthUnit::In)
    } else if same_word(name, "pt"@) {
        Some(LengthUnit::Pt)
    } else if same_word(name, "px"@) {
        Some(LengthUnit::Px)
    } else {
        None
    }
}

/// Whether the single with these bits is greater than zero, infinity among them.
pub open spec fn positive(bits: u32) -> bool {
    0 < bits <= 0x7f80_0000
}

/// Whether the single with these bits is zero, of either sign.
pub open spec fn zero(bits: u32) -> bool {
    bits == 0 || bits == 0x8000_0000
}

/// A length with a unit.
pub open spec fn dimension(k: Lexeme) -> Option<CssLength> {
    match k {
        Lexeme::Dimension(bits, unit) => match unit_named(unit) {
            Some(unit) => Some(CssLength { bits, unit }),
            None => None,
        },
        _ => None,
    }
}

/// A length with a unit that is greater than zero.
pub open spec fn positive_dimension(toks: Seq<Tok>, end: int, c: Cur) -> Option<(CssLength, Cur)> {
    let p = peek(toks, end, c);
    if p >= end {
        None
    } else {
        match dimension(toks[p].kind) {
            Some(l) => if positive(l.bits) {
                Some((l, after(toks, p)))
            } else {
                None
            },
            None => None,
        }
    }
}

/// A length: a number with a unit, or a bare zero.
pub open spec fn length(toks: Seq<Tok>, end: int, c: Cur) -> Option<(CssLength, Cur)> {
    let p = peek(toks, end, c);
    if p >= end {
        None
    } else {
        match toks[p].kind {
            Lexeme::Number(bits, _) => if zero(bits) {
                Some((CssLength { bits: 0, unit: LengthUnit::Pt }, after(toks, p)))
            } else {
                None
            },
            k => match dimension(k) {
                Some(l) => Some((l, after(toks, p))),
                None => None,
            },
        }
    }
}

/// `landscape` or `portrait`: whether it is the first.
pub open spec fn orientation(toks: Seq<Tok>, end: int, c: Cur) -> Option<(bool, Cur)> {
    match ident(toks, end, c) {
        None => None,
        Some((s, c1)) => if same_word(s, "landscape"@) {
            Some((true, c1))
        } else if same_word(s, "portrait"@) {
            Some((false, c1))
        } else {
            None
        },
    }
}

/// A page size that starts with an identifier, and the cursor after it.
pub open spec fn size_keyword(toks: Seq<Tok>, end: int, s: Seq<char>, c: Cur) -> (
    PageSizeModel<CssLength>,
    Cur,
) {
    if same_word(s, "auto"@) {
        (PageSizeModel::Auto, c)
    } else if same_word(s, "landscape"@) {
        (PageSizeModel::KeywordWithOrientation("auto"@, true), c)
    } else if same_word(s, "portrait"@) {
        (PageSizeModel::KeywordWithOrientation("auto"@, false), c)
    } else {
        match orientation(toks, end, c) {
            Some((landscape, c1)) => (PageSizeModel::KeywordWithOrientation(s, landscape), c1),
            None => (PageSizeModel::Keyword(s), c),
        }
    }
}

/// The value of `size`: a keyword with or without an orientation, or one or two
/// lengths greater than zero, and nothing after it.
pub open spec fn page_size(toks: Seq<Tok>, end: int, c: Cur) -> Option<PageSizeModel<CssLength>> {
    match ident(toks, end, c) {
        Some((s, c1)) => {
            let (size, c2) = size_keyword(toks, end, s, c1);
            if exhausted(toks, end, c2) {
                Some(size)
            } else {
                None
            }
        },
        None => match positive_dimension(toks, end, c) {
            None => None,
            Some((w, c1)) => {
                let (h, c2) = match positive_dimension(toks, end, c1) {
                    Some((h, c2)) => (h, c2),
                    None => (w, c1),
                };
                if exhausted(toks, end, c2) {
                    Some(PageSizeModel::Custom(w, h))
                } else {
                    None
                }
            },
        },
    }
}

/// Up to four lengths in all, after those read before.
pub open spec fn lengths(toks: Seq<Tok>, end: int, c: Cur, values: Seq<CssLength>) -> (
    Seq<CssLength>,
    Cur,
)
    decreases 4 - values.len(),
{
    if values.len() >= 4 {
        (values, c)
    } else {
        match length(toks, end, c) {
            Some((l, c1)) => lengths(toks, end, c1, values.push(l)),
            None => (values, c),
        }
    }
}

/// The four sides that one to four values of a shorthand stand for.
pub open spec fn four_sides(v: Seq<CssLength>) -> Option<PartialMargin<CssLength>> {
    let sides = |t: CssLength, r: CssLength, b: CssLength, l: CssLength|
        PartialMargin { top: Some(t), right: Some(r), bottom: Some(b), left: Some(l) };
    if v.len() == 1 {
        Some(sides(v[0], v[0], v[0], v[0]))
    } else if v.len() == 2 {
        Some(sides(v[0], v[1], v[0], v[1]))
    } else if v.len() == 3 {
        Some(sides(v[0], v[1], v[2], v[1]))
    } else if v.len() == 4 {
        Some(sides(v[0], v[1], v[2], v[3]))
    } else {
        None
    }
}

/// The value of `margin`: one to four lengths, and nothing after them.
pub open spec fn page_margin(toks: Seq<Tok>, end: int, c: Cur) -> Option<PartialMargin<CssLength>> {
    let (values, c1) = lengths(toks, end, c, Seq::empty());
    if exhausted(toks, end, c1) {
        four_sides(values)
    } else {
        None
    }
}

/// The value of a margin longhand: one length, and nothing after it.
pub open spec fn margin_side(toks: Seq<Tok>, end: int, c: Cur) -> Option<CssLength> {
    match length(toks, end, c) {
        Some((l, c1)) => if exhausted(toks, end, c1) {
            Some(l)
        } else {
            None
        },
        None => None,
    }
}

} // verus!
