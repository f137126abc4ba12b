//! Extracts generated content for paged media from a style sheet.
//!
//! - `position: running(<name>)` becomes `display: none` in the cleaned style sheet.
//! - Page rules with their margin boxes are taken out of it.
//! - So are the declarations of counters, named strings and generated content that
//!   only this library resolves.
//! - All other text is kept as it is.

use crate::gcpm::bookmark::{content_views, BookmarkLevel, BookmarkMapping};
use crate::gcpm::cursor::{cursor_at, is_exhausted, look, pass, Cursor};
use crate::gcpm::edits::{law_unchanged_sheets_are_kept, lemma_order_keeps_len};
use crate::gcpm::grammar::counter_ops;
use crate::gcpm::margin_box::MarginBoxPosition;
use crate::gcpm::rules::{
    all_strings, cleaned, declare, declare_all, declare_all_in_box, declare_in_page, dynamic,
    edit_place, edits_of, gcpm_of, has_dynamic, in_source_order, joined_strings,
    nothing_declared, of_other_properties,
    page_items, page_prelude, page_pseudo, pseudo_element, redeclared_ops, same_property,
    simple_selector, style_prelude, with_page_rule, with_rule, with_rules, with_style_rule,
    write_edits, Declared, EditModel, PageDeclared, Progress,
};
use crate::gcpm::sheet::{
    body_items, find_body_items, find_rules, item_fits, rule_fits, BodyItem, SheetRule,
};
use crate::gcpm::token::{
    css_tokens, source, tokenize, Bracket, CssToken, Mark, Tok, TokenKind, WordKind,
};
use crate::gcpm::values::{
    parse_bookmark_level_value, parse_content_value, parse_counter_ops,
    parse_page_margin_longhand_value, parse_page_margin_value, parse_page_size_value,
    parse_running_name, parse_string_set_value, plain, read_ident, read_mark, within,
};
use crate::gcpm::{
    ContentCounterMapping, ContentItem, CounterMapping, CounterOp, CssLength, GcpmContext,
    MarginBoxRule, PageSettingsRule, PageSizeDecl, ParsedSelector, PartialMargin, PseudoElement,
    RunningMapping, StaticContentMapping, StringSetMapping, StringSetValue,
};
use crate::model::{group_views, opt_view, views};
use crate::text::trimmed;
use vstd::prelude::*;

verus! {

broadcast use group_views;

/// A change to the style sheet, as a range of tokens.
pub enum CssEdit {
    /// Takes out a page rule, up to its closing bracket.
    Remove { start: usize, end: usize },
    /// Replaces a declaration.
    Replace { start: usize, end: usize, replacement: String },
}

impl View for CssEdit {
    type V = EditModel;

    open spec fn view(&self) -> EditModel {
        match self {
            CssEdit::Remove { start, end } => EditModel {
                start: *start as int,
                end: *end as int,
                replacement: None,
            },
            CssEdit::Replace { start, end, replacement } => EditModel {
                start: *start as int,
                end: *end as int,
                replacement: Some(replacement@),
            },
        }
    }
}

/// Whether all edits start within a list of `n` tokens.
pub open spec fn edits_fit(edits: Seq<CssEdit>, n: int) -> bool {
    forall|k: int| 0 <= k < edits.len() ==> (#[trigger] edits[k])@.start <= n
}

/// What the declarations of a style rule have said so far.
struct StyleState {
    running: Option<String>,
    string_set: Option<(String, Vec<StringSetValue>)>,
    counter_ops: Vec<CounterOp>,
    content: Option<Vec<ContentItem>>,
    static_content: Option<String>,
    level: Option<BookmarkLevel>,
    label: Option<Vec<ContentItem>>,
    edits: Vec<CssEdit>,
}

impl View for StyleState {
    type V = Declared;

    closed spec fn view(&self) -> Declared {
        Declared {
            running: opt_view(self.running),
            string_set: match self.string_set {
                Some((name, values)) => Some((name@, views(values@))),
                None => None,
            },
            counter_ops: views(self.counter_ops@),
            content: content_views(self.content),
            static_content: opt_view(self.static_content),
            level: self.level,
            label: content_views(self.label),
            edits: views(self.edits@),
        }
    }
}

fn is_same_property(a: &CounterOp, b: &CounterOp) -> (r: bool)
    ensures
        r == same_property(a@, b@),
{
    match (a, b) {
        (CounterOp::Reset { .. }, CounterOp::Reset { .. }) => true,
        (CounterOp::Increment { .. }, CounterOp::Increment { .. }) => true,
        (CounterOp::SetTo { .. }, CounterOp::SetTo { .. }) => true,
        _ => false,
    }
}

/// Replaces the operations of one property by those of a later declaration of it, if it
/// has any.
fn redeclare_ops(ops: Vec<CounterOp>, new: Vec<CounterOp>) -> (r: Vec<CounterOp>)
    ensures
        views(r@) == redeclared_ops(views(ops@), views(new@)),
{
    if new.len() == 0 {
        return ops;
    }
    let mut kept: Vec<CounterOp> = Vec::new();
    let ghost vs = views(ops@);
    let ghost first = new@[0]@;
    let mut i: usize = 0;
    let n = ops.len();
    while i < n
        invariant
            i <= n,
            n == ops@.len(),
            new@.len() > 0,
            first == new@[0]@,
            vs == views(ops@),
            views(kept@) == of_other_properties(vs.take(i as int), first),
        decreases n - i,
    {
        assert(vs.take(i + 1).drop_last() =~= vs.take(i as int));
        assert(vs.take(i + 1).last() == ops@[i as int]@);
        if !is_same_property(&ops[i], &new[0]) {
            kept.push(ops[i].duplicate());
        }
        i += 1;
    }
    assert(vs.take(n as int) =~= vs);
    let mut new = new;
    kept.append(&mut new);
    kept
}

fn is_dynamic(item: &ContentItem) -> (r: bool)
    ensures
        r == dynamic(item@),
{
    match item {
        ContentItem::Counter { .. } => true,
        ContentItem::Counters { .. } => true,
        ContentItem::TargetCounter { .. } => true,
        ContentItem::TargetCounters { .. } => true,
        ContentItem::TargetText { .. } => true,
        _ => false,
    }
}

/// Whether a list has an item whose value depends on the element.
fn any_dynamic(items: &Vec<ContentItem>) -> (r: bool)
    ensures
        r == has_dynamic(views(items@)),
{
    let ghost vs = views(items@);
    let mut i: usize = 0;
    while i < items.len()
        invariant
            i <= items.len(),
            vs == views(items@),
            forall|k: int| 0 <= k < i ==> !dynamic(#[trigger] vs[k]),
        decreases items.len() - i,
    {
        if is_dynamic(&items[i]) {
            assert(dynamic(vs[i as int]));
            return true;
        }
        assert(!dynamic(vs[i as int]));
        i += 1;
    }
    false
}

/// The joined text of a list of string literals, or `None` where an item is
/// something else.
fn join_strings(items: &Vec<ContentItem>) -> (r: Option<String>)
    ensures
        match r {
            Some(s) => all_strings(views(items@)) && s@ == joined_strings(views(items@)),
            None => !all_strings(views(items@)),
        },
{
    let ghost vs = views(items@);
    let mut text = String::new();
    let mut i: usize = 0;
    while i < items.len()
        invariant
            i <= items.len(),
            vs == views(items@),
            forall|k: int| 0 <= k < i ==> (#[trigger] vs[k]) is String,
            text@ == joined_strings(vs.take(i as int)),
        decreases items.len() - i,
    {
        assert(vs[i as int] == items@[i as int]@);
        assert(vs.take(i + 1).drop_last() =~= vs.take(i as int));
        assert(vs.take(i + 1).last() == vs[i as int]);
        match &items[i] {
            ContentItem::String(s) => {
                text.append(s.as_str());
            },
            _ => {
                assert(!(vs[i as int] is String));
                return None;
            },
        }
        i += 1;
    }
    assert(vs.take(items.len() as int) =~= vs);
    Some(text)
}

/// The declaration of one style property.
fn parse_style_declaration(
    toks: &Vec<CssToken>,
    st: StyleState,
    name: &str,
    start: usize,
    c: Cursor,
    end: usize,
    has_pseudo: bool,
) -> (r: StyleState)
    requires
        within(toks, end, c),
        start <= toks.len(),
        edits_fit(st.edits@, toks.len() as int),
    ensures
        r@ == declare(views(toks@), st@, name@, start as int, c@, end as int, has_pseudo),
        edits_fit(r.edits@, toks.len() as int),
{
    let mut st = st;
    let ghost before = st@;
    if name.eq_ignore_ascii_case("position") {
        match parse_running_name(toks, end, c) {
            Some((n, c1)) => {
                st.running = Some(n);
                st.edits.push(
                    CssEdit::Replace { start, end: c1.pos, replacement: "display: none".to_owned() },
                );
            },
            None => {},
        }
    } else if name.eq_ignore_ascii_case("string-set") {
        match parse_string_set_value(toks, end, c) {
            Some((set, c1)) => {
                st.string_set = Some(set);
                st.edits.push(
                    CssEdit::Replace { start, end: c1.pos, replacement: String::new() },
                );
            },
            None => {},
        }
    } else if name.eq_ignore_ascii_case("counter-reset") || name.eq_ignore_ascii_case(
        "counter-increment",
    ) || name.eq_ignore_ascii_case("counter-set") {
        let (ops, c1) = parse_counter_ops(toks, end, c, name);
        st.counter_ops = redeclare_ops(st.counter_ops, ops);
        st.edits.push(CssEdit::Replace { start, end: c1.pos, replacement: String::new() });
    } else if name.eq_ignore_ascii_case("bookmark-level") {
        match parse_bookmark_level_value(toks, end, c) {
            Some(level) => {
                st.level = Some(level);
            },
            None => {},
        }
    } else if name.eq_ignore_ascii_case("bookmark-label") {
        let (items, _) = parse_content_value(toks, end, c);
        st.label = Some(items);
    } else if name.eq_ignore_ascii_case("content") && has_pseudo {
        let (items, c1) = parse_content_value(toks, end, c);
        let edit = CssEdit::Replace { start, end: c1.pos, replacement: String::new() };
        let dynamic_list = any_dynamic(&items);
        match join_strings(&items) {
            Some(text) => {
                if items.len() > 1 {
                    st.content = None;
                    st.static_content = Some(text);
                    st.edits.push(edit);
                    return st;
                }
            },
            None => {},
        }
        if dynamic_list || items.len() > 1 {
            st.content = Some(items);
            st.static_content = None;
            st.edits.push(edit);
        } else {
            st.content = None;
            st.static_content = None;
        }
    }
    st
}

/// The block of a style rule.
fn parse_style_block(
    toks: &Vec<CssToken>,
    start: usize,
    end: usize,
    has_pseudo: bool,
    edits: Vec<CssEdit>,
) -> (r: StyleState)
    requires
        start <= toks.len(),
        end <= toks.len(),
        edits_fit(edits@, toks.len() as int),
    ensures
        ({
            let items = body_items(views(toks@), start as int, end as int, Seq::empty());
            r@ == declare_all(
                views(toks@),
                nothing_declared(views(edits@)),
                items,
                items.len() as int,
                has_pseudo,
            )
        }),
        edits_fit(r.edits@, toks.len() as int),
{
    let ghost vs = views(toks@);
    let ghost initial = nothing_declared(views(edits@));
    let items = find_body_items(toks, start, end);
    let ghost all = views(items@);
    let mut st = StyleState {
        running: None,
        string_set: None,
        counter_ops: Vec::new(),
        content: None,
        static_content: None,
        level: None,
        label: None,
        edits,
    };
    assert(st@ == initial);
    let mut k: usize = 0;
    while k < items.len()
        invariant
            k <= items.len(),
            vs == views(toks@),
            all == views(items@),
            forall|j: int|
                0 <= j < items@.len() ==> item_fits((#[trigger] items@[j])@, toks.len() as int),
            st@ == declare_all(vs, initial, all, k as int, has_pseudo),
            edits_fit(st.edits@, toks.len() as int),
        decreases items.len() - k,
    {
        assert(all[k as int] == items@[k as int]@);
        assert(item_fits(items@[k as int]@, toks.len() as int));
        match &items[k] {
            BodyItem::Declaration { name, start, value, end } => {
                st =
                parse_style_declaration(
                    toks,
                    st,
                    name.as_str(),
                    *start,
                    cursor_at(*value),
                    *end,
                    has_pseudo,
                );
            },
            BodyItem::AtRule { .. } => {},
        }
        k += 1;
    }
    st
}

fn read_pseudo(toks: &Vec<CssToken>, end: usize, c: Cursor) -> (r: Option<(PseudoElement, Cursor)>)
    requires
        within(toks, end, c),
    ensures
        plain(r) == pseudo_element(views(toks@), end as int, c@),
        r matches Some((_, c1)) ==> c1.pos <= toks.len(),
{
    let c1 = match read_mark(toks, end, c, Mark::Colon) {
        Some(c1) => c1,
        None => return None,
    };
    let c2 = match read_mark(toks, end, c1, Mark::Colon) {
        Some(c2) => c2,
        None => return None,
    };
    match read_ident(toks, end, c2) {
        Some((s, c3)) => if s.as_str().eq_ignore_ascii_case("before") {
            Some((PseudoElement::Before, c3))
        } else if s.as_str().eq_ignore_ascii_case("after") {
            Some((PseudoElement::After, c3))
        } else {
            None
        },
        None => None,
    }
}

fn read_selector(toks: &Vec<CssToken>, end: usize, c: Cursor) -> (r: Option<
    (ParsedSelector, Cursor),
>)
    requires
        within(toks, end, c),
    ensures
        opt_view(r) == simple_selector(views(toks@), end as int, c@),
        r matches Some((_, c1)) ==> c1.pos <= toks.len(),
{
    let p = look(toks, end, c);
    if p >= end {
        return None;
    }
    assert(views(toks@)[p as int].kind == toks@[p as int].kind@);
    match &toks[p].kind {
        TokenKind::Mark(Mark::Delim('.')) => match read_ident(toks, end, pass(toks, p)) {
            Some((s, c1)) => Some((ParsedSelector::Class(s), c1)),
            None => None,
        },
        TokenKind::Word(WordKind::IdHash, s) => Some(
            (ParsedSelector::Id(s.clone()), pass(toks, p)),
        ),
        TokenKind::Word(WordKind::Ident, s) => Some(
            (ParsedSelector::Tag(s.clone()), pass(toks, p)),
        ),
        _ => None,
    }
}

/// The prelude of a style rule.
fn parse_style_prelude(toks: &Vec<CssToken>, start: usize, end: usize) -> (r: Option<
    (ParsedSelector, Option<PseudoElement>),
>)
    requires
        start <= toks.len(),
        end <= toks.len(),
    ensures
        match r {
            Some((s, p)) => style_prelude(views(toks@), start as int, end as int) == Some((s@, p)),
            None => style_prelude(views(toks@), start as int, end as int) is None,
        },
{
    let (selector, c1) = match read_selector(toks, end, cursor_at(start)) {
        Some(r) => r,
        None => return None,
    };
    match read_pseudo(toks, end, c1) {
        Some((pseudo, c2)) => if is_exhausted(toks, end, c2) {
            Some((selector, Some(pseudo)))
        } else {
            None
        },
        None => if is_exhausted(toks, end, c1) {
            Some((selector, None))
        } else {
            None
        },
    }
}

/// Appends the source text of a run of tokens.
fn append_source(out: &mut String, toks: &Vec<CssToken>, from: usize, to: usize)
    requires
        from <= to <= toks.len(),
    ensures
        final(out)@ == old(out)@ + source(views(toks@).subrange(from as int, to as int)),
{
    let ghost vs = views(toks@);
    let ghost lead = out@;
    let mut i: usize = from;
    assert(vs.subrange(from as int, from as int) =~= Seq::<Tok>::empty());
    assert(lead + source(Seq::<Tok>::empty()) =~= lead);
    while i < to
        invariant
            from <= i <= to <= toks.len(),
            vs == views(toks@),
            out@ == lead + source(vs.subrange(from as int, i as int)),
        decreases to - i,
    {
        let ghost longer = vs.subrange(from as int, i + 1);
        assert(longer.drop_last() =~= vs.subrange(from as int, i as int));
        assert(longer.last() == toks@[i as int]@);
        out.append(toks[i].text.as_str());
        assert(out@ =~= lead + source(longer));
        i += 1;
    }
}

/// The text of a declaration value without the white space around it.
fn value_text(toks: &Vec<CssToken>, value: usize, end: usize) -> (r: String)
    requires
        value <= toks.len(),
        end <= toks.len(),
    ensures
        r@ == (if value <= end {
            trimmed(source(views(toks@).subrange(value as int, end as int)))
        } else {
            Seq::empty()
        }),
{
    if value > end {
        return String::new();
    }
    let mut text = String::new();
    append_source(&mut text, toks, value, end);
    assert(text@ =~= source(views(toks@).subrange(value as int, end as int)));
    text.as_str().trim().to_owned()
}

/// The block of a margin box: its content, and its other declarations as text.
fn parse_box_block(toks: &Vec<CssToken>, start: usize, end: usize) -> (r: (Vec<ContentItem>, String))
    requires
        start <= toks.len(),
        end <= toks.len(),
    ensures
        ({
            let items = body_items(views(toks@), start as int, end as int, Seq::empty());
            let b = declare_all_in_box(views(toks@), items, items.len() as int);
            views(r.0@) == b.content && r.1@ == b.declarations
        }),
{
    let ghost vs = views(toks@);
    let items = find_body_items(toks, start, end);
    let ghost all = views(items@);
    let mut content: Vec<ContentItem> = Vec::new();
    let mut declarations = String::new();
    let mut k: usize = 0;
    while k < items.len()
        invariant
            k <= items.len(),
            vs == views(toks@),
            all == views(items@),
            forall|j: int|
                0 <= j < items@.len() ==> item_fits((#[trigger] items@[j])@, toks.len() as int),
            views(content@) == declare_all_in_box(vs, all, k as int).content,
            declarations@ == declare_all_in_box(vs, all, k as int).declarations,
        decreases items.len() - k,
    {
        assert(all[k as int] == items@[k as int]@);
        assert(item_fits(items@[k as int]@, toks.len() as int));
        match &items[k] {
            BodyItem::Declaration { name, start: _, value, end } => {
                if name.as_str().eq_ignore_ascii_case("content") {
                    let (list, _) = parse_content_value(toks, *end, cursor_at(*value));
                    content = list;
                } else {
                    let text = value_text(toks, *value, *end);
                    if !declarations.as_str().is_empty() {
                        declarations.append("; ");
                    }
                    declarations.append(name.as_str());
                    declarations.append(": ");
                    declarations.append(text.as_str());
                }
            },
            BodyItem::AtRule { .. } => {},
        }
        k += 1;
    }
    (content, declarations)
}

/// A copy of an optional string.
fn duplicate_text(s: &Option<String>) -> (r: Option<String>)
    ensures
        opt_view(r) == opt_view(*s),
{
    match s {
        Some(t) => Some(t.clone()),
        None => None,
    }
}

/// What the block of a page rule has said so far.
struct PageState {
    boxes: Vec<MarginBoxRule>,
    size: Option<PageSizeDecl<CssLength>>,
    margin: PartialMargin<CssLength>,
}

impl View for PageState {
    type V = PageDeclared;

    closed spec fn view(&self) -> PageDeclared {
        PageDeclared {
            boxes: views(self.boxes@),
            size: opt_view(self.size),
            margin: self.margin,
        }
    }
}

/// The declaration of one property of a page rule.
fn parse_page_declaration(
    toks: &Vec<CssToken>,
    p: PageState,
    name: &str,
    c: Cursor,
    end: usize,
) -> (r: PageState)
    requires
        within(toks, end, c),
    ensures
        r@ == declare_in_page(views(toks@), p@, name@, c@, end as int),
{
    let mut p = p;
    if name.eq_ignore_ascii_case("size") {
        match parse_page_size_value(toks, end, c) {
            Some(size) => {
                p.size = Some(size);
            },
            None => {},
        }
        return p;
    }
    if name.eq_ignore_ascii_case("margin") {
        match parse_page_margin_value(toks, end, c) {
            Some(m) => {
                let mut margin = p.margin;
                margin.merge(&m);
                p.margin = margin;
            },
            None => {},
        }
        return p;
    }
    let side = parse_page_margin_longhand_value(toks, end, c);
    if side.is_some() {
        if name.eq_ignore_ascii_case("margin-top") {
            p.margin.top = side;
        } else if name.eq_ignore_ascii_case("margin-right") {
            p.margin.right = side;
        } else if name.eq_ignore_ascii_case("margin-bottom") {
            p.margin.bottom = side;
        } else if name.eq_ignore_ascii_case("margin-left") {
            p.margin.left = side;
        }
    }
    p
}

/// The block of a page rule.
fn parse_page_block(
    toks: &Vec<CssToken>,
    page_selector: &Option<String>,
    start: usize,
    end: usize,
) -> (r: PageState)
    requires
        start <= toks.len(),
        end <= toks.len(),
    ensures
        ({
            let items = body_items(views(toks@), start as int, end as int, Seq::empty());
            r@ == page_items(views(toks@), opt_view(*page_selector), items, items.len() as int)
        }),
{
    let ghost vs = views(toks@);
    let ghost selector = opt_view(*page_selector);
    let items = find_body_items(toks, start, end);
    let ghost all = views(items@);
    let mut p = PageState { boxes: Vec::new(), size: None, margin: PartialMargin::default() };
    let mut k: usize = 0;
    while k < items.len()
        invariant
            k <= items.len(),
            vs == views(toks@),
            all == views(items@),
            selector == opt_view(*page_selector),
            forall|j: int|
                0 <= j < items@.len() ==> item_fits((#[trigger] items@[j])@, toks.len() as int),
            p@ == page_items(vs, selector, all, k as int),
        decreases items.len() - k,
    {
        assert(all[k as int] == items@[k as int]@);
        assert(item_fits(items@[k as int]@, toks.len() as int));
        match &items[k] {
            BodyItem::Declaration { name, start: _, value, end } => {
                p = parse_page_declaration(toks, p, name.as_str(), cursor_at(*value), *end);
            },
            BodyItem::AtRule { name, start: _, prelude, open, close } => {
                match MarginBoxPosition::from_at_keyword(name.as_str()) {
                    Some(position) => {
                        if is_exhausted(toks, *open, cursor_at(*prelude)) {
                            let (content, declarations) = parse_box_block(toks, *open + 1, *close);
                            p.boxes.push(
                                MarginBoxRule {
                                    page_selector: duplicate_text(page_selector),
                                    position,
                                    content,
                                    declarations,
                                },
                            );
                        }
                    },
                    None => {},
                }
            },
        }
        k += 1;
    }
    p
}

fn read_page_pseudo(toks: &Vec<CssToken>, end: usize, c: Cursor) -> (r: Option<(String, Cursor)>)
    requires
        within(toks, end, c),
    ensures
        opt_view(r) == page_pseudo(views(toks@), end as int, c@),
        r matches Some((_, c1)) ==> c1.pos <= toks.len(),
{
    let c1 = match read_mark(toks, end, c, Mark::Colon) {
        Some(c1) => c1,
        None => return None,
    };
    match read_ident(toks, end, c1) {
        Some((s, c2)) => {
            let mut selector = String::new();
            selector.push(':');
            selector.append(s.as_str());
            assert(selector@ =~= seq![':'] + s@);
            Some((selector, c2))
        },
        None => None,
    }
}

/// The prelude of a page rule.
fn parse_page_prelude(toks: &Vec<CssToken>, name: &str, start: usize, end: usize) -> (r: Option<
    Option<String>,
>)
    requires
        start <= toks.len(),
        end <= toks.len(),
    ensures
        match r {
            Some(s) => page_prelude(views(toks@), name@, start as int, end as int) == Some(
                opt_view(s),
            ),
            None => page_prelude(views(toks@), name@, start as int, end as int) is None,
        },
{
    if !name.eq_ignore_ascii_case("page") {
        return None;
    }
    match read_page_pseudo(toks, end, cursor_at(start)) {
        Some((selector, c1)) => if is_exhausted(toks, end, c1) {
            Some(Some(selector))
        } else {
            None
        },
        None => if is_exhausted(toks, end, cursor_at(start)) {
            Some(None)
        } else {
            None
        },
    }
}

/// What a style sheet has said so far, and the changes to be made to it.
struct SheetState {
    context: GcpmContext,
    edits: Vec<CssEdit>,
}

impl View for SheetState {
    type V = Progress;

    closed spec fn view(&self) -> Progress {
        Progress { context: self.context@, edits: views(self.edits@) }
    }
}

/// Adds a page rule.
fn add_page_rule(
    s: SheetState,
    page_selector: Option<String>,
    p: PageState,
    start: usize,
    end: usize,
) -> (r: SheetState)
    ensures
        r@ == with_page_rule(s@, opt_view(page_selector), p@, start as int, end as int),
        r.edits@ == s.edits@.push(CssEdit::Remove { start, end }),
{
    let ghost expected = with_page_rule(s@, opt_view(page_selector), p@, start as int, end as int);
    let mut s = s;
    let mut p = p;
    s.edits.push(CssEdit::Remove { start, end });
    s.context.margin_boxes.append(&mut p.boxes);
    if p.size.is_some() || !p.margin.is_empty() {
        s.context.page_settings.push(
            PageSettingsRule { page_selector, size: p.size, margin: p.margin },
        );
    }
    assert(s@.context =~= expected.context);
    s
}

/// Adds a style rule.
fn add_style_rule(
    s: SheetState,
    selector: ParsedSelector,
    pseudo: Option<PseudoElement>,
    d: StyleState,
) -> (r: SheetState)
    ensures
        r@ == with_style_rule(s@, selector@, pseudo, d@),
        r.edits@ == d.edits@,
{
    let ghost expected = with_style_rule(s@, selector@, pseudo, d@);
    let mut s = s;
    match d.running {
        Some(running_name) => {
            s.context.running_mappings.push(
                RunningMapping { parsed: selector.duplicate(), running_name },
            );
        },
        None => {},
    }
    match d.string_set {
        Some((name, values)) => {
            s.context.string_set_mappings.push(
                StringSetMapping { parsed: selector.duplicate(), name, values },
            );
        },
        None => {},
    }
    if d.counter_ops.len() > 0 {
        s.context.counter_mappings.push(
            CounterMapping { parsed: selector.duplicate(), ops: d.counter_ops },
        );
    }
    match (d.content, pseudo) {
        (Some(content), Some(pseudo)) => {
            s.context.content_counter_mappings.push(
                ContentCounterMapping { parsed: selector.duplicate(), pseudo, content },
            );
        },
        _ => {},
    }
    match (d.static_content, pseudo) {
        (Some(text), Some(pseudo)) => {
            s.context.static_content_mappings.push(
                StaticContentMapping { parsed: selector.duplicate(), pseudo, text },
            );
        },
        _ => {},
    }
    if pseudo.is_none() && (d.level.is_some() || d.label.is_some()) {
        s.context.bookmark_mappings.push(
            BookmarkMapping { selector, level: d.level, label: d.label },
        );
    }
    s.edits = d.edits;
    assert(s@.context =~= expected.context);
    s
}

/// Adds one rule of the style sheet.
fn add_rule(toks: &Vec<CssToken>, s: SheetState, rule: &SheetRule) -> (r: SheetState)
    requires
        rule_fits(rule@, toks.len() as int),
        edits_fit(s.edits@, toks.len() as int),
    ensures
        r@ == with_rule(views(toks@), s@, rule@),
        edits_fit(r.edits@, toks.len() as int),
{
    match rule {
        SheetRule::AtRule { name, start, prelude, open, close } => {
            match parse_page_prelude(toks, name.as_str(), *prelude, *open) {
                Some(page_selector) => {
                    let p = parse_page_block(toks, &page_selector, *open + 1, *close);
                    add_page_rule(s, page_selector, p, *start, *close)
                },
                None => s,
            }
        },
        SheetRule::Qualified { prelude, open, close } => {
            match parse_style_prelude(toks, *prelude, *open) {
                Some((selector, pseudo)) => {
                    let SheetState { context, edits } = s;
                    let d = parse_style_block(toks, *open + 1, *close, pseudo.is_some(), edits);
                    add_style_rule(
                        SheetState { context, edits: Vec::new() },
                        selector,
                        pseudo,
                        d,
                    )
                },
                None => s,
            }
        },
    }
}

/// Whether a string ends with a line break or a space.
fn ends_apart(s: &str) -> (r: bool)
    ensures
        r == (s@.len() > 0 && (s@.last() == '\n' || s@.last() == ' ')),
{
    let n = s.unicode_len();
    if n == 0 {
        return false;
    }
    let last = s.get_char(n - 1);
    last == '\n' || last == ' '
}

/// The index of the token that an edit starts at.
fn edit_start(edit: &CssEdit) -> (r: usize)
    ensures
        r == edit@.start,
{
    match edit {
        CssEdit::Remove { start, .. } => *start,
        CssEdit::Replace { start, .. } => *start,
    }
}

/// Orders edits by their starts. Those with the same start stay in their order.
fn sort_edits(edits: &mut Vec<CssEdit>)
    ensures
        views(final(edits)@) == in_source_order(views(old(edits)@)),
        forall|n: int| #[trigger]
            edits_fit(old(edits)@, n) ==> edits_fit(final(edits)@, n),
{
    let ghost all = views(edits@);
    let ghost given = edits@;
    let n = edits.len();
    let mut i: usize = 0;
    assert(all =~= in_source_order(all.take(0)) + all.skip(0));
    while i < n
        invariant
            i <= n,
            n == edits@.len() == all.len(),
            views(edits@) == in_source_order(all.take(i as int)) + all.skip(i as int),
            given == old(edits)@,
            forall|m: int| #[trigger] edits_fit(given, m) ==> edits_fit(edits@, m),
        decreases n - i,
    {
        let ghost sorted = in_source_order(all.take(i as int));
        let ghost before = edits@;
        proof {
            lemma_order_keeps_len(all.take(i as int));
            assert(all.take(i + 1).drop_last() =~= all.take(i as int));
            assert(views(before)[i as int] == all[i as int]);
            assert forall|j: int| 0 <= j < i implies (#[trigger] before[j])@ == sorted[j] by {
                assert(views(before)[j] == sorted[j]);
            }
        }
        let start = edit_start(&edits[i]);
        let mut p: usize = i;
        assert(sorted.take(i as int) =~= sorted);
        while p > 0 && edit_start(&edits[p - 1]) > start
            invariant
                p <= i < n,
                n == edits@.len(),
                edits@ == before,
                sorted.len() == i,
                forall|j: int| 0 <= j < i ==> (#[trigger] before[j])@ == sorted[j],
                edit_place(sorted, start as int) == edit_place(sorted.take(p as int), start as int),
            decreases p,
        {
            assert(sorted.take(p as int).drop_last() =~= sorted.take(p - 1));
            p = p - 1;
        }
        assert(edit_place(sorted, start as int) == p) by {
            if p > 0 {
                assert(sorted.take(p as int).last() == before[p - 1]@);
            }
        }
        if p < i {
            let edit = edits.remove(i);
            edits.insert(p, edit);
            assert(edits@ =~= before.remove(i as int).insert(p as int, before[i as int]));
            assert forall|m: int| #[trigger] edits_fit(given, m) implies edits_fit(edits@, m) by {
                assert(edits_fit(before, m));
            }
        }
        proof {
            assert(all.take(i + 1).last() == before[i as int]@);
            assert(in_source_order(all.take(i + 1)) == sorted.insert(p as int, before[i as int]@));
            let next = sorted.insert(p as int, before[i as int]@) + all.skip(i + 1);
            assert forall|j: int| 0 <= j < n implies #[trigger] views(edits@)[j] == next[j] by {
                if j > i {
                    assert(views(before)[j] == all[j]);
                }
            }
            assert(views(edits@) =~= next);
        }
        i += 1;
    }
    assert(all.take(n as int) =~= all);
    assert(views(edits@) =~= in_source_order(all));
}

/// The style sheet with all edits made, from the first in the source to the last.
pub fn build_cleaned_css(toks: &Vec<CssToken>, edits: &mut Vec<CssEdit>) -> (r: String)
    requires
        edits_fit(old(edits)@, toks.len() as int),
    ensures
        r@ == cleaned(views(toks@), views(old(edits)@)),
        views(final(edits)@) == in_source_order(views(old(edits)@)),
{
    sort_edits(edits);
    let ghost vs = views(toks@);
    let ghost all = views(edits@);
    let mut out = String::new();
    let mut next: usize = 0;
    let mut k: usize = 0;
    while k < edits.len()
        invariant
            k <= edits.len(),
            vs == views(toks@),
            all == views(edits@),
            edits_fit(edits@, toks.len() as int),
            out@ == write_edits(vs, all, k as int).text,
            next == write_edits(vs, all, k as int).next,
        decreases edits.len() - k,
    {
        assert(all[k as int] == edits@[k as int]@);
        let start = edit_start(&edits[k]);
        if next < start {
            append_source(&mut out, toks, next, start);
        }
        match &edits[k] {
            CssEdit::Remove { start: _, end } => {
                if !out.as_str().is_empty() && !ends_apart(out.as_str()) {
                    out.push('\n');
                }
                next = *end;
                if next < toks.len() {
                    assert(vs[next as int].kind == toks@[next as int].kind@);
                    match &toks[next].kind {
                        TokenKind::Close(Bracket::Curly) => {
                            next = next + 1;
                        },
                        _ => {},
                    }
                }
            },
            CssEdit::Replace { start: _, end, replacement } => {
                out.append(replacement.as_str());
                next = *end;
            },
        }
        k += 1;
    }
    if next < toks.len() {
        append_source(&mut out, toks, next, toks.len());
    }
    out
}

/// What a list of tokens says in terms of generated content for paged media.
pub fn parse_gcpm_tokens(toks: &Vec<CssToken>) -> (r: GcpmContext)
    ensures
        r@ == gcpm_of(views(toks@)),
{
    let ghost vs = views(toks@);
    let rules = find_rules(toks);
    let ghost all = views(rules@);
    let mut s = SheetState { context: GcpmContext::default(), edits: Vec::new() };
    let mut k: usize = 0;
    while k < rules.len()
        invariant
            k <= rules.len(),
            vs == views(toks@),
            all == views(rules@),
            forall|j: int|
                0 <= j < rules@.len() ==> rule_fits((#[trigger] rules@[j])@, toks.len() as int),
            s@ == with_rules(vs, all, k as int),
            edits_fit(s.edits@, toks.len() as int),
        decreases rules.len() - k,
    {
        assert(all[k as int] == rules@[k as int]@);
        s = add_rule(toks, s, &rules[k]);
        k += 1;
    }
    let SheetState { context, mut edits } = s;
    let cleaned_css = build_cleaned_css(toks, &mut edits);
    let mut context = context;
    context.cleaned_css = cleaned_css;
    assert(context@ =~= gcpm_of(vs));
    context
}

/// Parses a style sheet. One that asks for nothing special stays as it is.
pub fn parse_gcpm(css: &str) -> (r: GcpmContext)
    ensures
        r@ == gcpm_of(css_tokens(css@)),
        edits_of(css_tokens(css@)).len() == 0 ==> r.cleaned_css@ == css@,
{
    let toks = tokenize(css);
    proof {
        if edits_of(css_tokens(css@)).len() == 0 {
            assert(edits_of(css_tokens(css@)) =~= Seq::empty());
            law_unchanged_sheets_are_kept(css_tokens(css@));
        }
    }
    parse_gcpm_tokens(&toks)
}

} // verus!
