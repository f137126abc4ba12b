//! What the rules of a style sheet come to, as functions of the tokens.

use crate::gcpm::bookmark::{BookmarkLevel, BookmarkModel};
use crate::gcpm::cursor::{cur, exhausted, peek, after, Cur};
use crate::gcpm::grammar::{
    bookmark_level, content_items, counter_ops, ident, margin_side, mark, page_margin, page_size,
    running_name, same_word, string_set,
};
use crate::gcpm::margin_box::{box_named, MarginBoxPosition};
use crate::gcpm::sheet::{body_items, sheet_rules, BodyModel, RuleModel};
use crate::gcpm::token::{source, Bracket, Lexeme, Mark, Tok, WordKind};
use crate::gcpm::{
    empty_context, merged, no_margin, ContentCounterModel, ContentModel, CounterMappingModel,
    CounterOpModel, CssLength, GcpmModel, MarginBoxModel, PageSettingsModel, PageSizeModel,
    PartialMargin, PseudoElement, RunningModel, SelectorModel, SetValueModel, StaticContentModel,
    StringSetModel,
};
use crate::text::trimmed;
use vstd::prelude::*;

verus! {

/// A change to the style sheet: the tokens from `start` to `end` are taken out, and
/// replaced where a replacement is given. Without one they are a whole page rule up
/// to its closing bracket.
pub ghost struct EditModel {
    pub start: int,
    pub end: int,
    pub replacement: Option<Seq<char>>,
}

/// What the declarations of a style rule have said so far.
pub ghost struct Declared {
    pub running: Option<Seq<char>>,
    pub string_set: Option<(Seq<char>, Seq<SetValueModel>)>,
    pub counter_ops: Seq<CounterOpModel>,
    pub content: Option<Seq<ContentModel>>,
    pub static_content: Option<Seq<char>>,
    pub level: Option<BookmarkLevel>,
    pub label: Option<Seq<ContentModel>>,
    pub edits: Seq<EditModel>,
}

/// A style rule that has said nothing.
pub open spec fn nothing_declared(edits: Seq<EditModel>) -> Declared {
    Declared {
        running: None,
        string_set: None,
        counter_ops: Seq::empty(),
        content: None,
        static_content: None,
        level: None,
        label: None,
        edits,
    }
}

/// Whether two counter operations are of the same property.
pub open spec fn same_property(a: CounterOpModel, b: CounterOpModel) -> bool {
    (a is Reset && b is Reset) || (a is Increment && b is Increment) || (a is SetTo && b is SetTo)
}

/// The operations that are not of the same property as `op`.
pub open spec fn of_other_properties(ops: Seq<CounterOpModel>, op: CounterOpModel) -> Seq<
    CounterOpModel,
>
    decreases ops.len(),
{
    if ops.len() == 0 {
        Seq::empty()
    } else {
        let rest = of_other_properties(ops.drop_last(), op);
        if same_property(ops.last(), op) {
            rest
        } else {
            rest.push(ops.last())
        }
    }
}

/// The operations after a further declaration of one property, which replaces an
/// earlier one of the same property. A declaration without operations, such as `none`,
/// changes nothing.
pub open spec fn redeclared_ops(ops: Seq<CounterOpModel>, new: Seq<CounterOpModel>) -> Seq<
    CounterOpModel,
> {
    if new.len() == 0 {
        ops
    } else {
        of_other_properties(ops, new[0]) + new
    }
}

/// Whether an item's value depends on the element that it is generated for.
pub open spec fn dynamic(item: ContentModel) -> bool {
    item is Counter || item is Counters || item is TargetCounter || item is TargetCounters
        || item is TargetText
}

/// Whether a list has an item whose value depends on the element.
pub open spec fn has_dynamic(items: Seq<ContentModel>) -> bool {
    exists|i: int| 0 <= i < items.len() && dynamic(#[trigger] items[i])
}

/// Whether a list consists of string literals.
pub open spec fn all_strings(items: Seq<ContentModel>) -> bool {
    forall|i: int| 0 <= i < items.len() ==> (#[trigger] items[i]) is String
}

/// The string literals of a list, joined.
pub open spec fn joined_strings(items: Seq<ContentModel>) -> Seq<char>
    decreases items.len(),
{
    if items.len() == 0 {
        Seq::empty()
    } else {
        match items.last() {
            ContentModel::String(s) => joined_strings(items.drop_last()) + s,
            _ => joined_strings(items.drop_last()),
        }
    }
}

/// The effect of one declaration of a style rule. The later of two declarations of a
/// property counts. A declaration that a renderer without paged media would not
/// understand, or would render in part, is taken out of the style sheet;
/// `position: running()` becomes `display: none`.
pub open spec fn declare(
    toks: Seq<Tok>,
    d: Declared,
    name: Seq<char>,
    start: int,
    c: Cur,
    end: int,
    has_pseudo: bool,
) -> Declared {
    if same_word(name, "position"@) {
        match running_name(toks, end, c) {
            Some((n, c1)) => Declared {
                running: Some(n),
                edits: d.edits.push(
                    EditModel { start, end: c1.pos, replacement: Some("display: none"@) },
                ),
                ..d
            },
            None => d,
        }
    } else if same_word(name, "string-set"@) {
        match string_set(toks, end, c) {
            Some((set, c1)) => Declared {
                string_set: Some(set),
                edits: d.edits.push(
                    EditModel { start, end: c1.pos, replacement: Some(Seq::empty()) },
                ),
                ..d
            },
            None => d,
        }
    } else if same_word(name, "counter-reset"@) || same_word(name, "counter-increment"@)
        || same_word(name, "counter-set"@) {
        let (ops, c1) = counter_ops(toks, end, c, name, Seq::empty());
        Declared {
            counter_ops: redeclared_ops(d.counter_ops, ops),
            edits: d.edits.push(EditModel { start, end: c1.pos, replacement: Some(Seq::empty()) }),
            ..d
        }
    } else if same_word(name, "bookmark-level"@) {
        match bookmark_level(toks, end, c) {
            Some(level) => Declared { level: Some(level), ..d },
            None => d,
        }
    } else if same_word(name, "bookmark-label"@) {
        let (items, _) = content_items(toks, end, c, Seq::empty());
        Declared { label: Some(items), ..d }
    } else if same_word(name, "content"@) && has_pseudo {
        let (items, c1) = content_items(toks, end, c, Seq::empty());
        let edited = d.edits.push(
            EditModel { start, end: c1.pos, replacement: Some(Seq::empty()) },
        );
        if items.len() > 1 && all_strings(items) {
            Declared {
                content: None,
                static_content: Some(joined_strings(items)),
                edits: edited,
                ..d
            }
        } else if has_dynamic(items) || items.len() > 1 {
            Declared { content: Some(items), static_content: None, edits: edited, ..d }
        } else {
            Declared { content: None, static_content: None, ..d }
        }
    } else {
        d
    }
}

/// The effect of the first `k` items of the block of a style rule. Nested at-rules
/// have none.
pub open spec fn declare_all(
    toks: Seq<Tok>,
    d: Declared,
    items: Seq<BodyModel>,
    k: int,
    has_pseudo: bool,
) -> Declared
    decreases k,
{
    if k <= 0 {
        d
    } else {
        let before = declare_all(toks, d, items, k - 1, has_pseudo);
        match items[k - 1] {
            BodyModel::Declaration { name, start, value, end } => declare(
                toks,
                before,
                name,
                start,
                cur(value),
                end,
                has_pseudo,
            ),
            BodyModel::AtRule { .. } => before,
        }
    }
}

/// What a style sheet has said so far, and the changes to be made to it.
pub ghost struct Progress {
    pub context: GcpmModel,
    pub edits: Seq<EditModel>,
}

/// A list with an item more where there is one.
pub open spec fn push_some<T>(s: Seq<T>, item: Option<T>) -> Seq<T> {
    match item {
        Some(t) => s.push(t),
        None => s,
    }
}

/// A style sheet after a style rule. Generated content counts on a pseudo-element
/// only, and a bookmark on a real element only.
pub open spec fn with_style_rule(
    s: Progress,
    selector: SelectorModel,
    pseudo: Option<PseudoElement>,
    d: Declared,
) -> Progress {
    Progress {
        context: GcpmModel {
            running_mappings: push_some(
                s.context.running_mappings,
                match d.running {
                    Some(running_name) => Some(RunningModel { parsed: selector, running_name }),
                    None => None,
                },
            ),
            string_set_mappings: push_some(
                s.context.string_set_mappings,
                match d.string_set {
                    Some((name, values)) => Some(
                        StringSetModel { parsed: selector, name, values },
                    ),
                    None => None,
                },
            ),
            counter_mappings: push_some(
                s.context.counter_mappings,
                if d.counter_ops.len() > 0 {
                    Some(CounterMappingModel { parsed: selector, ops: d.counter_ops })
                } else {
                    None
                },
            ),
            content_counter_mappings: push_some(
                s.context.content_counter_mappings,
                match (d.content, pseudo) {
                    (Some(content), Some(pseudo)) => Some(
                        ContentCounterModel { parsed: selector, pseudo, content },
                    ),
                    _ => None,
                },
            ),
            static_content_mappings: push_some(
                s.context.static_content_mappings,
                match (d.static_content, pseudo) {
                    (Some(text), Some(pseudo)) => Some(
                        StaticContentModel { parsed: selector, pseudo, text },
                    ),
                    _ => None,
                },
            ),
            bookmark_mappings: push_some(
                s.context.bookmark_mappings,
                if pseudo is None && (d.level is Some || d.label is Some) {
                    Some(BookmarkModel { selector, level: d.level, label: d.label })
                } else {
                    None
                },
            ),
            ..s.context
        },
        edits: d.edits,
    }
}

/// `::before` or `::after`.
pub open spec fn pseudo_element(toks: Seq<Tok>, end: int, c: Cur) -> Option<(PseudoElement, Cur)> {
    match mark(toks, end, c, Mark::Colon) {
        None => None,
        Some(c1) => match mark(toks, end, c1, Mark::Colon) {
            None => None,
            Some(c2) => match ident(toks, end, c2) {
                None => None,
                Some((s, c3)) => if same_word(s, "before"@) {
                    Some((PseudoElement::Before, c3))
                } else if same_word(s, "after"@) {
                    Some((PseudoElement::After, c3))
                } else {
                    None
                },
            },
        },
    }
}

/// A class, an id or a tag name.
pub open spec fn simple_selector(toks: Seq<Tok>, end: int, c: Cur) -> Option<(SelectorModel, Cur)> {
    let p = peek(toks, end, c);
    if p >= end {
        None
    } else {
        match toks[p].kind {
            Lexeme::Mark(Mark::Delim('.')) => match ident(toks, end, after(toks, p)) {
                Some((s, c1)) => Some((SelectorModel::Class(s), c1)),
                None => None,
            },
            Lexeme::Word(WordKind::IdHash, s) => Some((SelectorModel::Id(s), after(toks, p))),
            Lexeme::Word(WordKind::Ident, s) => Some((SelectorModel::Tag(s), after(toks, p))),
            _ => None,
        }
    }
}

/// The prelude of a style rule that counts: one simple selector, with or without a
/// pseudo-element, and nothing else.
pub open spec fn style_prelude(toks: Seq<Tok>, start: int, end: int) -> Option<
    (SelectorModel, Option<PseudoElement>),
> {
    match simple_selector(toks, end, cur(start)) {
        None => None,
        Some((selector, c1)) => match pseudo_element(toks, end, c1) {
            Some((pseudo, c2)) => if exhausted(toks, end, c2) {
                Some((selector, Some(pseudo)))
            } else {
                None
            },
            None => if exhausted(toks, end, c1) {
                Some((selector, None))
            } else {
                None
            },
        },
    }
}

/// What the declarations of a margin box have said so far.
pub ghost struct BoxDeclared {
    pub content: Seq<ContentModel>,
    pub declarations: Seq<char>,
}

/// The effect of one declaration of a margin box: `content` replaces the content,
/// any other is kept as text.
pub open spec fn declare_in_box(
    toks: Seq<Tok>,
    b: BoxDeclared,
    name: Seq<char>,
    value: int,
    end: int,
) -> BoxDeclared {
    if same_word(name, "content"@) {
        BoxDeclared { content: content_items(toks, end, cur(value), Seq::empty()).0, ..b }
    } else {
        let text = if value <= end {
            trimmed(source(toks.subrange(value, end)))
        } else {
            Seq::empty()
        };
        let lead = if b.declarations.len() > 0 {
            b.declarations + "; "@
        } else {
            b.declarations
        };
        BoxDeclared { declarations: lead + name + ": "@ + text, ..b }
    }
}

/// The effect of the first `k` items of the block of a margin box.
pub open spec fn declare_all_in_box(toks: Seq<Tok>, items: Seq<BodyModel>, k: int) -> BoxDeclared
    decreases k,
{
    if k <= 0 {
        BoxDeclared { content: Seq::empty(), declarations: Seq::empty() }
    } else {
        let before = declare_all_in_box(toks, items, k - 1);
        match items[k - 1] {
            BodyModel::Declaration { name, value, end, .. } => declare_in_box(
                toks,
                before,
                name,
                value,
                end,
            ),
            BodyModel::AtRule { .. } => before,
        }
    }
}

/// A margin box with its content between two indices.
pub open spec fn margin_box(
    toks: Seq<Tok>,
    page_selector: Option<Seq<char>>,
    position: MarginBoxPosition,
    start: int,
    end: int,
) -> MarginBoxModel {
    let items = body_items(toks, start, end, Seq::empty());
    let b = declare_all_in_box(toks, items, items.len() as int);
    MarginBoxModel { page_selector, position, content: b.content, declarations: b.declarations }
}

/// What the block of a page rule has said so far.
pub ghost struct PageDeclared {
    pub boxes: Seq<MarginBoxModel>,
    pub size: Option<PageSizeModel<CssLength>>,
    pub margin: PartialMargin<CssLength>,
}

/// The effect of one declaration of a page rule. One that is not valid has none.
pub open spec fn declare_in_page(
    toks: Seq<Tok>,
    p: PageDeclared,
    name: Seq<char>,
    c: Cur,
    end: int,
) -> PageDeclared {
    let side = margin_side(toks, end, c);
    if same_word(name, "size"@) {
        match page_size(toks, end, c) {
            Some(size) => PageDeclared { size: Some(size), ..p },
            None => p,
        }
    } else if same_word(name, "margin"@) {
        match page_margin(toks, end, c) {
            Some(m) => PageDeclared { margin: merged(p.margin, m), ..p },
            None => p,
        }
    } else if same_word(name, "margin-top"@) && side is Some {
        PageDeclared { margin: PartialMargin { top: side, ..p.margin }, ..p }
    } else if same_word(name, "margin-right"@) && side is Some {
        PageDeclared { margin: PartialMargin { right: side, ..p.margin }, ..p }
    } else if same_word(name, "margin-bottom"@) && side is Some {
        PageDeclared { margin: PartialMargin { bottom: side, ..p.margin }, ..p }
    } else if same_word(name, "margin-left"@) && side is Some {
        PageDeclared { margin: PartialMargin { left: side, ..p.margin }, ..p }
    } else {
        p
    }
}

/// The effect of one item of a page rule: a declaration, or a margin box that has
/// nothing between its keyword and its block.
pub open spec fn page_item(
    toks: Seq<Tok>,
    p: PageDeclared,
    page_selector: Option<Seq<char>>,
    item: BodyModel,
) -> PageDeclared {
    match item {
        BodyModel::Declaration { name, value, end, .. } => declare_in_page(
            toks,
            p,
            name,
            cur(value),
            end,
        ),
        BodyModel::AtRule { name, prelude, open, close, .. } => match box_named(name) {
            Some(position) => if exhausted(toks, open, cur(prelude)) {
                PageDeclared {
                    boxes: p.boxes.push(
                        margin_box(toks, page_selector, position, open + 1, close),
                    ),
                    ..p
                }
            } else {
                p
            },
            None => p,
        },
    }
}

/// The effect of the first `k` items of the block of a page rule.
pub open spec fn page_items(
    toks: Seq<Tok>,
    page_selector: Option<Seq<char>>,
    items: Seq<BodyModel>,
    k: int,
) -> PageDeclared
    decreases k,
{
    if k <= 0 {
        PageDeclared { boxes: Seq::empty(), size: None, margin: no_margin() }
    } else {
        page_item(toks, page_items(toks, page_selector, items, k - 1), page_selector, items[k - 1])
    }
}

/// `:<name>`, with the colon.
pub open spec fn page_pseudo(toks: Seq<Tok>, end: int, c: Cur) -> Option<(Seq<char>, Cur)> {
    match mark(toks, end, c, Mark::Colon) {
        None => None,
        Some(c1) => match ident(toks, end, c1) {
            Some((s, c2)) => Some((seq![':'] + s, c2)),
            None => None,
        },
    }
}

/// The prelude of an at-rule that is a page rule: its page selector, if it has one.
/// `None` where it is no page rule.
pub open spec fn page_prelude(toks: Seq<Tok>, name: Seq<char>, start: int, end: int) -> Option<
    Option<Seq<char>>,
> {
    if !same_word(name, "page"@) {
        None
    } else {
        match page_pseudo(toks, end, cur(start)) {
            Some((selector, c1)) => if exhausted(toks, end, c1) {
                Some(Some(selector))
            } else {
                None
            },
            None => if exhausted(toks, end, cur(start)) {
                Some(None)
            } else {
                None
            },
        }
    }
}

/// A style sheet after a page rule, which is taken out of it.
pub open spec fn with_page_rule(
    s: Progress,
    page_selector: Option<Seq<char>>,
    p: PageDeclared,
    start: int,
    end: int,
) -> Progress {
    Progress {
        context: GcpmModel {
            margin_boxes: s.context.margin_boxes + p.boxes,
            page_settings: if p.size is Some || p.margin != no_margin::<CssLength>() {
                s.context.page_settings.push(
                    PageSettingsModel { page_selector, size: p.size, margin: p.margin },
                )
            } else {
                s.context.page_settings
            },
            ..s.context
        },
        edits: s.edits.push(EditModel { start, end, replacement: None }),
    }
}

/// A style sheet after one more rule.
pub open spec fn with_rule(toks: Seq<Tok>, s: Progress, rule: RuleModel) -> Progress {
    match rule {
        RuleModel::AtRule { name, start, prelude, open, close } => {
            match page_prelude(toks, name, prelude, open) {
                Some(page_selector) => {
                    let items = body_items(toks, open + 1, close, Seq::empty());
                    with_page_rule(
                        s,
                        page_selector,
                        page_items(toks, page_selector, items, items.len() as int),
                        start,
                        close,
                    )
                },
                None => s,
            }
        },
        RuleModel::Qualified { prelude, open, close } => {
            match style_prelude(toks, prelude, open) {
                Some((selector, pseudo)) => {
                    let items = body_items(toks, open + 1, close, Seq::empty());
                    with_style_rule(
                        s,
                        selector,
                        pseudo,
                        declare_all(
                            toks,
                            nothing_declared(s.edits),
                            items,
                            items.len() as int,
                            pseudo is Some,
                        ),
                    )
                },
                None => s,
            }
        },
    }
}

/// What the first `k` rules of a style sheet say.
pub open spec fn with_rules(toks: Seq<Tok>, rules: Seq<RuleModel>, k: int) -> Progress
    decreases k,
{
    if k <= 0 {
        Progress { context: empty_context(), edits: Seq::empty() }
    } else {
        with_rule(toks, with_rules(toks, rules, k - 1), rules[k - 1])
    }
}

/// A style sheet that is being written out: the text so far, and the index of the
/// next token of the source.
pub ghost struct Written {
    pub text: Seq<char>,
    pub next: int,
}

/// Text with a line break after it, unless it is empty or ends with a line break or
/// a space.
pub open spec fn separated(text: Seq<char>) -> Seq<char> {
    if text.len() > 0 && text.last() != '\n' && text.last() != ' ' {
        text.push('\n')
    } else {
        text
    }
}

/// Writes the source up to an edit and makes the edit. The closing bracket of a page
/// rule goes with it.
pub open spec fn write_edit(toks: Seq<Tok>, w: Written, e: EditModel) -> Written {
    let text = if w.next < e.start {
        w.text + source(toks.subrange(w.next, e.start))
    } else {
        w.text
    };
    match e.replacement {
        Some(r) => Written { text: text + r, next: e.end },
        None => Written {
            text: separated(text),
            next: if e.end < toks.len() && toks[e.end].kind == Lexeme::Close(Bracket::Curly) {
                e.end + 1
            } else {
                e.end
            },
        },
    }
}

/// The style sheet written out up to and with the first `k` edits.
pub open spec fn write_edits(toks: Seq<Tok>, edits: Seq<EditModel>, k: int) -> Written
    decreases k,
{
    if k <= 0 {
        Written { text: Seq::empty(), next: 0 }
    } else {
        write_edit(toks, write_edits(toks, edits, k - 1), edits[k - 1])
    }
}

/// Where an edit with a given start goes among edits that are ordered by their starts:
/// behind all that do not start later.
pub open spec fn edit_place(edits: Seq<EditModel>, start: int) -> int
    decreases edits.len(),
{
    if edits.len() > 0 && edits.last().start > start {
        edit_place(edits.drop_last(), start)
    } else {
        edits.len() as int
    }
}

/// Edits ordered by their starts, those with the same start in the order in which they
/// were given.
pub open spec fn in_source_order(edits: Seq<EditModel>) -> Seq<EditModel>
    decreases edits.len(),
{
    if edits.len() == 0 {
        edits
    } else {
        let rest = in_source_order(edits.drop_last());
        rest.insert(edit_place(rest, edits.last().start), edits.last())
    }
}

/// The style sheet with all edits made, in the order of their starts.
pub open spec fn cleaned(toks: Seq<Tok>, edits: Seq<EditModel>) -> Seq<char> {
    let ordered = in_source_order(edits);
    let w = write_edits(toks, ordered, ordered.len() as int);
    if w.next < toks.len() {
        w.text + source(toks.subrange(w.next, toks.len() as int))
    } else {
        w.text
    }
}

/// The changes that a style sheet asks for.
pub open spec fn edits_of(toks: Seq<Tok>) -> Seq<EditModel> {
    let rules = sheet_rules(toks, 0, true, Seq::empty());
    with_rules(toks, rules, rules.len() as int).edits
}

/// Everything that a style sheet says, and the style sheet without it.
pub open spec fn gcpm_of(toks: Seq<Tok>) -> GcpmModel {
    let rules = sheet_rules(toks, 0, true, Seq::empty());
    let s = with_rules(toks, rules, rules.len() as int);
    GcpmModel { cleaned_css: cleaned(toks, s.edits), ..s.context }
}

} // verus!
