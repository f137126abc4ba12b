//! The order of the changes that are made to a style sheet.

use crate::gcpm::cursor::{
    after, blank, block_end, closer, cur, exhausted, lemma_closer_bounds, lemma_peek, lemma_skip_blank, lemma_skip_comments,
    lemma_stop_at, opens, past_block, peek, peek_text, settled, skip_blank, skip_comments, stop_at, stops, Cur,
};
use crate::gcpm::grammar::{
    content_call, content_items, counter_op, counter_ops, ident, integer, mark, same_word, set_call, set_values, with_item, word,
};
use crate::gcpm::rules::{
    cleaned, declare, declare_all, edit_place, edits_of, in_source_order, nothing_declared, page_prelude, separated, style_prelude, with_rule, with_rules, write_edits,
    Declared, EditModel,
};
use crate::gcpm::{ContentModel, CounterOpModel, SetValueModel};
use crate::gcpm::sheet::{
    body_items, custom_property, lemma_skip_between, sheet_rules, skip_between, BodyModel, RuleModel,
};
use crate::gcpm::token::{source, Bracket, Lexeme, Mark, Tok, WordKind};
use vstd::prelude::*;

verus! {

/// Whether an index is in a block that ends at `end`, outside any block inside
/// it.
spec fn in_block(toks: Seq<Tok>, i: int, end: int) -> bool {
    0 <= i <= end <= toks.len() && closer(toks, i, seq![Bracket::Curly]) == end
}

/// Blocks inside blocks close first.
proof fn lemma_closer_nests(toks: Seq<Tok>, i: int, outer: Seq<Bracket>, inner: Seq<Bracket>)
    requires
        0 <= i <= toks.len(),
        outer.len() > 0,
        inner.len() > 0,
    ensures
        closer(toks, i, outer + inner) == if closer(toks, i, inner) < toks.len() {
            closer(toks, closer(toks, i, inner) + 1, outer)
        } else {
            toks.len() as int
        },
    decreases toks.len() - i,
{
    if i < toks.len() {
        let k = toks[i].kind;
        assert((outer + inner).last() == inner.last());
        let left = if k == Lexeme::Close(inner.last()) { inner.drop_last() } else { inner };
        let both = if k == Lexeme::Close(inner.last()) { (outer + inner).drop_last() } else { outer + inner };
        assert(both =~= outer + left);
        if left.len() == 0 {
            assert(both =~= outer);
        } else {
            match opens(k) {
                Some(b) => {
                    assert(both.push(b) =~= outer + left.push(b));
                    lemma_closer_nests(toks, i + 1, outer, left.push(b));
                },
                None => lemma_closer_nests(toks, i + 1, outer, left),
            }
        }
    }
}

/// What follows a token of a block is in the block too.
proof fn lemma_in_block_step(toks: Seq<Tok>, i: int, end: int)
    requires
        in_block(toks, i, end),
        i < end,
    ensures
        in_block(toks, settled(toks, after(toks, i)), end),
        i < settled(toks, after(toks, i)),
{
    let curly = seq![Bracket::Curly];
    let k = toks[i].kind;
    assert(curly.drop_last().len() == 0);
    assert(k != Lexeme::Close(Bracket::Curly));
    match opens(k) {
        Some(b) => {
            assert(curly.push(b) =~= curly + seq![b]);
            lemma_closer_nests(toks, i + 1, curly, seq![b]);
            lemma_closer_bounds(toks, i + 1, seq![b]);
            lemma_closer_bounds(toks, past_block(toks, i + 1, b), curly);
        },
        None => {
            lemma_closer_bounds(toks, i + 1, curly);
        },
    }
}

/// Looking for the end of a declaration stays in the block.
proof fn lemma_in_block_stop(toks: Seq<Tok>, i: int, end: int, semicolon: bool, curly: bool)
    requires
        in_block(toks, i, end),
    ensures
        in_block(toks, stop_at(toks, i, end, semicolon, curly), end),
    decreases end - i,
{
    if i < end && !stops(toks[i].kind, semicolon, curly) {
        lemma_in_block_step(toks, i, end);
        lemma_in_block_stop(toks, settled(toks, after(toks, i)), end, semicolon, curly);
    } else if i >= end {
        assert(stop_at(toks, i, end, semicolon, curly) == end);
    }
}

/// Passing over blanks stays in the block.
proof fn lemma_in_block_blank(toks: Seq<Tok>, i: int, to: int, end: int)
    requires
        in_block(toks, i, end),
        to <= end,
    ensures
        in_block(toks, skip_blank(toks, i, to), end),
    decreases to - i,
{
    if i < to && blank(toks[i].kind) {
        lemma_in_block_step(toks, i, end);
        lemma_in_block_blank(toks, i + 1, to, end);
    }
}

/// Whether an index is in the value of a declaration that ends at `d`, outside
/// any block inside it.
spec fn in_value(toks: Seq<Tok>, i: int, end: int, d: int) -> bool {
    i <= d <= end && in_block(toks, i, end) && stop_at(toks, i, end, true, false) == d
}

/// Whether reading goes on inside the value.
spec fn reads_value(toks: Seq<Tok>, c: Cur, end: int, d: int) -> bool {
    0 <= c.pos <= d && in_value(toks, settled(toks, c), end, d)
}

proof fn lemma_value_step(toks: Seq<Tok>, i: int, end: int, d: int)
    requires
        in_value(toks, i, end, d),
        i < d,
    ensures
        reads_value(toks, after(toks, i), end, d),
        i < settled(toks, after(toks, i)),
{
    lemma_in_block_step(toks, i, end);
    lemma_stop_at(toks, settled(toks, after(toks, i)), end, true, false);
}

proof fn lemma_value_blank(toks: Seq<Tok>, i: int, end: int, d: int)
    requires
        in_value(toks, i, end, d),
    ensures
        in_value(toks, skip_blank(toks, i, d), end, d),
    decreases d - i,
{
    if i < d && blank(toks[i].kind) {
        lemma_value_step(toks, i, end, d);
        lemma_value_blank(toks, i + 1, end, d);
    }
}

proof fn lemma_value_comments(toks: Seq<Tok>, i: int, end: int, d: int)
    requires
        in_value(toks, i, end, d),
    ensures
        in_value(toks, skip_comments(toks, i, d), end, d),
    decreases d - i,
{
    if i < d && toks[i].kind == Lexeme::Mark(Mark::Comment) {
        lemma_value_step(toks, i, end, d);
        lemma_value_comments(toks, i + 1, end, d);
    }
}

/// Reading the next token stays in the value.
proof fn lemma_value_next(toks: Seq<Tok>, c: Cur, end: int, d: int)
    requires
        reads_value(toks, c, end, d),
    ensures
        peek(toks, d, c) < d ==> reads_value(toks, after(toks, peek(toks, d, c)), end, d),
        peek_text(toks, d, c) < d ==> reads_value(toks, after(toks, peek_text(toks, d, c)), end, d),
        settled(toks, c) <= peek_text(toks, d, c) <= d,
{
    lemma_value_blank(toks, settled(toks, c), end, d);
    lemma_value_comments(toks, settled(toks, c), end, d);
    lemma_skip_comments(toks, settled(toks, c), d);
    if peek(toks, d, c) < d {
        lemma_value_step(toks, peek(toks, d, c), end, d);
    }
    if peek_text(toks, d, c) < d {
        lemma_value_step(toks, peek_text(toks, d, c), end, d);
    }
}

proof fn lemma_content_stays(toks: Seq<Tok>, c: Cur, items: Seq<ContentModel>, end: int, d: int)
    requires
        reads_value(toks, c, end, d),
    ensures
        reads_value(toks, content_items(toks, d, c, items).1, end, d),
    decreases toks.len() - c.pos,
{
    lemma_value_next(toks, c, end, d);
    lemma_peek(toks, d, c);
    let p = peek_text(toks, d, c);
    if !exhausted(toks, d, c) && p < d {
        match toks[p].kind {
            Lexeme::Word(WordKind::Quoted, s) => {
                lemma_content_stays(toks, after(toks, p), items.push(ContentModel::String(s)), end, d);
            },
            Lexeme::Word(WordKind::Function, function) => {
                let inner = block_end(toks, p + 1, Bracket::Paren);
                let call = content_call(toks, inner, function, cur(p + 1));
                lemma_closer_bounds(toks, p + 1, seq![Bracket::Paren]);
                if call.complete {
                    let next = cur(past_block(toks, p + 1, Bracket::Paren));
                    lemma_content_stays(toks, next, with_item(items, call.item), end, d);
                }
            },
            _ => lemma_content_stays(toks, after(toks, p), items, end, d),
        }
    }
}

proof fn lemma_set_values_stay(toks: Seq<Tok>, c: Cur, values: Seq<SetValueModel>, end: int, d: int)
    requires
        reads_value(toks, c, end, d),
    ensures
        reads_value(toks, set_values(toks, d, c, values).1, end, d),
    decreases toks.len() - c.pos,
{
    lemma_value_next(toks, c, end, d);
    lemma_peek(toks, d, c);
    let p = peek_text(toks, d, c);
    if !exhausted(toks, d, c) && p < d {
        match toks[p].kind {
            Lexeme::Word(WordKind::Quoted, s) => {
                lemma_set_values_stay(toks, after(toks, p), values.push(SetValueModel::Literal(s)), end, d);
            },
            Lexeme::Word(WordKind::Function, function) => {
                let inner = block_end(toks, p + 1, Bracket::Paren);
                let (value, complete) = set_call(toks, inner, function, cur(p + 1));
                lemma_closer_bounds(toks, p + 1, seq![Bracket::Paren]);
                if complete {
                    let next = cur(past_block(toks, p + 1, Bracket::Paren));
                    lemma_set_values_stay(toks, next, with_item(values, value), end, d);
                }
            },
            _ => lemma_set_values_stay(toks, after(toks, p), values, end, d),
        }
    }
}

proof fn lemma_counter_ops_stay(toks: Seq<Tok>, c: Cur, property: Seq<char>, ops: Seq<CounterOpModel>, end: int, d: int)
    requires
        reads_value(toks, c, end, d),
    ensures
        reads_value(toks, counter_ops(toks, d, c, property, ops).1, end, d),
    decreases toks.len() - c.pos,
{
    lemma_value_next(toks, c, end, d);
    lemma_peek(toks, d, c);
    if let Some((name, c1)) = ident(toks, d, c) {
        lemma_value_next(toks, c1, end, d);
        lemma_peek(toks, d, c1);
        if !same_word(name, "none"@) {
            match integer(toks, d, c1) {
                Some((value, c2)) => {
                    lemma_counter_ops_stay(toks, c2, property, ops.push(counter_op(property, name, Some(value))), end, d);
                },
                None => {
                    lemma_counter_ops_stay(toks, c1, property, ops.push(counter_op(property, name, None)), end, d);
                },
            }
        }
    }
}

proof fn lemma_content_reads_on(toks: Seq<Tok>, c: Cur, items: Seq<ContentModel>, end: int, d: int)
    requires
        reads_value(toks, c, end, d),
    ensures
        c.pos <= content_items(toks, d, c, items).1.pos,
    decreases toks.len() - c.pos,
{
    lemma_value_next(toks, c, end, d);
    lemma_peek(toks, d, c);
    let p = peek_text(toks, d, c);
    if !exhausted(toks, d, c) && p < d {
        match toks[p].kind {
            Lexeme::Word(WordKind::Quoted, s) => {
                lemma_content_reads_on(toks, after(toks, p), items.push(ContentModel::String(s)), end, d);
            },
            Lexeme::Word(WordKind::Function, function) => {
                let inner = block_end(toks, p + 1, Bracket::Paren);
                let call = content_call(toks, inner, function, cur(p + 1));
                lemma_closer_bounds(toks, p + 1, seq![Bracket::Paren]);
                if call.complete {
                    let next = cur(past_block(toks, p + 1, Bracket::Paren));
                    lemma_content_reads_on(toks, next, with_item(items, call.item), end, d);
                }
            },
            _ => lemma_content_reads_on(toks, after(toks, p), items, end, d),
        }
    }
}

proof fn lemma_set_values_read_on(toks: Seq<Tok>, c: Cur, values: Seq<SetValueModel>, end: int, d: int)
    requires
        reads_value(toks, c, end, d),
    ensures
        c.pos <= set_values(toks, d, c, values).1.pos,
    decreases toks.len() - c.pos,
{
    lemma_value_next(toks, c, end, d);
    lemma_peek(toks, d, c);
    let p = peek_text(toks, d, c);
    if !exhausted(toks, d, c) && p < d {
        match toks[p].kind {
            Lexeme::Word(WordKind::Quoted, s) => {
                lemma_set_values_read_on(toks, after(toks, p), values.push(SetValueModel::Literal(s)), end, d);
            },
            Lexeme::Word(WordKind::Function, function) => {
                let inner = block_end(toks, p + 1, Bracket::Paren);
                let (value, complete) = set_call(toks, inner, function, cur(p + 1));
                lemma_closer_bounds(toks, p + 1, seq![Bracket::Paren]);
                if complete {
                    let next = cur(past_block(toks, p + 1, Bracket::Paren));
                    lemma_set_values_read_on(toks, next, with_item(values, value), end, d);
                }
            },
            _ => lemma_set_values_read_on(toks, after(toks, p), values, end, d),
        }
    }
}

proof fn lemma_counter_ops_read_on(toks: Seq<Tok>, c: Cur, property: Seq<char>, ops: Seq<CounterOpModel>, end: int, d: int)
    requires
        reads_value(toks, c, end, d),
    ensures
        c.pos <= counter_ops(toks, d, c, property, ops).1.pos,
    decreases toks.len() - c.pos,
{
    lemma_value_next(toks, c, end, d);
    lemma_peek(toks, d, c);
    if let Some((name, c1)) = ident(toks, d, c) {
        lemma_value_next(toks, c1, end, d);
        lemma_peek(toks, d, c1);
        if !same_word(name, "none"@) {
            match integer(toks, d, c1) {
                Some((value, c2)) => {
                    lemma_counter_ops_read_on(toks, c2, property, ops.push(counter_op(property, name, Some(value))), end, d);
                },
                None => {
                    lemma_counter_ops_read_on(toks, c1, property, ops.push(counter_op(property, name, None)), end, d);
                },
            }
        }
    }
}

/// Whether the value of a declaration is where its block has it.
spec fn declaration_ok(toks: Seq<Tok>, item: BodyModel, end: int) -> bool {
    match item {
        BodyModel::Declaration { start, value, end: d, .. } => start < value && in_value(toks, value, end, d),
        BodyModel::AtRule { .. } => true,
    }
}

/// Where an item of a block starts.
pub open spec fn item_start(item: BodyModel) -> int {
    match item {
        BodyModel::Declaration { start, .. } => start,
        BodyModel::AtRule { start, .. } => start,
    }
}

/// Where an item of a block ends.
pub open spec fn item_end(item: BodyModel) -> int {
    match item {
        BodyModel::Declaration { end, .. } => end,
        BodyModel::AtRule { close, .. } => close,
    }
}

/// Whether items stand one after the other between two indices of a block.
spec fn items_in_order(toks: Seq<Tok>, items: Seq<BodyModel>, from: int, to: int, end: int) -> bool {
    &&& forall|i: int|
        0 <= i < items.len() ==> from <= item_start(#[trigger] items[i]) < item_end(items[i]) <= to && declaration_ok(
            toks,
            items[i],
            end,
        )
    &&& forall|i: int, j: int|
        0 <= i < j < items.len() ==> item_end(#[trigger] items[i]) <= item_start(#[trigger] items[j])
}

proof fn lemma_items_push(toks: Seq<Tok>, items: Seq<BodyModel>, item: BodyModel, from: int, to: int, next: int, end: int)
    requires
        items_in_order(toks, items, from, to, end),
        from <= to <= item_start(item) < item_end(item) <= next,
        declaration_ok(toks, item, end),
    ensures
        items_in_order(toks, items.push(item), from, next, end),
{
    let longer = items.push(item);
    assert forall|i: int| 0 <= i < longer.len() implies from <= item_start(#[trigger] longer[i]) < item_end(longer[i]) <= next
        && declaration_ok(toks, longer[i], end) by {
        if i < items.len() {
            assert(longer[i] == items[i]);
        }
    }
    assert forall|i: int, j: int| 0 <= i < j < longer.len() implies item_end(#[trigger] longer[i]) <= item_start(
        #[trigger] longer[j],
    ) by {
        assert(longer[i] == items[i]);
    }
}

/// The items of a block stand one after the other inside it.
proof fn lemma_body_items_in_order(toks: Seq<Tok>, i: int, end: int, items: Seq<BodyModel>, from: int)
    requires
        0 <= from <= i,
        in_block(toks, i, end),
        items_in_order(toks, items, from, i, end),
    ensures
        items_in_order(toks, body_items(toks, i, end, items), from, end, end),
    decreases toks.len() - i,
{
    let p = skip_blank(toks, i, end);
    lemma_skip_blank(toks, i, end);
    lemma_in_block_blank(toks, i, end, end);
    if p < end {
        lemma_in_block_step(toks, p, end);
        match toks[p].kind {
            Lexeme::Mark(Mark::Semicolon) => lemma_body_items_in_order(toks, p + 1, end, items, from),
            Lexeme::Word(WordKind::AtKeyword, name) => {
                let q = stop_at(toks, p + 1, end, true, true);
                lemma_stop_at(toks, p + 1, end, true, true);
                lemma_in_block_stop(toks, p + 1, end, true, true);
                if q < end {
                    lemma_in_block_step(toks, q, end);
                    lemma_closer_bounds(toks, q + 1, seq![Bracket::Curly]);
                    if toks[q].kind == Lexeme::Mark(Mark::Semicolon) {
                        lemma_body_items_in_order(toks, q + 1, end, items, from);
                    } else {
                        let item = BodyModel::AtRule {
                            name,
                            start: p,
                            prelude: p + 1,
                            open: q,
                            close: block_end(toks, q + 1, Bracket::Curly),
                        };
                        let next = past_block(toks, q + 1, Bracket::Curly);
                        lemma_items_push(toks, items, item, from, i, next, end);
                        lemma_body_items_in_order(toks, next, end, items.push(item), from);
                    }
                }
            },
            Lexeme::Word(WordKind::Ident, name) => {
                let d = stop_at(toks, p + 1, end, true, false);
                lemma_stop_at(toks, p + 1, end, true, false);
                lemma_in_block_stop(toks, p + 1, end, true, false);
                let next = if d < end { d + 1 } else { end };
                if d < end {
                    lemma_in_block_step(toks, d, end);
                }
                match mark(toks, d, cur(p + 1), Mark::Colon) {
                    Some(c) => {
                        let item = BodyModel::Declaration { name, start: p, value: c.pos, end: d };
                        lemma_value_next(toks, cur(p + 1), end, d);
                        lemma_skip_blank(toks, p + 1, d);
                        lemma_items_push(toks, items, item, from, i, next, end);
                        if d < end {
                            lemma_body_items_in_order(toks, d + 1, end, items.push(item), from);
                        }
                    },
                    None => {
                        if d < end {
                            lemma_body_items_in_order(toks, d + 1, end, items, from);
                        }
                    },
                }
            },
            _ => {
                let here = settled(toks, after(toks, p));
                let d = stop_at(toks, here, end, true, false);
                lemma_stop_at(toks, here, end, true, false);
                lemma_in_block_stop(toks, here, end, true, false);
                if d < end {
                    lemma_in_block_step(toks, d, end);
                    lemma_body_items_in_order(toks, d + 1, end, items, from);
                }
            },
        }
    }
}

/// Whether changes are made one after the other before an index, none inside
/// another.
pub open spec fn edits_in_order(edits: Seq<EditModel>, to: int) -> bool {
    &&& forall|i: int| 0 <= i < edits.len() ==> 0 <= (#[trigger] edits[i]).start < edits[i].end <= to
    &&& forall|i: int, j: int| 0 <= i < j < edits.len() ==> (#[trigger] edits[i]).end <= (#[trigger] edits[j]).start
}

proof fn lemma_edits_push(edits: Seq<EditModel>, edit: EditModel, to: int, next: int)
    requires
        edits_in_order(edits, to),
        0 <= to <= edit.start < edit.end <= next,
    ensures
        edits_in_order(edits.push(edit), next),
{
    let longer = edits.push(edit);
    assert forall|i: int, j: int| 0 <= i < j < longer.len() implies (#[trigger] longer[i]).end <= (#[trigger] longer[j]).start by {
        assert(longer[i] == edits[i]);
    }
}

/// A declaration adds one change at most, within its bounds.
proof fn lemma_declare_edits(toks: Seq<Tok>, before: Declared, name: Seq<char>, start: int, value: int, d: int, has_pseudo: bool, to: int, end: int)
    requires
        edits_in_order(before.edits, to),
        0 <= to <= start < value,
        in_value(toks, value, end, d),
    ensures
        edits_in_order(declare(toks, before, name, start, cur(value), d, has_pseudo).edits, d),
{
    let c = cur(value);
    lemma_value_next(toks, c, end, d);
    lemma_content_stays(toks, c, Seq::empty(), end, d);
    lemma_content_reads_on(toks, c, Seq::empty(), end, d);
    lemma_counter_ops_stay(toks, c, name, Seq::empty(), end, d);
    lemma_counter_ops_read_on(toks, c, name, Seq::empty(), end, d);
    if let Some((_, c1)) = ident(toks, d, c) {
        lemma_set_values_stay(toks, c1, Seq::empty(), end, d);
        lemma_set_values_read_on(toks, c1, Seq::empty(), end, d);
        lemma_skip_blank(toks, value, d);
    }
    if let Some((_, c1)) = word(toks, d, c, WordKind::Function) {
        lemma_skip_blank(toks, value, d);
        lemma_closer_bounds(toks, c1.pos, seq![Bracket::Paren]);
    }
    let after = declare(toks, before, name, start, c, d, has_pseudo).edits;
    if after != before.edits {
        lemma_edits_push(before.edits, after.last(), to, d);
        assert(after == before.edits.push(after.last()));
    }
}

/// The changes that a block makes are within its declarations.
proof fn lemma_declare_all_edits(toks: Seq<Tok>, d: Declared, items: Seq<BodyModel>, k: int, has_pseudo: bool, from: int, to: int)
    requires
        edits_in_order(d.edits, from),
        0 <= from <= to,
        items_in_order(toks, items, from, to, to),
        0 <= k <= items.len(),
    ensures
        edits_in_order(
            declare_all(toks, d, items, k, has_pseudo).edits,
            if k < items.len() {
                item_start(items[k])
            } else {
                to
            },
        ),
    decreases k,
{
    let bound = if k < items.len() { item_start(items[k]) } else { to };
    if k <= 0 {
        assert(from <= bound);
    } else {
        lemma_declare_all_edits(toks, d, items, k - 1, has_pseudo, from, to);
        let before = declare_all(toks, d, items, k - 1, has_pseudo);
        let here = item_start(items[k - 1]);
        assert(item_end(items[k - 1]) <= bound);
        match items[k - 1] {
            BodyModel::Declaration { name, start, value, end } => {
                assert(declaration_ok(toks, items[k - 1], to));
                lemma_declare_edits(toks, before, name, start, value, end, has_pseudo, here, to);
            },
            BodyModel::AtRule { .. } => {},
        }
    }
}

/// Where a rule starts and where its block ends.
pub open spec fn rule_span(rule: RuleModel) -> (int, int) {
    match rule {
        RuleModel::AtRule { start, close, .. } => (start, close),
        RuleModel::Qualified { prelude, close, .. } => (prelude, close),
    }
}

spec fn rule_shape(toks: Seq<Tok>, rule: RuleModel) -> bool {
    match rule {
        RuleModel::AtRule { start, open, close, .. } => 0 <= start < open < close <= toks.len(),
        RuleModel::Qualified { prelude, open, close } => 0 <= prelude <= open < close <= toks.len() && close == block_end(
            toks,
            open + 1,
            Bracket::Curly,
        ),
    }
}

/// Whether rules stand one after the other before an index.
spec fn rules_in_order(toks: Seq<Tok>, rules: Seq<RuleModel>, to: int) -> bool {
    &&& forall|i: int| 0 <= i < rules.len() ==> rule_shape(toks, #[trigger] rules[i]) && rule_span(rules[i]).1 <= to
    &&& forall|i: int, j: int|
        0 <= i < j < rules.len() ==> rule_span(#[trigger] rules[i]).1 <= rule_span(#[trigger] rules[j]).0
}

proof fn lemma_rules_push(toks: Seq<Tok>, rules: Seq<RuleModel>, rule: RuleModel, to: int, next: int)
    requires
        rules_in_order(toks, rules, to),
        rule_shape(toks, rule),
        to <= rule_span(rule).0,
        rule_span(rule).1 <= next,
    ensures
        rules_in_order(toks, rules.push(rule), next),
{
    let longer = rules.push(rule);
    assert forall|i: int| 0 <= i < longer.len() implies rule_shape(toks, #[trigger] longer[i]) && rule_span(longer[i]).1 <= next by {
        if i < rules.len() {
            assert(longer[i] == rules[i]);
        }
    }
    assert forall|i: int, j: int| 0 <= i < j < longer.len() implies rule_span(#[trigger] longer[i]).1 <= rule_span(
        #[trigger] longer[j],
    ).0 by {
        assert(longer[i] == rules[i]);
    }
}

/// The rules of a style sheet stand one after the other.
proof fn lemma_sheet_rules_in_order(toks: Seq<Tok>, i: int, first: bool, rules: Seq<RuleModel>)
    requires
        0 <= i <= toks.len(),
        rules_in_order(toks, rules, i),
    ensures
        rules_in_order(toks, sheet_rules(toks, i, first, rules), toks.len() as int),
    decreases toks.len() - i,
{
    let n = toks.len() as int;
    let p = skip_between(toks, i);
    lemma_skip_between(toks, i);
    if p < n {
        match toks[p].kind {
            Lexeme::Word(WordKind::AtKeyword, name) => {
                let q = stop_at(toks, p + 1, n, true, true);
                lemma_stop_at(toks, p + 1, n, true, true);
                if q < n {
                    lemma_closer_bounds(toks, q + 1, seq![Bracket::Curly]);
                    if toks[q].kind == Lexeme::Mark(Mark::Semicolon) {
                        lemma_sheet_rules_in_order(toks, q + 1, false, rules);
                    } else {
                        let rule = RuleModel::AtRule {
                            name,
                            start: p,
                            prelude: p + 1,
                            open: q,
                            close: block_end(toks, q + 1, Bracket::Curly),
                        };
                        let next = past_block(toks, q + 1, Bracket::Curly);
                        if first && same_word(name, "charset"@) {
                            lemma_sheet_rules_in_order(toks, next, false, rules);
                        } else {
                            lemma_rules_push(toks, rules, rule, i, next);
                            lemma_sheet_rules_in_order(toks, next, false, rules.push(rule));
                        }
                    }
                }
            },
            _ => {
                let skipped = custom_property(toks, p);
                let from = match skipped {
                    Some(c) => c.pos,
                    None => p,
                };
                let q = stop_at(toks, from, n, false, true);
                lemma_peek(toks, n, cur(p + 1));
                lemma_stop_at(toks, from, n, false, true);
                if q < n {
                    lemma_closer_bounds(toks, q + 1, seq![Bracket::Curly]);
                    let next = past_block(toks, q + 1, Bracket::Curly);
                    if skipped is Some {
                        lemma_sheet_rules_in_order(toks, next, false, rules);
                    } else {
                        let rule = RuleModel::Qualified {
                            prelude: p,
                            open: q,
                            close: block_end(toks, q + 1, Bracket::Curly),
                        };
                        lemma_rules_push(toks, rules, rule, i, next);
                        lemma_sheet_rules_in_order(toks, next, false, rules.push(rule));
                    }
                }
            },
        }
    }
}

proof fn lemma_with_rules_edits(toks: Seq<Tok>, rules: Seq<RuleModel>, k: int)
    requires
        rules_in_order(toks, rules, toks.len() as int),
        0 <= k <= rules.len(),
    ensures
        edits_in_order(
            with_rules(toks, rules, k).edits,
            if k < rules.len() {
                rule_span(rules[k]).0
            } else {
                toks.len() as int
            },
        ),
    decreases k,
{
    let n = toks.len() as int;
    let bound = if k < rules.len() { rule_span(rules[k]).0 } else { n };
    if k > 0 {
        lemma_with_rules_edits(toks, rules, k - 1);
        let s = with_rules(toks, rules, k - 1);
        let rule = rules[k - 1];
        assert(rule_shape(toks, rule));
        assert(rule_span(rule).1 <= bound);
        match rule {
            RuleModel::AtRule { name, start, prelude, open, close } => {
                let edit = EditModel { start, end: close, replacement: None };
                lemma_edits_push(s.edits, edit, start, bound);
                if page_prelude(toks, name, prelude, open) is None {
                    assert(with_rule(toks, s, rule).edits == s.edits);
                } else {
                    assert(with_rule(toks, s, rule).edits == s.edits.push(edit));
                }
            },
            RuleModel::Qualified { prelude, open, close } => {
                if let Some((_, pseudo)) = style_prelude(toks, prelude, open) {
                    let none = Seq::<BodyModel>::empty();
                    let items = body_items(toks, open + 1, close, none);
                    assert(items_in_order(toks, none, open + 1, open + 1, close));
                    lemma_body_items_in_order(toks, open + 1, close, none, open + 1);
                    assert(edits_in_order(s.edits, open + 1));
                    lemma_declare_all_edits(
                        toks,
                        nothing_declared(s.edits),
                        items,
                        items.len() as int,
                        pseudo is Some,
                        open + 1,
                        close,
                    );
                }
            },
        }
    } else {
        assert(with_rules(toks, rules, k).edits =~= Seq::<EditModel>::empty());
        if k < rules.len() {
            assert(rule_shape(toks, rules[k]));
        }
    }
}

/// The changes that a style sheet asks for come in the order in which it is
/// written, and no two of them overlap.
pub proof fn law_edits_come_in_source_order(toks: Seq<Tok>)
    ensures
        edits_in_order(edits_of(toks), toks.len() as int),
{
    lemma_sheet_rules_in_order(toks, 0, true, Seq::empty());
    let rules = sheet_rules(toks, 0, true, Seq::empty());
    lemma_with_rules_edits(toks, rules, rules.len() as int);
}

pub(crate) proof fn lemma_order_keeps_len(edits: Seq<EditModel>)
    ensures
        in_source_order(edits).len() == edits.len(),
    decreases edits.len(),
{
    if edits.len() > 0 {
        lemma_order_keeps_len(edits.drop_last());
        lemma_place(in_source_order(edits.drop_last()), edits.last().start);
    }
}

/// Whether no change starts before an earlier one.
pub open spec fn starts_in_order(edits: Seq<EditModel>) -> bool {
    forall|i: int, j: int| 0 <= i < j < edits.len() ==> (#[trigger] edits[i]).start <= (#[trigger] edits[j]).start
}

proof fn lemma_place(edits: Seq<EditModel>, start: int)
    ensures
        0 <= edit_place(edits, start) <= edits.len(),
        edit_place(edits, start) > 0 ==> edits[edit_place(edits, start) - 1].start <= start,
        forall|i: int| edit_place(edits, start) <= i < edits.len() ==> (#[trigger] edits[i]).start > start,
    decreases edits.len(),
{
    if edits.len() > 0 && edits.last().start > start {
        lemma_place(edits.drop_last(), start);
        assert forall|i: int| edit_place(edits, start) <= i < edits.len() implies (#[trigger] edits[i]).start > start by {
            if i < edits.len() - 1 {
                assert(edits.drop_last()[i] == edits[i]);
            }
        }
    }
}

/// The changes with a given start.
pub open spec fn starting_at(edits: Seq<EditModel>, start: int) -> Seq<EditModel> {
    edits.filter(|e: EditModel| e.start == start)
}

proof fn lemma_none_start_there(edits: Seq<EditModel>, start: int)
    requires
        forall|i: int| 0 <= i < edits.len() ==> (#[trigger] edits[i]).start != start,
    ensures
        starting_at(edits, start) == Seq::<EditModel>::empty(),
    decreases edits.len(),
{
    reveal(Seq::filter);
    if edits.len() > 0 {
        assert forall|i: int| 0 <= i < edits.drop_last().len() implies (#[trigger] edits.drop_last()[i]).start != start by {
            assert(edits.drop_last()[i] == edits[i]);
        }
        lemma_none_start_there(edits.drop_last(), start);
    }
}

/// However changes are given, ordering them keeps them all: they come by their
/// starts, and those with the same start in the order in which they were given.
pub proof fn law_ordering_is_stable(edits: Seq<EditModel>)
    ensures
        in_source_order(edits).len() == edits.len(),
        starts_in_order(in_source_order(edits)),
        forall|start: int| #[trigger] starting_at(in_source_order(edits), start) == starting_at(edits, start),
    decreases edits.len(),
{
    lemma_order_keeps_len(edits);
    if edits.len() > 0 {
        let rest = in_source_order(edits.drop_last());
        let e = edits.last();
        let p = edit_place(rest, e.start);
        law_ordering_is_stable(edits.drop_last());
        lemma_place(rest, e.start);
        let (a, b) = (rest.take(p), rest.skip(p));
        assert(rest =~= a + b);
        assert(in_source_order(edits) =~= a.push(e) + b);
        assert forall|start: int| #[trigger] starting_at(in_source_order(edits), start) == starting_at(edits, start) by {
            let at = |x: EditModel| x.start == start;
            Seq::filter_distributes_over_add(a, b, at);
            Seq::filter_distributes_over_add(a.push(e), b, at);
            assert(a.push(e).drop_last() =~= a);
            assert(starting_at(rest, start) == starting_at(edits.drop_last(), start));
            reveal(Seq::filter);
            if start == e.start {
                assert forall|i: int| 0 <= i < b.len() implies (#[trigger] b[i]).start != start by {
                    assert(b[i] == rest[p + i]);
                }
                lemma_none_start_there(b, start);
                assert(starting_at(in_source_order(edits), start) =~= starting_at(edits, start));
            }
        }
    }
}

proof fn lemma_ordered_edits_stay(edits: Seq<EditModel>)
    requires
        starts_in_order(edits),
    ensures
        in_source_order(edits) == edits,
    decreases edits.len(),
{
    if edits.len() > 0 {
        let rest = edits.drop_last();
        assert forall|i: int, j: int| 0 <= i < j < rest.len() implies (#[trigger] rest[i]).start <= (#[trigger] rest[j]).start by {
            assert(rest[i] == edits[i] && rest[j] == edits[j]);
        }
        lemma_ordered_edits_stay(rest);
        if rest.len() > 0 {
            assert(edits[rest.len() - 1].start <= edits[edits.len() - 1].start);
        }
        assert(rest.insert(rest.len() as int, edits.last()) =~= edits);
    }
}

/// The changes that a style sheet asks for are made in the order in which they
/// were found.
pub proof fn law_edits_are_made_as_they_come(toks: Seq<Tok>)
    ensures
        in_source_order(edits_of(toks)) == edits_of(toks),
{
    law_edits_come_in_source_order(toks);
    let edits = edits_of(toks);
    assert forall|i: int, j: int| 0 <= i < j < edits.len() implies (#[trigger] edits[i]).start <= (#[trigger] edits[j]).start by {
        assert(edits[i].end <= edits[j].start);
    }
    lemma_ordered_edits_stay(edits);
}

/// A style sheet without changes stays as it is.
pub proof fn law_unchanged_sheets_are_kept(toks: Seq<Tok>)
    ensures
        cleaned(toks, Seq::empty()) == source(toks),
{
    assert(write_edits(toks, Seq::empty(), 0).text =~= Seq::<char>::empty());
    assert(toks.subrange(0, toks.len() as int) =~= toks);
    if toks.len() > 0 {
        assert(Seq::<char>::empty() + source(toks) =~= source(toks));
    } else {
        assert(source(toks) =~= Seq::<char>::empty());
    }
}

/// Where a change ends: a page rule goes with its closing bracket.
pub open spec fn change_end(toks: Seq<Tok>, e: EditModel) -> int {
    if e.replacement is None && e.end < toks.len() && toks[e.end].kind == Lexeme::Close(Bracket::Curly) {
        e.end + 1
    } else {
        e.end
    }
}

/// Whether changes come one after the other, none inside another.
pub open spec fn changes_apart(toks: Seq<Tok>, edits: Seq<EditModel>) -> bool {
    &&& forall|i: int|
        0 <= i < edits.len() ==> 0 <= (#[trigger] edits[i]).start < edits[i].end <= change_end(toks, edits[i]) <= toks.len()
    &&& forall|i: int, j: int|
        0 <= i < j < edits.len() ==> change_end(toks, #[trigger] edits[i]) <= (#[trigger] edits[j]).start
}

/// Whether a token is taken out by some change.
pub open spec fn taken_out(toks: Seq<Tok>, edits: Seq<EditModel>, j: int) -> bool {
    exists|i: int| 0 <= i < edits.len() && (#[trigger] edits[i]).start <= j < change_end(toks, edits[i])
}

/// Whether a change starts at a token.
pub open spec fn starts_there(edits: Seq<EditModel>, j: int, i: int) -> bool {
    0 <= i < edits.len() && edits[i].start == j
}

/// Text, and what a change that starts there puts in: its replacement, or a line break
/// where a page rule was taken out and none stands there.
pub open spec fn put_in(edits: Seq<EditModel>, j: int, text: Seq<char>) -> Seq<char> {
    if exists|i: int| starts_there(edits, j, i) {
        match edits[choose|i: int| starts_there(edits, j, i)].replacement {
            Some(r) => text + r,
            None => if text.len() == 0 || text.last() == '\n' || text.last() == ' ' {
                text
            } else {
                text + seq!['\n']
            },
        }
    } else {
        text
    }
}

/// What is left of the first `j` tokens, token by token.
pub open spec fn left_of(toks: Seq<Tok>, edits: Seq<EditModel>, j: int) -> Seq<char>
    decreases j,
{
    if j <= 0 {
        Seq::empty()
    } else {
        let text = put_in(edits, j - 1, left_of(toks, edits, j - 1));
        if taken_out(toks, edits, j - 1) {
            text
        } else {
            text + toks[j - 1].text
        }
    }
}

proof fn lemma_kept_run(toks: Seq<Tok>, edits: Seq<EditModel>, i: int, j: int)
    requires
        0 <= i <= j <= toks.len(),
        forall|t: int, k: int| i <= t < j ==> !#[trigger] starts_there(edits, t, k),
        forall|t: int| i <= t < j ==> !#[trigger] taken_out(toks, edits, t),
    ensures
        left_of(toks, edits, j) == left_of(toks, edits, i) + source(toks.subrange(i, j)),
    decreases j - i,
{
    let lead = left_of(toks, edits, i);
    if i == j {
        assert(toks.subrange(i, j) =~= Seq::empty());
        assert(lead + Seq::<char>::empty() =~= lead);
    } else {
        lemma_kept_run(toks, edits, i, j - 1);
        assert(!taken_out(toks, edits, j - 1));
        assert forall|k: int| !#[trigger] starts_there(edits, j - 1, k) by {}
        assert(toks.subrange(i, j).drop_last() =~= toks.subrange(i, j - 1));
        assert(toks.subrange(i, j).last() == toks[j - 1]);
        assert(lead + source(toks.subrange(i, j - 1)) + toks[j - 1].text =~= lead + (source(toks.subrange(i, j - 1))
            + toks[j - 1].text));
    }
}

proof fn lemma_taken_run(toks: Seq<Tok>, edits: Seq<EditModel>, k: int, j: int)
    requires
        changes_apart(toks, edits),
        0 <= k < edits.len(),
        edits[k].start < j <= change_end(toks, edits[k]),
    ensures
        left_of(toks, edits, j) == put_in(edits, edits[k].start, left_of(toks, edits, edits[k].start)),
    decreases j,
{
    assert(taken_out(toks, edits, j - 1)) by {
        assert(edits[k].start <= j - 1 < change_end(toks, edits[k]));
    }
    if j - 1 > edits[k].start {
        lemma_taken_run(toks, edits, k, j - 1);
        assert forall|i: int| !#[trigger] starts_there(edits, j - 1, i) by {
            if starts_there(edits, j - 1, i) {
                if i < k {
                    assert(change_end(toks, edits[i]) <= edits[k].start);
                } else if i > k {
                    assert(change_end(toks, edits[k]) <= edits[i].start);
                }
            }
        }
    }
}

proof fn lemma_written_so_far(toks: Seq<Tok>, edits: Seq<EditModel>, k: int)
    requires
        changes_apart(toks, edits),
        0 <= k <= edits.len(),
    ensures
        ({
            let w = write_edits(toks, edits, k);
            &&& w.next == if k > 0 { change_end(toks, edits[k - 1]) } else { 0 }
            &&& w.text == left_of(toks, edits, w.next)
        }),
    decreases k,
{
    if k > 0 {
        lemma_written_so_far(toks, edits, k - 1);
        let w = write_edits(toks, edits, k - 1);
        let e = edits[k - 1];
        assert(0 <= edits[k - 1].start < edits[k - 1].end <= change_end(toks, edits[k - 1]) <= toks.len());
        if k > 1 {
            assert(change_end(toks, edits[k - 2]) <= edits[k - 1].start);
        }
        lemma_between_changes(toks, edits, k - 1, w.next, e.start);
        lemma_kept_run(toks, edits, w.next, e.start);
        let text = left_of(toks, edits, e.start);
        if w.next == e.start {
            assert(toks.subrange(w.next, e.start) =~= Seq::empty());
            assert(w.text + Seq::<char>::empty() =~= w.text);
        }
        lemma_taken_run(toks, edits, k - 1, change_end(toks, e));
        assert(starts_there(edits, e.start, k - 1));
        let i = choose|i: int| starts_there(edits, e.start, i);
        assert(i == k - 1) by {
            if i < k - 1 {
                assert(change_end(toks, edits[i]) <= edits[k - 1].start);
            } else if i > k - 1 {
                assert(change_end(toks, edits[k - 1]) <= edits[i].start);
            }
        }
        assert(put_in(edits, e.start, text) =~= match e.replacement {
            Some(r) => text + r,
            None => separated(text),
        });
    }
}

/// Between two changes nothing starts and nothing is taken out.
proof fn lemma_between_changes(toks: Seq<Tok>, edits: Seq<EditModel>, k: int, from: int, to: int)
    requires
        changes_apart(toks, edits),
        0 <= k <= edits.len(),
        from == if k > 0 { change_end(toks, edits[k - 1]) } else { 0 },
        to == if k < edits.len() { edits[k].start } else { toks.len() as int },
    ensures
        forall|t: int, i: int| from <= t < to ==> !#[trigger] starts_there(edits, t, i),
        forall|t: int| from <= t < to ==> !#[trigger] taken_out(toks, edits, t),
{
    assert forall|t: int, i: int| from <= t < to && 0 <= i < edits.len() implies !(#[trigger] starts_there(edits, t, i)) && !(
    edits[i].start <= t < change_end(toks, edits[i])) by {
        if i < k - 1 {
            assert(change_end(toks, edits[i]) <= edits[k - 1].start);
            assert(edits[k - 1].start < change_end(toks, edits[k - 1]));
        } else if i > k {
            assert(change_end(toks, edits[k]) <= edits[i].start);
            assert(edits[k].start < change_end(toks, edits[k]));
        }
        assert(edits[i].start < change_end(toks, edits[i]));
    }
    assert forall|t: int| from <= t < to implies !#[trigger] taken_out(toks, edits, t) by {
        if taken_out(toks, edits, t) {
            let i = choose|i: int|
                0 <= i < edits.len() && (#[trigger] edits[i]).start <= t < change_end(toks, edits[i]);
            assert(!starts_there(edits, t, i) || starts_there(edits, t, i));
        }
    }
}

/// The style sheet that is left has every token that no change takes out, in order, and
/// where a change starts what it puts in.
pub proof fn law_all_else_is_kept(toks: Seq<Tok>, edits: Seq<EditModel>)
    requires
        changes_apart(toks, edits),
    ensures
        cleaned(toks, edits) == left_of(toks, edits, toks.len() as int),
{
    assert forall|i: int, j: int| 0 <= i < j < edits.len() implies (#[trigger] edits[i]).start <= (#[trigger] edits[j]).start by {
        assert(change_end(toks, edits[i]) <= edits[j].start);
        assert(edits[i].start < change_end(toks, edits[i]));
    }
    lemma_ordered_edits_stay(edits);
    let n = edits.len() as int;
    lemma_written_so_far(toks, edits, n);
    let w = write_edits(toks, edits, n);
    if n > 0 {
        assert(change_end(toks, edits[n - 1]) <= toks.len());
    }
    lemma_between_changes(toks, edits, n, w.next, toks.len() as int);
    lemma_kept_run(toks, edits, w.next, toks.len() as int);
    if w.next == toks.len() {
        assert(toks.subrange(w.next, toks.len() as int) =~= Seq::empty());
        assert(w.text + Seq::<char>::empty() =~= w.text);
    }
}

} // verus!
