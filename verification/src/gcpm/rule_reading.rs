//! Style rules are understood as they are meant.
//!
//! The declarations of a rule are given as their author means them, and written out in
//! any manner. Reading the tokens gives what was meant.

use crate::gcpm::bookmark::BookmarkLevel;
use crate::gcpm::cursor::{after, cur, stop_at, Cur};
use crate::gcpm::grammar::{mark, same_word};
use crate::gcpm::reading::{
    counter_property_name, law_bookmark_levels_are_read_as_meant, law_bookmark_none_is_read_as_meant,
    law_content_is_read_as_meant, law_counters_are_read_as_meant, law_running_is_read_as_meant,
    law_string_set_is_read_as_meant, lemma_counters_even, lemma_pieces_even, lemma_set_values_even, meant_items,
    meant_op, meant_ops, none_is_none, then_counters, then_pieces, then_set_values, CounterEntry,
    CounterProperty, Piece,
};
use crate::gcpm::rules::{
    all_strings, declare, declare_all, dynamic, has_dynamic, joined_strings, nothing_declared,
    of_other_properties, Declared, EditModel,
};
use crate::gcpm::sheet::{body_items, BodyModel};
use crate::gcpm::spelling::{
    ahead, even, lemma_calm, lemma_even_block, lemma_even_gap, lemma_even_token, lemma_gap_left,
    lemma_level_both, lemma_level_token, lemma_spells_both, lemma_spells_one, lemma_take, level, proper,
    then_call, then_ident, then_keyword, then_mark, then_token, Manner,
};
use crate::gcpm::token::{Bracket, Lexeme, Mark, Tok, WordKind};
use crate::gcpm::{ContentModel, CounterOpModel, SetValueModel};
use crate::text::lower;
use vstd::prelude::*;

verus! {

/// A declaration of a style rule.
pub ghost enum Saying {
    /// `position: running(<name>)`.
    Running(Seq<char>),
    /// `string-set: <name> <value>*`.
    StringSet(Seq<char>, Seq<SetValueModel>),
    /// One of the properties that change counters.
    Counters(CounterProperty, Seq<CounterEntry>),
    /// `bookmark-level: <integer>`, with the bits of the number as a single.
    Level(i32, u32),
    /// `bookmark-level: none`.
    NoLevel,
    /// `bookmark-label: <piece>*`.
    Label(Seq<Piece>),
    /// `content: <piece>*`.
    Content(Seq<Piece>),
    /// Another property with any value.
    Other(Seq<char>, Seq<Lexeme>),
}

/// The name of the property.
pub open spec fn saying_name(m: Manner, s: Saying) -> Seq<char> {
    match s {
        Saying::Running(_) => (m.case)("position"@),
        Saying::StringSet(_, _) => (m.case)("string-set"@),
        Saying::Counters(p, _) => (m.case)(counter_property_name(p)),
        Saying::Level(_, _) => (m.case)("bookmark-level"@),
        Saying::NoLevel => (m.case)("bookmark-level"@),
        Saying::Label(_) => (m.case)("bookmark-label"@),
        Saying::Content(_) => (m.case)("content"@),
        Saying::Other(name, _) => name,
    }
}

/// The value of the property.
pub open spec fn saying_value(m: Manner, s: Saying) -> Seq<Lexeme> {
    match s {
        Saying::Running(name) => then_call(m, "running"@, then_ident(m, name, m.gap), m.gap),
        Saying::StringSet(name, values) => then_ident(m, name, then_set_values(m, values, m.gap)),
        Saying::Counters(_, entries) => then_counters(m, entries, m.gap),
        Saying::Level(n, bits) => then_token(m, Lexeme::Number(bits, Some(n)), m.gap),
        Saying::NoLevel => then_keyword(m, "none"@, m.gap),
        Saying::Label(pieces) => then_pieces(m, pieces, m.gap),
        Saying::Content(pieces) => then_pieces(m, pieces, m.gap),
        Saying::Other(_, value) => value,
    }
}

/// What can be said: no counter is called `none`, and other properties are other ones, with
/// a value whose blocks are closed.
pub open spec fn sound_saying(s: Saying) -> bool {
    match s {
        Saying::Counters(_, entries) => none_is_none(entries),
        Saying::Other(name, value) => {
            &&& !same_word(name, "position"@)
            &&& !same_word(name, "string-set"@)
            &&& !same_word(name, "counter-reset"@)
            &&& !same_word(name, "counter-increment"@)
            &&& !same_word(name, "counter-set"@)
            &&& !same_word(name, "bookmark-level"@)
            &&& !same_word(name, "bookmark-label"@)
            &&& !same_word(name, "content"@)
            &&& even(value)
        },
        _ => true,
    }
}

/// All of it.
pub open spec fn sound_sayings(sayings: Seq<Saying>) -> bool {
    forall|i: int| 0 <= i < sayings.len() ==> sound_saying(#[trigger] sayings[i])
}

/// A declaration.
pub open spec fn then_saying(m: Manner, s: Saying, rest: Seq<Lexeme>) -> Seq<Lexeme> {
    then_ident(
        m,
        saying_name(m, s),
        then_mark(m, Mark::Colon, saying_value(m, s) + (seq![Lexeme::Mark(Mark::Semicolon)] + rest)),
    )
}

/// Declarations, one after the other.
pub open spec fn then_sayings(m: Manner, sayings: Seq<Saying>, rest: Seq<Lexeme>) -> Seq<Lexeme>
    decreases sayings.len(),
{
    if sayings.len() == 0 {
        rest
    } else {
        then_saying(m, sayings[0], then_sayings(m, sayings.drop_first(), rest))
    }
}

/// What a style rule says in all.
#[verifier::ext_equal]
pub ghost struct Said {
    pub running: Option<Seq<char>>,
    pub string_set: Option<(Seq<char>, Seq<SetValueModel>)>,
    pub ops: Seq<CounterOpModel>,
    pub content: Option<Seq<ContentModel>>,
    pub text: Option<Seq<char>>,
    pub level: Option<BookmarkLevel>,
    pub label: Option<Seq<ContentModel>>,
}

/// Whether an operation is one of a property.
pub open spec fn is_of(p: CounterProperty, op: CounterOpModel) -> bool {
    match p {
        CounterProperty::Reset => op is Reset,
        CounterProperty::Increment => op is Increment,
        CounterProperty::SetTo => op is SetTo,
    }
}

/// Whether a piece is different for every element.
pub open spec fn varies(piece: Piece) -> bool {
    match piece {
        Piece::Counter(_, _) => true,
        Piece::Counters(_, _, _) => true,
        Piece::TargetCounter(_, _, _) => true,
        Piece::TargetCounters(_, _, _, _) => true,
        Piece::TargetText(_, _) => true,
        _ => false,
    }
}

/// Whether some piece is.
pub open spec fn some_varies(pieces: Seq<Piece>) -> bool {
    exists|i: int| 0 <= i < pieces.len() && varies(#[trigger] pieces[i])
}

/// Whether all pieces are text.
pub open spec fn only_text(pieces: Seq<Piece>) -> bool {
    forall|i: int| 0 <= i < pieces.len() ==> (#[trigger] pieces[i]) is Text
}

/// The texts of pieces, joined.
pub open spec fn joined_text(pieces: Seq<Piece>) -> Seq<char>
    decreases pieces.len(),
{
    if pieces.len() == 0 {
        Seq::empty()
    } else {
        joined_text(pieces.drop_last()) + (match pieces.last() {
            Piece::Text(s) => s,
            _ => Seq::empty(),
        })
    }
}

/// What the first `k` declarations of a rule say, on a pseudo-element or not. A later
/// declaration of a property replaces an earlier one. A counter property with no counter
/// changes nothing, and the operations of another property stay. Content of several
/// texts is one text; content of one piece is left to others unless it varies.
pub open spec fn meant_by(sayings: Seq<Saying>, k: int, generated: bool) -> Said
    decreases k,
{
    if k <= 0 || k > sayings.len() {
        Said { running: None, string_set: None, ops: Seq::empty(), content: None, text: None, level: None, label: None }
    } else {
        let d = meant_by(sayings, k - 1, generated);
        match sayings[k - 1] {
            Saying::Running(name) => Said { running: Some(name), ..d },
            Saying::StringSet(name, values) => if values.len() > 0 {
                Said { string_set: Some((name, values)), ..d }
            } else {
                d
            },
            Saying::Counters(p, entries) => if entries.len() > 0 {
                Said { ops: d.ops.filter(|op: CounterOpModel| !is_of(p, op)) + meant_ops(p, entries), ..d }
            } else {
                d
            },
            Saying::Level(n, _) => if n >= 256 {
                Said { level: Some(BookmarkLevel::Integer(255)), ..d }
            } else if n >= 1 {
                Said { level: Some(BookmarkLevel::Integer(n as u8)), ..d }
            } else {
                d
            },
            Saying::NoLevel => Said { level: Some(BookmarkLevel::None_), ..d },
            Saying::Label(pieces) => Said { label: Some(meant_items(pieces)), ..d },
            Saying::Content(pieces) => if !generated {
                d
            } else if pieces.len() >= 2 && only_text(pieces) {
                Said { content: None, text: Some(joined_text(pieces)), ..d }
            } else if pieces.len() >= 2 || some_varies(pieces) {
                Said { content: Some(meant_items(pieces)), text: None, ..d }
            } else {
                Said { content: None, text: None, ..d }
            },
            Saying::Other(_, _) => d,
        }
    }
}

/// What declarations have said, apart from the changes to the style sheet.
pub open spec fn said_in(d: Declared) -> Said {
    Said {
        running: d.running,
        string_set: d.string_set,
        ops: d.counter_ops,
        content: d.content,
        text: d.static_content,
        level: d.level,
        label: d.label,
    }
}

proof fn lemma_properties_differ()
    ensures
        !same_word("position"@, "string-set"@),
        !same_word("position"@, "counter-reset"@),
        !same_word("position"@, "counter-increment"@),
        !same_word("position"@, "counter-set"@),
        !same_word("position"@, "bookmark-level"@),
        !same_word("position"@, "bookmark-label"@),
        !same_word("position"@, "content"@),
        !same_word("string-set"@, "counter-reset"@),
        !same_word("string-set"@, "counter-increment"@),
        !same_word("string-set"@, "counter-set"@),
        !same_word("string-set"@, "bookmark-level"@),
        !same_word("string-set"@, "bookmark-label"@),
        !same_word("string-set"@, "content"@),
        !same_word("counter-reset"@, "counter-increment"@),
        !same_word("counter-reset"@, "counter-set"@),
        !same_word("counter-reset"@, "bookmark-level"@),
        !same_word("counter-reset"@, "bookmark-label"@),
        !same_word("counter-reset"@, "content"@),
        !same_word("counter-increment"@, "counter-set"@),
        !same_word("counter-increment"@, "bookmark-level"@),
        !same_word("counter-increment"@, "bookmark-label"@),
        !same_word("counter-increment"@, "content"@),
        !same_word("counter-set"@, "bookmark-level"@),
        !same_word("counter-set"@, "bookmark-label"@),
        !same_word("counter-set"@, "content"@),
        !same_word("bookmark-level"@, "bookmark-label"@),
        !same_word("bookmark-level"@, "content"@),
        !same_word("bookmark-label"@, "content"@),
{
    reveal_strlit("position");
    reveal_strlit("string-set");
    reveal_strlit("counter-reset");
    reveal_strlit("counter-increment");
    reveal_strlit("counter-set");
    reveal_strlit("bookmark-level");
    reveal_strlit("bookmark-label");
    reveal_strlit("content");
    assert(lower("position"@).len() != lower("string-set"@).len());
    assert(lower("position"@).len() != lower("counter-reset"@).len());
    assert(lower("position"@).len() != lower("counter-increment"@).len());
    assert(lower("position"@).len() != lower("counter-set"@).len());
    assert(lower("position"@).len() != lower("bookmark-level"@).len());
    assert(lower("position"@).len() != lower("bookmark-label"@).len());
    assert(lower("position"@).len() != lower("content"@).len());
    assert(lower("string-set"@).len() != lower("counter-reset"@).len());
    assert(lower("string-set"@).len() != lower("counter-increment"@).len());
    assert(lower("string-set"@).len() != lower("counter-set"@).len());
    assert(lower("string-set"@).len() != lower("bookmark-level"@).len());
    assert(lower("string-set"@).len() != lower("bookmark-label"@).len());
    assert(lower("string-set"@).len() != lower("content"@).len());
    assert(lower("counter-reset"@).len() != lower("counter-increment"@).len());
    assert(lower("counter-reset"@).len() != lower("counter-set"@).len());
    assert(lower("counter-reset"@).len() != lower("bookmark-level"@).len());
    assert(lower("counter-reset"@).len() != lower("bookmark-label"@).len());
    assert(lower("counter-reset"@).len() != lower("content"@).len());
    assert(lower("counter-increment"@).len() != lower("counter-set"@).len());
    assert(lower("counter-increment"@).len() != lower("bookmark-level"@).len());
    assert(lower("counter-increment"@).len() != lower("bookmark-label"@).len());
    assert(lower("counter-increment"@).len() != lower("content"@).len());
    assert(lower("counter-set"@).len() != lower("bookmark-level"@).len());
    assert(lower("counter-set"@).len() != lower("bookmark-label"@).len());
    assert(lower("counter-set"@).len() != lower("content"@).len());
    assert(lower("bookmark-level"@)[10] != lower("bookmark-label"@)[10]);
    assert(lower("bookmark-level"@).len() != lower("content"@).len());
    assert(lower("bookmark-label"@).len() != lower("content"@).len());
}

pub proof fn lemma_saying_even(m: Manner, s: Saying)
    requires
        proper(m),
        sound_saying(s),
    ensures
        even(saying_value(m, s)),
{
    lemma_even_gap(m);
    match s {
        Saying::Running(name) => {
            lemma_even_token(m, Lexeme::Word(WordKind::Ident, name), m.gap);
            lemma_even_block(
                m,
                Lexeme::Word(WordKind::Function, (m.case)("running"@)),
                Bracket::Paren,
                then_ident(m, name, m.gap),
                m.gap,
            );
        },
        Saying::StringSet(name, values) => {
            lemma_set_values_even(m, values, m.gap);
            lemma_even_token(m, Lexeme::Word(WordKind::Ident, name), then_set_values(m, values, m.gap));
        },
        Saying::Counters(_, entries) => lemma_counters_even(m, entries, m.gap),
        Saying::Level(n, bits) => lemma_even_token(m, Lexeme::Number(bits, Some(n)), m.gap),
        Saying::NoLevel => lemma_even_token(m, Lexeme::Word(WordKind::Ident, (m.case)("none"@)), m.gap),
        Saying::Label(pieces) => lemma_pieces_even(m, pieces, m.gap),
        Saying::Content(pieces) => lemma_pieces_even(m, pieces, m.gap),
        Saying::Other(_, value) => {},
    }
}

pub proof fn lemma_sayings_level(m: Manner, sayings: Seq<Saying>, rest: Seq<Lexeme>)
    requires
        proper(m),
        sound_sayings(sayings),
        level(rest),
    ensures
        level(then_sayings(m, sayings, rest)),
    decreases sayings.len(),
{
    if sayings.len() > 0 {
        let s = sayings[0];
        assert(sound_saying(sayings[0]));
        let more = then_sayings(m, sayings.drop_first(), rest);
        assert forall|i: int| 0 <= i < sayings.drop_first().len() implies sound_saying(
            #[trigger] sayings.drop_first()[i],
        ) by {
            assert(sayings.drop_first()[i] == sayings[i + 1]);
        }
        lemma_sayings_level(m, sayings.drop_first(), rest);
        lemma_saying_even(m, s);
        lemma_declaration_level(m, saying_name(m, s), saying_value(m, s), more);
    }
}

/// The blocks of a declaration are closed where those of its value are.
pub proof fn lemma_declaration_level(m: Manner, name: Seq<char>, value: Seq<Lexeme>, more: Seq<Lexeme>)
    requires
        proper(m),
        level(value),
        level(more),
    ensures
        level(
            then_ident(
                m,
                name,
                then_mark(m, Mark::Colon, value + (seq![Lexeme::Mark(Mark::Semicolon)] + more)),
            ),
        ),
{
    let semicolon = Lexeme::Mark(Mark::Semicolon);
    let bare = Manner { gap: Seq::empty(), case: m.case };
    assert(proper(bare)) by {
        assert forall|w: Seq<char>| same_word(#[trigger] (bare.case)(w), w) by {
            assert(same_word((m.case)(w), w));
        }
    }
    lemma_level_token(bare, semicolon, more);
    assert(then_token(bare, semicolon, more) =~= seq![semicolon] + more);
    lemma_level_both(value, seq![semicolon] + more);
    lemma_level_token(m, Lexeme::Mark(Mark::Colon), value + (seq![semicolon] + more));
    lemma_level_token(
        m,
        Lexeme::Word(WordKind::Ident, name),
        then_mark(m, Mark::Colon, value + (seq![semicolon] + more)),
    );
}

/// A declaration is found in a block as it is written there: its name, and its value.
pub proof fn lemma_declaration_found(
    toks: Seq<Tok>,
    i: int,
    end: int,
    m: Manner,
    name: Seq<char>,
    value: Seq<Lexeme>,
    more: Seq<Lexeme>,
    before: Seq<BodyModel>,
) -> (item: BodyModel)
    requires
        proper(m),
        even(value),
        ahead(
            toks,
            end,
            cur(i),
            then_ident(
                m,
                name,
                then_mark(m, Mark::Colon, value + (seq![Lexeme::Mark(Mark::Semicolon)] + more)),
            ),
        ),
    ensures
        found(toks, item, name, value),
        i <= end - more.len(),
        ahead(toks, end, cur(end - more.len()), more),
        body_items(toks, i, end, before) == body_items(toks, end - more.len(), end, before.push(item)),
{
    let semicolon = Lexeme::Mark(Mark::Semicolon);
    let tail = value + (seq![semicolon] + more);
    let after_name = then_mark(m, Mark::Colon, tail);
    lemma_take(toks, end, cur(i), m, Lexeme::Word(WordKind::Ident, name), after_name);
    let p = i + m.gap.len();
    lemma_take(toks, end, cur(p + 1), m, Lexeme::Mark(Mark::Colon), tail);
    let v = p + 1 + m.gap.len() + 1;
    lemma_spells_both(toks, v, value, seq![semicolon] + more);
    let d = v + value.len();
    lemma_spells_one(toks, d, semicolon, more);
    let lead = m.gap + (seq![Lexeme::Mark(Mark::Colon)] + value);
    assert(even(lead)) by {
        lemma_even_token(m, Lexeme::Mark(Mark::Colon), value);
    }
    assert(after_name =~= lead + (seq![semicolon] + more));
    lemma_spells_both(toks, p + 1, lead, seq![semicolon] + more);
    lemma_calm(toks, p + 1, end, lead, true, false);
    assert(stop_at(toks, p + 1, end, true, false) == d);
    assert(ahead(toks, d, cur(p + 1), lead));
    assert(lead == then_token(m, Lexeme::Mark(Mark::Colon), value));
    lemma_take(toks, d, cur(p + 1), m, Lexeme::Mark(Mark::Colon), value);
    let item = BodyModel::Declaration { name, start: p, value: v, end: d };
    assert(mark(toks, d, cur(p + 1), Mark::Colon) == Some(after(toks, v - 1)));
    item
}

/// Whether an item of a block is a declaration with a given name and value.
pub open spec fn found(toks: Seq<Tok>, item: BodyModel, name: Seq<char>, value: Seq<Lexeme>) -> bool {
    match item {
        BodyModel::Declaration { name: n, start, value: v, end } => {
            &&& n == name
            &&& 0 <= start < v
            &&& toks[start].kind == Lexeme::Word(WordKind::Ident, name)
            &&& toks[v - 1].kind == Lexeme::Mark(Mark::Colon)
            &&& ahead(toks, end, cur(v), value)
        },
        _ => false,
    }
}

/// Nothing more is found in a block where only a gap is left.
pub proof fn lemma_body_ends(toks: Seq<Tok>, i: int, end: int, m: Manner, before: Seq<BodyModel>)
    requires
        proper(m),
        ahead(toks, end, cur(i), m.gap),
    ensures
        body_items(toks, i, end, before) == before,
{
    lemma_gap_left(toks, end, cur(i), m);
}

/// All declarations of a block are found.
pub proof fn lemma_sayings_found(
    toks: Seq<Tok>,
    i: int,
    end: int,
    m: Manner,
    sayings: Seq<Saying>,
    before: Seq<BodyModel>,
)
    requires
        proper(m),
        sound_sayings(sayings),
        ahead(toks, end, cur(i), then_sayings(m, sayings, m.gap)),
    ensures
        ({
            let items = body_items(toks, i, end, before);
            &&& items.len() == before.len() + sayings.len()
            &&& forall|k: int| 0 <= k < before.len() ==> items[k] == #[trigger] before[k]
            &&& forall|k: int|
                0 <= k < sayings.len() ==> found(
                    toks,
                    items[before.len() + k],
                    saying_name(m, #[trigger] sayings[k]),
                    saying_value(m, sayings[k]),
                )
        }),
    decreases sayings.len(),
{
    if sayings.len() == 0 {
        lemma_body_ends(toks, i, end, m, before);
    } else {
        let s = sayings[0];
        let others = sayings.drop_first();
        assert(sound_saying(sayings[0]));
        assert forall|j: int| 0 <= j < others.len() implies sound_saying(#[trigger] others[j]) by {
            assert(others[j] == sayings[j + 1]);
        }
        let more = then_sayings(m, others, m.gap);
        lemma_saying_even(m, s);
        let item = lemma_declaration_found(toks, i, end, m, saying_name(m, s), saying_value(m, s), more, before);
        let now = before.push(item);
        lemma_sayings_found(toks, end - more.len(), end, m, others, now);
        let items = body_items(toks, i, end, before);
        assert(items[before.len() as int] == now[before.len() as int]);
        assert forall|k: int| 0 <= k < before.len() implies items[k] == #[trigger] before[k] by {
            assert(now[k] == before[k]);
        }
        assert forall|k: int| 0 <= k < sayings.len() implies found(
            toks,
            items[before.len() + k],
            saying_name(m, #[trigger] sayings[k]),
            saying_value(m, sayings[k]),
        ) by {
            if k > 0 {
                assert(others[k - 1] == sayings[k]);
            }
        }
    }
}

proof fn lemma_others_kept(ops: Seq<CounterOpModel>, p: CounterProperty, op: CounterOpModel)
    requires
        is_of(p, op),
    ensures
        of_other_properties(ops, op) == ops.filter(|o: CounterOpModel| !is_of(p, o)),
    decreases ops.len(),
{
    reveal(Seq::filter);
    if ops.len() > 0 {
        lemma_others_kept(ops.drop_last(), p, op);
    }
}

proof fn lemma_texts_joined(pieces: Seq<Piece>)
    ensures
        joined_strings(meant_items(pieces)) == joined_text(pieces),
    decreases pieces.len(),
{
    if pieces.len() > 0 {
        lemma_texts_joined(pieces.drop_last());
        assert(meant_items(pieces).drop_last() =~= meant_items(pieces.drop_last()));
        assert(joined_text(pieces.drop_last()) + Seq::<char>::empty() =~= joined_text(pieces.drop_last()));
    }
}

proof fn lemma_same_sorts(pieces: Seq<Piece>)
    ensures
        all_strings(meant_items(pieces)) == only_text(pieces),
        has_dynamic(meant_items(pieces)) == some_varies(pieces),
{
    let items = meant_items(pieces);
    if only_text(pieces) {
        assert forall|i: int| 0 <= i < items.len() implies (#[trigger] items[i]) is String by {
            assert(pieces[i] is Text);
        }
    }
    if all_strings(items) {
        assert forall|i: int| 0 <= i < pieces.len() implies (#[trigger] pieces[i]) is Text by {
            assert(items[i] is String);
        }
    }
    if some_varies(pieces) {
        let i = choose|i: int| 0 <= i < pieces.len() && varies(#[trigger] pieces[i]);
        assert(dynamic(items[i]));
    }
    if has_dynamic(items) {
        let i = choose|i: int| 0 <= i < items.len() && dynamic(#[trigger] items[i]);
        assert(varies(pieces[i]));
    }
}

/// The change to the style sheet that a declaration asks for: what other renderers do not
/// understand is taken out from the name of the property to the end of its value, and a
/// running element is not displayed in its place.
pub open spec fn asked_change(m: Manner, s: Saying, item: BodyModel, generated: bool) -> Option<EditModel> {
    match item {
        BodyModel::Declaration { start, value, end, .. } => {
            let until = end - m.gap.len();
            match s {
                Saying::Running(_) => Some(EditModel { start, end: until, replacement: Some("display: none"@) }),
                Saying::StringSet(_, values) => if values.len() > 0 {
                    Some(EditModel { start, end: until, replacement: Some(Seq::empty()) })
                } else {
                    None
                },
                Saying::Counters(_, entries) => Some(
                    EditModel {
                        start,
                        end: if entries.len() > 0 { until } else { value },
                        replacement: Some(Seq::empty()),
                    },
                ),
                Saying::Content(pieces) => if generated && (pieces.len() >= 2 || some_varies(pieces)) {
                    Some(EditModel { start, end: until, replacement: Some(Seq::empty()) })
                } else {
                    None
                },
                _ => None,
            }
        },
        _ => None,
    }
}

/// The changes that the first `k` declarations of a rule ask for.
pub open spec fn asked_changes(m: Manner, sayings: Seq<Saying>, items: Seq<BodyModel>, k: int, generated: bool) -> Seq<
    EditModel,
>
    decreases k,
{
    if k <= 0 || k > sayings.len() {
        Seq::empty()
    } else {
        let before = asked_changes(m, sayings, items, k - 1, generated);
        match asked_change(m, sayings[k - 1], items[k - 1], generated) {
            Some(change) => before.push(change),
            None => before,
        }
    }
}

/// The effect of one declaration.
proof fn lemma_saying_declared(
    toks: Seq<Tok>,
    m: Manner,
    sayings: Seq<Saying>,
    k: int,
    d: Declared,
    start: int,
    c: Cur,
    end: int,
    generated: bool,
)
    requires
        proper(m),
        0 < k <= sayings.len(),
        sound_saying(sayings[k - 1]),
        ahead(toks, end, c, saying_value(m, sayings[k - 1])),
        said_in(d) == meant_by(sayings, k - 1, generated),
    ensures
        said_in(declare(toks, d, saying_name(m, sayings[k - 1]), start, c, end, generated)) == meant_by(
            sayings,
            k,
            generated,
        ),
        ({
            let name = saying_name(m, sayings[k - 1]);
            let item = BodyModel::Declaration { name, start, value: c.pos, end };
            declare(toks, d, name, start, c, end, generated).edits == match asked_change(
                m,
                sayings[k - 1],
                item,
                generated,
            ) {
                Some(change) => d.edits.push(change),
                None => d.edits,
            }
        }),
{
    lemma_properties_differ();
    let s = sayings[k - 1];
    let name = saying_name(m, s);
    match s {
        Saying::Running(n) => {
            assert(same_word(name, "position"@));
            law_running_is_read_as_meant(toks, end, c, m, n);
        },
        Saying::StringSet(n, values) => {
            assert(same_word(name, "string-set"@));
            law_string_set_is_read_as_meant(toks, end, c, m, n, values);
        },
        Saying::Counters(p, entries) => {
            assert(same_word(name, counter_property_name(p)));
            law_counters_are_read_as_meant(toks, end, c, m, p, name, entries, Seq::empty());
            assert(Seq::empty() + meant_ops(p, entries) =~= meant_ops(p, entries));
            if entries.len() > 0 {
                assert(meant_ops(p, entries)[0] == meant_op(p, entries[0]));
                lemma_others_kept(d.counter_ops, p, meant_op(p, entries[0]));
            }
        },
        Saying::Level(n, bits) => {
            assert(same_word(name, "bookmark-level"@));
            law_bookmark_levels_are_read_as_meant(toks, end, c, m, n, bits, m.gap);
        },
        Saying::NoLevel => {
            assert(same_word(name, "bookmark-level"@));
            law_bookmark_none_is_read_as_meant(toks, end, c, m, m.gap);
        },
        Saying::Label(pieces) => {
            assert(same_word(name, "bookmark-label"@));
            law_content_is_read_as_meant(toks, end, c, m, pieces, Seq::empty());
            assert(Seq::empty() + meant_items(pieces) =~= meant_items(pieces));
        },
        Saying::Content(pieces) => {
            assert(same_word(name, "content"@));
            law_content_is_read_as_meant(toks, end, c, m, pieces, Seq::empty());
            assert(Seq::empty() + meant_items(pieces) =~= meant_items(pieces));
            lemma_same_sorts(pieces);
            lemma_texts_joined(pieces);
        },
        Saying::Other(_, _) => {},
    }
}

/// The block of a style rule is read as it is meant, and the changes to the style sheet
/// are those that its declarations ask for.
pub proof fn law_declarations_are_read_as_meant(
    toks: Seq<Tok>,
    start: int,
    end: int,
    m: Manner,
    sayings: Seq<Saying>,
    generated: bool,
    edits: Seq<EditModel>,
)
    requires
        proper(m),
        sound_sayings(sayings),
        ahead(toks, end, cur(start), then_sayings(m, sayings, m.gap)),
    ensures
        ({
            let items = body_items(toks, start, end, Seq::empty());
            said_in(declare_all(toks, nothing_declared(edits), items, items.len() as int, generated)) == meant_by(
                sayings,
                sayings.len() as int,
                generated,
            )
        }),
        ({
            let items = body_items(toks, start, end, Seq::empty());
            declare_all(toks, nothing_declared(edits), items, items.len() as int, generated).edits == edits
                + asked_changes(m, sayings, items, sayings.len() as int, generated)
        }),
{
    lemma_sayings_found(toks, start, end, m, sayings, Seq::empty());
    let items = body_items(toks, start, end, Seq::empty());
    lemma_declared_up_to(toks, m, sayings, items, items.len() as int, generated, edits);
}

proof fn lemma_declared_up_to(
    toks: Seq<Tok>,
    m: Manner,
    sayings: Seq<Saying>,
    items: Seq<BodyModel>,
    k: int,
    generated: bool,
    edits: Seq<EditModel>,
)
    requires
        proper(m),
        sound_sayings(sayings),
        0 <= k <= sayings.len(),
        items.len() == sayings.len(),
        forall|j: int|
            0 <= j < sayings.len() ==> found(
                toks,
                items[j],
                saying_name(m, #[trigger] sayings[j]),
                saying_value(m, sayings[j]),
            ),
    ensures
        said_in(declare_all(toks, nothing_declared(edits), items, k, generated)) == meant_by(sayings, k, generated),
        declare_all(toks, nothing_declared(edits), items, k, generated).edits == edits + asked_changes(
            m,
            sayings,
            items,
            k,
            generated,
        ),
    decreases k,
{
    if k == 0 {
        assert(edits + Seq::<EditModel>::empty() =~= edits);
    }
    if k > 0 {
        lemma_declared_up_to(toks, m, sayings, items, k - 1, generated, edits);
        let s = sayings[k - 1];
        assert(sound_saying(sayings[k - 1]));
        match items[k - 1] {
            BodyModel::Declaration { name, start, value, end } => {
                let d = declare_all(toks, nothing_declared(edits), items, k - 1, generated);
                lemma_saying_declared(toks, m, sayings, k, d, start, cur(value), end, generated);
                let before = asked_changes(m, sayings, items, k - 1, generated);
                if let Some(change) = asked_change(m, s, items[k - 1], generated) {
                    assert((edits + before).push(change) =~= edits + before.push(change));
                }
            },
            _ => {},
        }
    }
}

} // verus!
