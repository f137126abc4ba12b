//! Page rules are understood as they are meant.

use crate::gcpm::cursor::{cur, stop_at};
use crate::gcpm::grammar::{content_items, same_word};
use crate::gcpm::margin_box::{box_named, MarginBoxPosition};
use crate::gcpm::page_reading::{
    law_margin_sides_are_read_as_meant, law_margins_are_read_as_meant, law_sizes_are_read_as_meant,
    lemma_lengths_even, lemma_size_even, length_token, meant_length, meant_size, size_tokens, sound_length,
    sound_lengths, sound_size, then_lengths, LengthText, SizeText,
};
use crate::gcpm::reading::{
    law_content_is_read_as_meant, lemma_pieces_even, meant_items, then_pieces, Piece,
};
use crate::gcpm::rule_reading::{
    found, lemma_body_ends, lemma_declaration_found, lemma_declaration_level,
};
use crate::gcpm::rules::{declare_all_in_box, margin_box, page_item, page_items, PageDeclared};
use crate::gcpm::sheet::{body_items, BodyModel};
use crate::gcpm::spelling::{
    ahead, closed_by, even, lemma_block, lemma_calm, lemma_even_gap, lemma_even_token, lemma_gap_left,
    lemma_level_block, lemma_spells_both, lemma_take, level, proper, then_ident, then_mark, then_token, Manner,
};
use crate::gcpm::token::{source, Bracket, Lexeme, Mark, Tok, WordKind};
use crate::gcpm::{MarginBoxModel, PartialMargin};
use crate::text::{lower, trimmed};
use vstd::prelude::*;

verus! {

/// A side of a page.
pub ghost enum PageSide {
    Top,
    Right,
    Bottom,
    Left,
}

/// What a page rule says in one place: a property, or the content of a margin box.
pub ghost enum PageSaying {
    Size(SizeText),
    Margin(Seq<LengthText>),
    Side(PageSide, LengthText),
    Box(MarginBoxPosition, Seq<Piece>),
}

/// The name of the property.
pub open spec fn page_property(s: PageSaying) -> Seq<char> {
    match s {
        PageSaying::Size(_) => "size"@,
        PageSaying::Margin(_) => "margin"@,
        PageSaying::Side(PageSide::Top, _) => "margin-top"@,
        PageSaying::Side(PageSide::Right, _) => "margin-right"@,
        PageSaying::Side(PageSide::Bottom, _) => "margin-bottom"@,
        PageSaying::Side(PageSide::Left, _) => "margin-left"@,
        PageSaying::Box(_, _) => Seq::empty(),
    }
}

/// The value of the property.
pub open spec fn page_value(m: Manner, s: PageSaying) -> Seq<Lexeme> {
    match s {
        PageSaying::Size(size) => size_tokens(m, size),
        PageSaying::Margin(values) => then_lengths(m, values, m.gap),
        PageSaying::Side(_, l) => then_token(m, length_token(m, l), m.gap),
        PageSaying::Box(_, _) => m.gap,
    }
}

/// The at-keyword of a margin box.
pub open spec fn box_word(position: MarginBoxPosition) -> Seq<char> {
    match position {
        MarginBoxPosition::TopLeftCorner => "top-left-corner"@,
        MarginBoxPosition::TopLeft => "top-left"@,
        MarginBoxPosition::TopCenter => "top-center"@,
        MarginBoxPosition::TopRight => "top-right"@,
        MarginBoxPosition::TopRightCorner => "top-right-corner"@,
        MarginBoxPosition::RightTop => "right-top"@,
        MarginBoxPosition::RightMiddle => "right-middle"@,
        MarginBoxPosition::RightBottom => "right-bottom"@,
        MarginBoxPosition::BottomRightCorner => "bottom-right-corner"@,
        MarginBoxPosition::BottomRight => "bottom-right"@,
        MarginBoxPosition::BottomCenter => "bottom-center"@,
        MarginBoxPosition::BottomLeft => "bottom-left"@,
        MarginBoxPosition::BottomLeftCorner => "bottom-left-corner"@,
        MarginBoxPosition::LeftBottom => "left-bottom"@,
        MarginBoxPosition::LeftMiddle => "left-middle"@,
        MarginBoxPosition::LeftTop => "left-top"@,
    }
}

/// What can be said: page sizes and lengths as they are, and one to four margins.
pub open spec fn sound_page_saying(s: PageSaying) -> bool {
    match s {
        PageSaying::Size(size) => sound_size(size),
        PageSaying::Margin(values) => 1 <= values.len() <= 4 && sound_lengths(values),
        PageSaying::Side(_, l) => sound_length(l),
        PageSaying::Box(_, _) => true,
    }
}

/// All of it.
pub open spec fn sound_page_sayings(sayings: Seq<PageSaying>) -> bool {
    forall|i: int| 0 <= i < sayings.len() ==> sound_page_saying(#[trigger] sayings[i])
}

/// A declaration.
pub open spec fn then_declaration(m: Manner, name: Seq<char>, value: Seq<Lexeme>, rest: Seq<Lexeme>) -> Seq<Lexeme> {
    then_ident(m, name, then_mark(m, Mark::Colon, value + (seq![Lexeme::Mark(Mark::Semicolon)] + rest)))
}

/// The block of a margin box.
pub open spec fn box_block(m: Manner, pieces: Seq<Piece>) -> Seq<Lexeme> {
    then_declaration(m, (m.case)("content"@), then_pieces(m, pieces, m.gap), m.gap)
}

/// A declaration or a margin box.
pub open spec fn then_page_saying(m: Manner, s: PageSaying, rest: Seq<Lexeme>) -> Seq<Lexeme> {
    match s {
        PageSaying::Box(position, pieces) => then_token(
            m,
            Lexeme::Word(WordKind::AtKeyword, (m.case)(box_word(position))),
            then_token(m, Lexeme::Open(Bracket::Curly), closed_by(box_block(m, pieces), Bracket::Curly, rest)),
        ),
        _ => then_declaration(m, (m.case)(page_property(s)), page_value(m, s), rest),
    }
}

/// All that a page rule says, one after the other.
pub open spec fn then_page_sayings(m: Manner, sayings: Seq<PageSaying>, rest: Seq<Lexeme>) -> Seq<Lexeme>
    decreases sayings.len(),
{
    if sayings.len() == 0 {
        rest
    } else {
        then_page_saying(m, sayings[0], then_page_sayings(m, sayings.drop_first(), rest))
    }
}

/// What the first `k` sayings of a page rule come to: every margin box in order with its
/// content, the last size, and for every side the last margin that was given to it.
pub open spec fn meant_by_page(sayings: Seq<PageSaying>, k: int, page_selector: Option<Seq<char>>) -> PageDeclared
    decreases k,
{
    if k <= 0 || k > sayings.len() {
        PageDeclared {
            boxes: Seq::empty(),
            size: None,
            margin: PartialMargin { top: None, right: None, bottom: None, left: None },
        }
    } else {
        let d = meant_by_page(sayings, k - 1, page_selector);
        match sayings[k - 1] {
            PageSaying::Size(size) => PageDeclared { size: Some(meant_size(size)), ..d },
            PageSaying::Margin(v) => {
                let top = meant_length(v[0]);
                let right = if v.len() >= 2 { meant_length(v[1]) } else { top };
                let bottom = if v.len() >= 3 { meant_length(v[2]) } else { top };
                let left = if v.len() >= 4 { meant_length(v[3]) } else { right };
                PageDeclared {
                    margin: PartialMargin { top: Some(top), right: Some(right), bottom: Some(bottom), left: Some(left) },
                    ..d
                }
            },
            PageSaying::Side(side, l) => {
                let l = Some(meant_length(l));
                PageDeclared {
                    margin: match side {
                        PageSide::Top => PartialMargin { top: l, ..d.margin },
                        PageSide::Right => PartialMargin { right: l, ..d.margin },
                        PageSide::Bottom => PartialMargin { bottom: l, ..d.margin },
                        PageSide::Left => PartialMargin { left: l, ..d.margin },
                    },
                    ..d
                }
            },
            PageSaying::Box(position, pieces) => PageDeclared {
                boxes: d.boxes.push(
                    MarginBoxModel {
                        page_selector,
                        position,
                        content: meant_items(pieces),
                        declarations: Seq::empty(),
                    },
                ),
                ..d
            },
        }
    }
}

proof fn lemma_page_properties_differ()
    ensures
        !same_word("size"@, "margin"@),
        !same_word("size"@, "margin-top"@),
        !same_word("size"@, "margin-right"@),
        !same_word("size"@, "margin-bottom"@),
        !same_word("size"@, "margin-left"@),
        !same_word("margin"@, "margin-top"@),
        !same_word("margin"@, "margin-right"@),
        !same_word("margin"@, "margin-bottom"@),
        !same_word("margin"@, "margin-left"@),
        !same_word("margin-top"@, "margin-right"@),
        !same_word("margin-top"@, "margin-bottom"@),
        !same_word("margin-top"@, "margin-left"@),
        !same_word("margin-right"@, "margin-bottom"@),
        !same_word("margin-right"@, "margin-left"@),
        !same_word("margin-bottom"@, "margin-left"@),
{
    reveal_strlit("size");
    reveal_strlit("margin");
    reveal_strlit("margin-top");
    reveal_strlit("margin-right");
    reveal_strlit("margin-bottom");
    reveal_strlit("margin-left");
    assert(lower("size"@).len() != lower("margin"@).len());
    assert(lower("size"@).len() != lower("margin-top"@).len());
    assert(lower("size"@).len() != lower("margin-right"@).len());
    assert(lower("size"@).len() != lower("margin-bottom"@).len());
    assert(lower("size"@).len() != lower("margin-left"@).len());
    assert(lower("margin"@).len() != lower("margin-top"@).len());
    assert(lower("margin"@).len() != lower("margin-right"@).len());
    assert(lower("margin"@).len() != lower("margin-bottom"@).len());
    assert(lower("margin"@).len() != lower("margin-left"@).len());
    assert(lower("margin-top"@).len() != lower("margin-right"@).len());
    assert(lower("margin-top"@).len() != lower("margin-bottom"@).len());
    assert(lower("margin-top"@).len() != lower("margin-left"@).len());
    assert(lower("margin-right"@).len() != lower("margin-bottom"@).len());
    assert(lower("margin-right"@).len() != lower("margin-left"@).len());
    assert(lower("margin-bottom"@).len() != lower("margin-left"@).len());
}

proof fn lemma_boxes_lower()
    ensures
        lower("top-left-corner"@) == "top-left-corner"@,
        lower("top-left"@) == "top-left"@,
        lower("top-center"@) == "top-center"@,
        lower("top-right"@) == "top-right"@,
        lower("top-right-corner"@) == "top-right-corner"@,
        lower("right-top"@) == "right-top"@,
        lower("right-middle"@) == "right-middle"@,
        lower("right-bottom"@) == "right-bottom"@,
        lower("bottom-right-corner"@) == "bottom-right-corner"@,
        lower("bottom-right"@) == "bottom-right"@,
        lower("bottom-center"@) == "bottom-center"@,
        lower("bottom-left"@) == "bottom-left"@,
        lower("bottom-left-corner"@) == "bottom-left-corner"@,
        lower("left-bottom"@) == "left-bottom"@,
        lower("left-middle"@) == "left-middle"@,
        lower("left-top"@) == "left-top"@,
{
    reveal_strlit("top-left-corner");
    assert(lower("top-left-corner"@) =~= "top-left-corner"@);
    reveal_strlit("top-left");
    assert(lower("top-left"@) =~= "top-left"@);
    reveal_strlit("top-center");
    assert(lower("top-center"@) =~= "top-center"@);
    reveal_strlit("top-right");
    assert(lower("top-right"@) =~= "top-right"@);
    reveal_strlit("top-right-corner");
    assert(lower("top-right-corner"@) =~= "top-right-corner"@);
    reveal_strlit("right-top");
    assert(lower("right-top"@) =~= "right-top"@);
    reveal_strlit("right-middle");
    assert(lower("right-middle"@) =~= "right-middle"@);
    reveal_strlit("right-bottom");
    assert(lower("right-bottom"@) =~= "right-bottom"@);
    reveal_strlit("bottom-right-corner");
    assert(lower("bottom-right-corner"@) =~= "bottom-right-corner"@);
    reveal_strlit("bottom-right");
    assert(lower("bottom-right"@) =~= "bottom-right"@);
    reveal_strlit("bottom-center");
    assert(lower("bottom-center"@) =~= "bottom-center"@);
    reveal_strlit("bottom-left");
    assert(lower("bottom-left"@) =~= "bottom-left"@);
    reveal_strlit("bottom-left-corner");
    assert(lower("bottom-left-corner"@) =~= "bottom-left-corner"@);
    reveal_strlit("left-bottom");
    assert(lower("left-bottom"@) =~= "left-bottom"@);
    reveal_strlit("left-middle");
    assert(lower("left-middle"@) =~= "left-middle"@);
    reveal_strlit("left-top");
    assert(lower("left-top"@) =~= "left-top"@);
}

proof fn lemma_boxes_differ()
    ensures
        "top-left-corner"@ != "top-left"@,
        "top-left-corner"@ != "top-center"@,
        "top-left-corner"@ != "top-right"@,
        "top-left-corner"@ != "top-right-corner"@,
        "top-left-corner"@ != "right-top"@,
        "top-left-corner"@ != "right-middle"@,
        "top-left-corner"@ != "right-bottom"@,
        "top-left-corner"@ != "bottom-right-corner"@,
        "top-left-corner"@ != "bottom-right"@,
        "top-left-corner"@ != "bottom-center"@,
        "top-left-corner"@ != "bottom-left"@,
        "top-left-corner"@ != "bottom-left-corner"@,
        "top-left-corner"@ != "left-bottom"@,
        "top-left-corner"@ != "left-middle"@,
        "top-left-corner"@ != "left-top"@,
        "top-left"@ != "top-center"@,
        "top-left"@ != "top-right"@,
        "top-left"@ != "top-right-corner"@,
        "top-left"@ != "right-top"@,
        "top-left"@ != "right-middle"@,
        "top-left"@ != "right-bottom"@,
        "top-left"@ != "bottom-right-corner"@,
        "top-left"@ != "bottom-right"@,
        "top-left"@ != "bottom-center"@,
        "top-left"@ != "bottom-left"@,
        "top-left"@ != "bottom-left-corner"@,
        "top-left"@ != "left-bottom"@,
        "top-left"@ != "left-middle"@,
        "top-left"@ != "left-top"@,
        "top-center"@ != "top-right"@,
        "top-center"@ != "top-right-corner"@,
        "top-center"@ != "right-top"@,
        "top-center"@ != "right-middle"@,
        "top-center"@ != "right-bottom"@,
        "top-center"@ != "bottom-right-corner"@,
        "top-center"@ != "bottom-right"@,
        "top-center"@ != "bottom-center"@,
        "top-center"@ != "bottom-left"@,
        "top-center"@ != "bottom-left-corner"@,
        "top-center"@ != "left-bottom"@,
        "top-center"@ != "left-middle"@,
        "top-center"@ != "left-top"@,
        "top-right"@ != "top-right-corner"@,
        "top-right"@ != "right-top"@,
        "top-right"@ != "right-middle"@,
        "top-right"@ != "right-bottom"@,
        "top-right"@ != "bottom-right-corner"@,
        "top-right"@ != "bottom-right"@,
        "top-right"@ != "bottom-center"@,
        "top-right"@ != "bottom-left"@,
        "top-right"@ != "bottom-left-corner"@,
        "top-right"@ != "left-bottom"@,
        "top-right"@ != "left-middle"@,
        "top-right"@ != "left-top"@,
        "top-right-corner"@ != "right-top"@,
        "top-right-corner"@ != "right-middle"@,
        "top-right-corner"@ != "right-bottom"@,
        "top-right-corner"@ != "bottom-right-corner"@,
        "top-right-corner"@ != "bottom-right"@,
        "top-right-corner"@ != "bottom-center"@,
        "top-right-corner"@ != "bottom-left"@,
        "top-right-corner"@ != "bottom-left-corner"@,
        "top-right-corner"@ != "left-bottom"@,
        "top-right-corner"@ != "left-middle"@,
        "top-right-corner"@ != "left-top"@,
        "right-top"@ != "right-middle"@,
        "right-top"@ != "right-bottom"@,
        "right-top"@ != "bottom-right-corner"@,
        "right-top"@ != "bottom-right"@,
        "right-top"@ != "bottom-center"@,
        "right-top"@ != "bottom-left"@,
        "right-top"@ != "bottom-left-corner"@,
        "right-top"@ != "left-bottom"@,
        "right-top"@ != "left-middle"@,
        "right-top"@ != "left-top"@,
        "right-middle"@ != "right-bottom"@,
        "right-middle"@ != "bottom-right-corner"@,
        "right-middle"@ != "bottom-right"@,
        "right-middle"@ != "bottom-center"@,
        "right-middle"@ != "bottom-left"@,
        "right-middle"@ != "bottom-left-corner"@,
        "right-middle"@ != "left-bottom"@,
        "right-middle"@ != "left-middle"@,
        "right-middle"@ != "left-top"@,
        "right-bottom"@ != "bottom-right-corner"@,
        "right-bottom"@ != "bottom-right"@,
        "right-bottom"@ != "bottom-center"@,
        "right-bottom"@ != "bottom-left"@,
        "right-bottom"@ != "bottom-left-corner"@,
        "right-bottom"@ != "left-bottom"@,
        "right-bottom"@ != "left-middle"@,
        "right-bottom"@ != "left-top"@,
        "bottom-right-corner"@ != "bottom-right"@,
        "bottom-right-corner"@ != "bottom-center"@,
        "bottom-right-corner"@ != "bottom-left"@,
        "bottom-right-corner"@ != "bottom-left-corner"@,
        "bottom-right-corner"@ != "left-bottom"@,
        "bottom-right-corner"@ != "left-middle"@,
        "bottom-right-corner"@ != "left-top"@,
        "bottom-right"@ != "bottom-center"@,
        "bottom-right"@ != "bottom-left"@,
        "bottom-right"@ != "bottom-left-corner"@,
        "bottom-right"@ != "left-bottom"@,
        "bottom-right"@ != "left-middle"@,
        "bottom-right"@ != "left-top"@,
        "bottom-center"@ != "bottom-left"@,
        "bottom-center"@ != "bottom-left-corner"@,
        "bottom-center"@ != "left-bottom"@,
        "bottom-center"@ != "left-middle"@,
        "bottom-center"@ != "left-top"@,
        "bottom-left"@ != "bottom-left-corner"@,
        "bottom-left"@ != "left-bottom"@,
        "bottom-left"@ != "left-middle"@,
        "bottom-left"@ != "left-top"@,
        "bottom-left-corner"@ != "left-bottom"@,
        "bottom-left-corner"@ != "left-middle"@,
        "bottom-left-corner"@ != "left-top"@,
        "left-bottom"@ != "left-middle"@,
        "left-bottom"@ != "left-top"@,
        "left-middle"@ != "left-top"@,
{
    reveal_strlit("top-left-corner");
    reveal_strlit("top-left");
    reveal_strlit("top-center");
    reveal_strlit("top-right");
    reveal_strlit("top-right-corner");
    reveal_strlit("right-top");
    reveal_strlit("right-middle");
    reveal_strlit("right-bottom");
    reveal_strlit("bottom-right-corner");
    reveal_strlit("bottom-right");
    reveal_strlit("bottom-center");
    reveal_strlit("bottom-left");
    reveal_strlit("bottom-left-corner");
    reveal_strlit("left-bottom");
    reveal_strlit("left-middle");
    reveal_strlit("left-top");
    assert("top-left-corner"@.len() != "top-left"@.len());
    assert("top-left-corner"@.len() != "top-center"@.len());
    assert("top-left-corner"@.len() != "top-right"@.len());
    assert("top-left-corner"@.len() != "top-right-corner"@.len());
    assert("top-left-corner"@.len() != "right-top"@.len());
    assert("top-left-corner"@.len() != "right-middle"@.len());
    assert("top-left-corner"@.len() != "right-bottom"@.len());
    assert("top-left-corner"@.len() != "bottom-right-corner"@.len());
    assert("top-left-corner"@.len() != "bottom-right"@.len());
    assert("top-left-corner"@.len() != "bottom-center"@.len());
    assert("top-left-corner"@.len() != "bottom-left"@.len());
    assert("top-left-corner"@.len() != "bottom-left-corner"@.len());
    assert("top-left-corner"@.len() != "left-bottom"@.len());
    assert("top-left-corner"@.len() != "left-middle"@.len());
    assert("top-left-corner"@.len() != "left-top"@.len());
    assert("top-left"@.len() != "top-center"@.len());
    assert("top-left"@.len() != "top-right"@.len());
    assert("top-left"@.len() != "top-right-corner"@.len());
    assert("top-left"@.len() != "right-top"@.len());
    assert("top-left"@.len() != "right-middle"@.len());
    assert("top-left"@.len() != "right-bottom"@.len());
    assert("top-left"@.len() != "bottom-right-corner"@.len());
    assert("top-left"@.len() != "bottom-right"@.len());
    assert("top-left"@.len() != "bottom-center"@.len());
    assert("top-left"@.len() != "bottom-left"@.len());
    assert("top-left"@.len() != "bottom-left-corner"@.len());
    assert("top-left"@.len() != "left-bottom"@.len());
    assert("top-left"@.len() != "left-middle"@.len());
    assert("top-left"@[0] != "left-top"@[0]);
    assert("top-center"@.len() != "top-right"@.len());
    assert("top-center"@.len() != "top-right-corner"@.len());
    assert("top-center"@.len() != "right-top"@.len());
    assert("top-center"@.len() != "right-middle"@.len());
    assert("top-center"@.len() != "right-bottom"@.len());
    assert("top-center"@.len() != "bottom-right-corner"@.len());
    assert("top-center"@.len() != "bottom-right"@.len());
    assert("top-center"@.len() != "bottom-center"@.len());
    assert("top-center"@.len() != "bottom-left"@.len());
    assert("top-center"@.len() != "bottom-left-corner"@.len());
    assert("top-center"@.len() != "left-bottom"@.len());
    assert("top-center"@.len() != "left-middle"@.len());
    assert("top-center"@.len() != "left-top"@.len());
    assert("top-right"@.len() != "top-right-corner"@.len());
    assert("top-right"@[0] != "right-top"@[0]);
    assert("top-right"@.len() != "right-middle"@.len());
    assert("top-right"@.len() != "right-bottom"@.len());
    assert("top-right"@.len() != "bottom-right-corner"@.len());
    assert("top-right"@.len() != "bottom-right"@.len());
    assert("top-right"@.len() != "bottom-center"@.len());
    assert("top-right"@.len() != "bottom-left"@.len());
    assert("top-right"@.len() != "bottom-left-corner"@.len());
    assert("top-right"@.len() != "left-bottom"@.len());
    assert("top-right"@.len() != "left-middle"@.len());
    assert("top-right"@.len() != "left-top"@.len());
    assert("top-right-corner"@.len() != "right-top"@.len());
    assert("top-right-corner"@.len() != "right-middle"@.len());
    assert("top-right-corner"@.len() != "right-bottom"@.len());
    assert("top-right-corner"@.len() != "bottom-right-corner"@.len());
    assert("top-right-corner"@.len() != "bottom-right"@.len());
    assert("top-right-corner"@.len() != "bottom-center"@.len());
    assert("top-right-corner"@.len() != "bottom-left"@.len());
    assert("top-right-corner"@.len() != "bottom-left-corner"@.len());
    assert("top-right-corner"@.len() != "left-bottom"@.len());
    assert("top-right-corner"@.len() != "left-middle"@.len());
    assert("top-right-corner"@.len() != "left-top"@.len());
    assert("right-top"@.len() != "right-middle"@.len());
    assert("right-top"@.len() != "right-bottom"@.len());
    assert("right-top"@.len() != "bottom-right-corner"@.len());
    assert("right-top"@.len() != "bottom-right"@.len());
    assert("right-top"@.len() != "bottom-center"@.len());
    assert("right-top"@.len() != "bottom-left"@.len());
    assert("right-top"@.len() != "bottom-left-corner"@.len());
    assert("right-top"@.len() != "left-bottom"@.len());
    assert("right-top"@.len() != "left-middle"@.len());
    assert("right-top"@.len() != "left-top"@.len());
    assert("right-middle"@[6] != "right-bottom"@[6]);
    assert("right-middle"@.len() != "bottom-right-corner"@.len());
    assert("right-middle"@[0] != "bottom-right"@[0]);
    assert("right-middle"@.len() != "bottom-center"@.len());
    assert("right-middle"@.len() != "bottom-left"@.len());
    assert("right-middle"@.len() != "bottom-left-corner"@.len());
    assert("right-middle"@.len() != "left-bottom"@.len());
    assert("right-middle"@.len() != "left-middle"@.len());
    assert("right-middle"@.len() != "left-top"@.len());
    assert("right-bottom"@.len() != "bottom-right-corner"@.len());
    assert("right-bottom"@[0] != "bottom-right"@[0]);
    assert("right-bottom"@.len() != "bottom-center"@.len());
    assert("right-bottom"@.len() != "bottom-left"@.len());
    assert("right-bottom"@.len() != "bottom-left-corner"@.len());
    assert("right-bottom"@.len() != "left-bottom"@.len());
    assert("right-bottom"@.len() != "left-middle"@.len());
    assert("right-bottom"@.len() != "left-top"@.len());
    assert("bottom-right-corner"@.len() != "bottom-right"@.len());
    assert("bottom-right-corner"@.len() != "bottom-center"@.len());
    assert("bottom-right-corner"@.len() != "bottom-left"@.len());
    assert("bottom-right-corner"@.len() != "bottom-left-corner"@.len());
    assert("bottom-right-corner"@.len() != "left-bottom"@.len());
    assert("bottom-right-corner"@.len() != "left-middle"@.len());
    assert("bottom-right-corner"@.len() != "left-top"@.len());
    assert("bottom-right"@.len() != "bottom-center"@.len());
    assert("bottom-right"@.len() != "bottom-left"@.len());
    assert("bottom-right"@.len() != "bottom-left-corner"@.len());
    assert("bottom-right"@.len() != "left-bottom"@.len());
    assert("bottom-right"@.len() != "left-middle"@.len());
    assert("bottom-right"@.len() != "left-top"@.len());
    assert("bottom-center"@.len() != "bottom-left"@.len());
    assert("bottom-center"@.len() != "bottom-left-corner"@.len());
    assert("bottom-center"@.len() != "left-bottom"@.len());
    assert("bottom-center"@.len() != "left-middle"@.len());
    assert("bottom-center"@.len() != "left-top"@.len());
    assert("bottom-left"@.len() != "bottom-left-corner"@.len());
    assert("bottom-left"@[0] != "left-bottom"@[0]);
    assert("bottom-left"@[0] != "left-middle"@[0]);
    assert("bottom-left"@.len() != "left-top"@.len());
    assert("bottom-left-corner"@.len() != "left-bottom"@.len());
    assert("bottom-left-corner"@.len() != "left-middle"@.len());
    assert("bottom-left-corner"@.len() != "left-top"@.len());
    assert("left-bottom"@[5] != "left-middle"@[5]);
    assert("left-bottom"@.len() != "left-top"@.len());
    assert("left-middle"@.len() != "left-top"@.len());
}

/// Every margin box has its at-keyword.
pub proof fn law_boxes_are_named(m: Manner, position: MarginBoxPosition)
    requires
        proper(m),
    ensures
        box_named((m.case)(box_word(position))) == Some(position),
{
    lemma_boxes_lower();
    lemma_boxes_differ();
    assert(same_word((m.case)(box_word(position)), box_word(position)));
}

proof fn lemma_page_saying_even(m: Manner, s: PageSaying)
    requires
        proper(m),
    ensures
        even(page_value(m, s)),
{
    lemma_even_gap(m);
    match s {
        PageSaying::Size(size) => lemma_size_even(m, size),
        PageSaying::Margin(values) => lemma_lengths_even(m, values),
        PageSaying::Side(_, l) => lemma_even_token(m, length_token(m, l), m.gap),
        _ => {},
    }
}

proof fn lemma_box_level(m: Manner, pieces: Seq<Piece>)
    requires
        proper(m),
    ensures
        level(box_block(m, pieces)),
{
    lemma_even_gap(m);
    lemma_pieces_even(m, pieces, m.gap);
    lemma_declaration_level(m, (m.case)("content"@), then_pieces(m, pieces, m.gap), m.gap);
}

pub proof fn lemma_page_sayings_level(m: Manner, sayings: Seq<PageSaying>, rest: Seq<Lexeme>)
    requires
        proper(m),
        level(rest),
    ensures
        level(then_page_sayings(m, sayings, rest)),
    decreases sayings.len(),
{
    if sayings.len() > 0 {
        let more = then_page_sayings(m, sayings.drop_first(), rest);
        lemma_page_sayings_level(m, sayings.drop_first(), rest);
        match sayings[0] {
            PageSaying::Box(position, pieces) => {
                lemma_box_level(m, pieces);
                lemma_level_block(m, Lexeme::Open(Bracket::Curly), Bracket::Curly, box_block(m, pieces), more);
                crate::gcpm::spelling::lemma_level_token(
                    m,
                    Lexeme::Word(WordKind::AtKeyword, (m.case)(box_word(position))),
                    then_token(m, Lexeme::Open(Bracket::Curly), closed_by(box_block(m, pieces), Bracket::Curly, more)),
                );
            },
            s => {
                lemma_page_saying_even(m, s);
                lemma_declaration_level(m, (m.case)(page_property(s)), page_value(m, s), more);
            },
        }
    }
}

/// Whether an item of a block is a margin box with given content.
pub open spec fn found_box(toks: Seq<Tok>, m: Manner, item: BodyModel, position: MarginBoxPosition, pieces: Seq<Piece>) -> bool {
    match item {
        BodyModel::AtRule { name, prelude, open, close, .. } => {
            &&& name == (m.case)(box_word(position))
            &&& ahead(toks, open, cur(prelude), m.gap)
            &&& ahead(toks, close, cur(open + 1), box_block(m, pieces))
        },
        _ => false,
    }
}

/// Whether an item of a block is what was said.
pub open spec fn found_saying(toks: Seq<Tok>, m: Manner, item: BodyModel, s: PageSaying) -> bool {
    match s {
        PageSaying::Box(position, pieces) => found_box(toks, m, item, position, pieces),
        _ => found(toks, item, (m.case)(page_property(s)), page_value(m, s)),
    }
}

/// A margin box is found in the block of a page rule.
proof fn lemma_box_found(
    toks: Seq<Tok>,
    i: int,
    end: int,
    m: Manner,
    position: MarginBoxPosition,
    pieces: Seq<Piece>,
    more: Seq<Lexeme>,
    before: Seq<BodyModel>,
) -> (item: BodyModel)
    requires
        proper(m),
        ahead(toks, end, cur(i), then_page_saying(m, PageSaying::Box(position, pieces), more)),
    ensures
        found_box(toks, m, item, position, pieces),
        i <= end - more.len(),
        ahead(toks, end, cur(end - more.len()), more),
        body_items(toks, i, end, before) == body_items(toks, end - more.len(), end, before.push(item)),
{
    let name = (m.case)(box_word(position));
    let inner = box_block(m, pieces);
    let open = Lexeme::Open(Bracket::Curly);
    let tail = closed_by(inner, Bracket::Curly, more);
    lemma_take(toks, end, cur(i), m, Lexeme::Word(WordKind::AtKeyword, name), then_token(m, open, tail));
    let p = i + m.gap.len();
    lemma_take(toks, end, cur(p + 1), m, open, tail);
    let q = p + 1 + m.gap.len();
    lemma_even_gap(m);
    lemma_spells_both(toks, p + 1, m.gap, seq![open] + tail);
    lemma_calm(toks, p + 1, end, m.gap, true, true);
    assert(stop_at(toks, p + 1, end, true, true) == q);
    lemma_box_level(m, pieces);
    lemma_block(toks, q + 1, inner, Bracket::Curly, more);
    BodyModel::AtRule { name, start: p, prelude: p + 1, open: q, close: q + 1 + inner.len() }
}

/// All that a page rule says is found.
proof fn lemma_page_sayings_found(
    toks: Seq<Tok>,
    i: int,
    end: int,
    m: Manner,
    sayings: Seq<PageSaying>,
    before: Seq<BodyModel>,
)
    requires
        proper(m),
        ahead(toks, end, cur(i), then_page_sayings(m, sayings, m.gap)),
    ensures
        ({
            let items = body_items(toks, i, end, before);
            &&& items.len() == before.len() + sayings.len()
            &&& forall|k: int| 0 <= k < before.len() ==> items[k] == #[trigger] before[k]
            &&& forall|k: int|
                0 <= k < sayings.len() ==> found_saying(toks, m, items[before.len() + k], #[trigger] sayings[k])
        }),
    decreases sayings.len(),
{
    if sayings.len() == 0 {
        lemma_body_ends(toks, i, end, m, before);
    } else {
        let s = sayings[0];
        let others = sayings.drop_first();
        let more = then_page_sayings(m, others, m.gap);
        let item = match s {
            PageSaying::Box(position, pieces) => lemma_box_found(toks, i, end, m, position, pieces, more, before),
            _ => {
                lemma_page_saying_even(m, s);
                lemma_declaration_found(
                    toks,
                    i,
                    end,
                    m,
                    (m.case)(page_property(s)),
                    page_value(m, s),
                    more,
                    before,
                )
            },
        };
        assert(found_saying(toks, m, item, s));
        let now = before.push(item);
        lemma_page_sayings_found(toks, end - more.len(), end, m, others, now);
        let items = body_items(toks, i, end, before);
        assert(items[before.len() as int] == now[before.len() as int]);
        assert forall|k: int| 0 <= k < before.len() implies items[k] == #[trigger] before[k] by {
            assert(now[k] == before[k]);
        }
        assert forall|k: int| 0 <= k < sayings.len() implies found_saying(
            toks,
            m,
            items[before.len() + k],
            #[trigger] sayings[k],
        ) by {
            if k > 0 {
                assert(others[k - 1] == sayings[k]);
            }
        }
    }
}

/// The content of a margin box is read as it is meant.
proof fn lemma_box_read(
    toks: Seq<Tok>,
    start: int,
    end: int,
    m: Manner,
    page_selector: Option<Seq<char>>,
    position: MarginBoxPosition,
    pieces: Seq<Piece>,
)
    requires
        proper(m),
        ahead(toks, end, cur(start), box_block(m, pieces)),
    ensures
        margin_box(toks, page_selector, position, start, end) == (MarginBoxModel {
            page_selector,
            position,
            content: meant_items(pieces),
            declarations: Seq::empty(),
        }),
{
    lemma_even_gap(m);
    let value = then_pieces(m, pieces, m.gap);
    lemma_pieces_even(m, pieces, m.gap);
    let item = lemma_declaration_found(toks, start, end, m, (m.case)("content"@), value, m.gap, Seq::empty());
    let items = Seq::<BodyModel>::empty().push(item);
    lemma_body_ends(toks, end - m.gap.len(), end, m, items);
    assert(body_items(toks, start, end, Seq::empty()) == items);
    reveal_with_fuel(declare_all_in_box, 2);
    assert(same_word((m.case)("content"@), "content"@));
    match item {
        BodyModel::Declaration { name, value: v, end: e, .. } => {
            law_content_is_read_as_meant(toks, e, cur(v), m, pieces, Seq::empty());
            assert(Seq::empty() + meant_items(pieces) =~= meant_items(pieces));
        },
        _ => {},
    }
}

/// The effect of one saying of a page rule.
proof fn lemma_page_saying_declared(
    toks: Seq<Tok>,
    m: Manner,
    page_selector: Option<Seq<char>>,
    sayings: Seq<PageSaying>,
    k: int,
    d: PageDeclared,
    item: BodyModel,
)
    requires
        proper(m),
        0 < k <= sayings.len(),
        sound_page_saying(sayings[k - 1]),
        found_saying(toks, m, item, sayings[k - 1]),
        d == meant_by_page(sayings, k - 1, page_selector),
    ensures
        page_item(toks, d, page_selector, item) == meant_by_page(sayings, k, page_selector),
{
    lemma_page_properties_differ();
    let s = sayings[k - 1];
    let w = page_property(s);
    match item {
        BodyModel::Declaration { name, value, end, .. } => {
            assert(same_word((m.case)(w), w));
            match s {
                PageSaying::Size(size) => law_sizes_are_read_as_meant(toks, end, cur(value), m, size),
                PageSaying::Margin(values) => law_margins_are_read_as_meant(toks, end, cur(value), m, values),
                PageSaying::Side(_, l) => law_margin_sides_are_read_as_meant(toks, end, cur(value), m, l),
                _ => {},
            }
        },
        BodyModel::AtRule { name, prelude, open, close, .. } => match s {
            PageSaying::Box(position, pieces) => {
                law_boxes_are_named(m, position);
                lemma_gap_left(toks, open, cur(prelude), m);
                lemma_box_read(toks, open + 1, close, m, page_selector, position, pieces);
            },
            _ => {},
        },
    }
}

proof fn lemma_page_declared_up_to(
    toks: Seq<Tok>,
    m: Manner,
    page_selector: Option<Seq<char>>,
    sayings: Seq<PageSaying>,
    items: Seq<BodyModel>,
    k: int,
)
    requires
        proper(m),
        sound_page_sayings(sayings),
        0 <= k <= sayings.len(),
        items.len() == sayings.len(),
        forall|j: int| 0 <= j < sayings.len() ==> found_saying(toks, m, items[j], #[trigger] sayings[j]),
    ensures
        page_items(toks, page_selector, items, k) == meant_by_page(sayings, k, page_selector),
    decreases k,
{
    if k > 0 {
        lemma_page_declared_up_to(toks, m, page_selector, sayings, items, k - 1);
        assert(sound_page_saying(sayings[k - 1]));
        let d = page_items(toks, page_selector, items, k - 1);
        lemma_page_saying_declared(toks, m, page_selector, sayings, k, d, items[k - 1]);
    }
}

/// The block of a page rule is read as it is meant.
pub proof fn law_page_rules_are_read_as_meant(
    toks: Seq<Tok>,
    start: int,
    end: int,
    m: Manner,
    page_selector: Option<Seq<char>>,
    sayings: Seq<PageSaying>,
)
    requires
        proper(m),
        sound_page_sayings(sayings),
        ahead(toks, end, cur(start), then_page_sayings(m, sayings, m.gap)),
    ensures
        ({
            let items = body_items(toks, start, end, Seq::empty());
            page_items(toks, page_selector, items, items.len() as int) == meant_by_page(
                sayings,
                sayings.len() as int,
                page_selector,
            )
        }),
{
    lemma_page_sayings_found(toks, start, end, m, sayings, Seq::empty());
    let items = body_items(toks, start, end, Seq::empty());
    lemma_page_declared_up_to(toks, m, page_selector, sayings, items, items.len() as int);
}

/// Whether an item of a margin box is a declaration of another property than `content`.
pub open spec fn is_other(item: BodyModel) -> bool {
    item matches BodyModel::Declaration { name, .. } && !same_word(name, "content"@)
}

/// A declaration as text: the name of the property and its value as it is written, without
/// the white space around it.
pub open spec fn declaration_text(toks: Seq<Tok>, item: BodyModel) -> Seq<char> {
    match item {
        BodyModel::Declaration { name, value, end, .. } => name + ": "@ + trimmed(
            if value <= end {
                source(toks.subrange(value, end))
            } else {
                Seq::empty()
            },
        ),
        _ => Seq::empty(),
    }
}

/// The other declarations of a margin box, each as text.
pub open spec fn other_texts(toks: Seq<Tok>, items: Seq<BodyModel>) -> Seq<Seq<char>> {
    let others = items.filter(|item: BodyModel| is_other(item));
    Seq::new(others.len(), |i: int| declaration_text(toks, others[i]))
}

/// Texts with `; ` between any two.
pub open spec fn listed(texts: Seq<Seq<char>>) -> Seq<char>
    decreases texts.len(),
{
    if texts.len() == 0 {
        Seq::empty()
    } else if texts.len() == 1 {
        texts[0]
    } else {
        texts[0] + "; "@ + listed(texts.drop_first())
    }
}

proof fn lemma_listed_more(texts: Seq<Seq<char>>, more: Seq<char>)
    requires
        texts.len() > 0,
    ensures
        listed(texts.push(more)) == listed(texts) + "; "@ + more,
    decreases texts.len(),
{
    let longer = texts.push(more);
    assert(longer.drop_first() =~= texts.drop_first().push(more));
    if texts.len() == 1 {
        assert(texts.drop_first().push(more) =~= seq![more]);
        assert(listed(seq![more]) == more);
    } else {
        lemma_listed_more(texts.drop_first(), more);
        assert(listed(longer) =~= listed(texts) + "; "@ + more);
    }
}

/// A margin box keeps all of its other declarations as text, in order.
pub proof fn law_boxes_keep_their_declarations(toks: Seq<Tok>, items: Seq<BodyModel>)
    ensures
        declare_all_in_box(toks, items, items.len() as int).declarations == listed(other_texts(toks, items)),
{
    lemma_box_declarations(toks, items, items.len() as int);
    assert(items.take(items.len() as int) =~= items);
}

proof fn lemma_box_declarations(toks: Seq<Tok>, items: Seq<BodyModel>, k: int)
    requires
        0 <= k <= items.len(),
    ensures
        ({
            let texts = other_texts(toks, items.take(k));
            let declarations = declare_all_in_box(toks, items, k).declarations;
            &&& declarations == listed(texts)
            &&& texts.len() > 0 <==> declarations.len() > 0
        }),
    decreases k,
{
    reveal(Seq::filter);
    let p = |item: BodyModel| is_other(item);
    if k > 0 {
        lemma_box_declarations(toks, items, k - 1);
        let item = items[k - 1];
        let before = other_texts(toks, items.take(k - 1));
        let texts = other_texts(toks, items.take(k));
        assert(items.take(k).drop_last() =~= items.take(k - 1));
        assert(items.take(k).last() == item);
        reveal_strlit(": ");
        reveal_strlit("; ");
        if is_other(item) {
            let more = declaration_text(toks, item);
            assert(items.take(k).filter(p) == items.take(k - 1).filter(p).push(item));
            assert(texts =~= before.push(more));
            assert(more.len() >= 2);
            if before.len() > 0 {
                lemma_listed_more(before, more);
                let lead = listed(before) + "; "@;
                let b = declare_all_in_box(toks, items, k).declarations;
                assert(b =~= lead + more);
            } else {
                assert(before.push(more) =~= seq![more]);
                assert(listed(seq![more]) == more);
                assert(declare_all_in_box(toks, items, k).declarations =~= more);
            }
        } else {
            assert(items.take(k).filter(p) == items.take(k - 1).filter(p));
            assert(texts =~= before);
        }
    } else {
        assert(other_texts(toks, items.take(0)).len() == 0) by {
            assert(items.take(0).filter(p).len() == 0);
        }
    }
}

/// A margin box shows what its last `content` says, and nothing where it has none.
pub proof fn law_boxes_show_their_last_content(toks: Seq<Tok>, items: Seq<BodyModel>, k: int)
    requires
        0 <= k < items.len(),
        items[k] is Declaration && !is_other(items[k]),
        forall|i: int| k < i < items.len() ==> is_other(#[trigger] items[i]) || items[i] is AtRule,
    ensures
        declare_all_in_box(toks, items, items.len() as int).content == content_items(
            toks,
            items[k]->Declaration_end,
            cur(items[k]->Declaration_value),
            Seq::empty(),
        ).0,
{
    lemma_content_stays(toks, items, k, items.len() as int);
}

proof fn lemma_content_stays(toks: Seq<Tok>, items: Seq<BodyModel>, k: int, n: int)
    requires
        0 <= k < n <= items.len(),
        items[k] is Declaration && !is_other(items[k]),
        forall|i: int| k < i < items.len() ==> is_other(#[trigger] items[i]) || items[i] is AtRule,
    ensures
        declare_all_in_box(toks, items, n).content == content_items(
            toks,
            items[k]->Declaration_end,
            cur(items[k]->Declaration_value),
            Seq::empty(),
        ).0,
    decreases n - k,
{
    if n > k + 1 {
        lemma_content_stays(toks, items, k, n - 1);
        assert(is_other(items[n - 1]) || items[n - 1] is AtRule);
    }
}

/// Nothing but the at-keyword of a margin box names it.
pub proof fn law_only_boxes_are_named(name: Seq<char>)
    ensures
        box_named(name) matches Some(position) ==> lower(name) == box_word(position),
{
}

} // verus!
