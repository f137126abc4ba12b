//! The values of page rules are understood as they are meant.

use crate::gcpm::cursor::{after, blank, exhausted, Cur};
use crate::gcpm::grammar::{
    dimension, length, lengths, margin_side, page_margin, page_size, same_word,
};
use crate::gcpm::spelling::{
    ahead, even, lemma_even_gap, lemma_even_token, lemma_gap_left, lemma_take, plain, proper, then_ident, then_keyword,
    then_token, Manner,
};
use crate::gcpm::token::{Lexeme, Tok, WordKind};
use crate::gcpm::{CssLength, LengthUnit, PageSizeModel, PartialMargin};
use crate::text::lower;
use vstd::prelude::*;

verus! {

/// A length: a number with a unit, or a zero without one.
pub ghost enum LengthText {
    With(CssLength),
    Zero(u32, Option<i32>),
}

/// The length that is meant.
pub open spec fn meant_length(l: LengthText) -> CssLength {
    match l {
        LengthText::With(l) => l,
        LengthText::Zero(_, _) => CssLength { bits: 0, unit: LengthUnit::Pt },
    }
}

/// A number that is written without a unit is zero.
pub open spec fn sound_length(l: LengthText) -> bool {
    match l {
        LengthText::With(_) => true,
        LengthText::Zero(bits, _) => bits == 0 || bits == 0x8000_0000,
    }
}

/// The abbreviation of a unit.
pub open spec fn unit_word(unit: LengthUnit) -> Seq<char> {
    match unit {
        LengthUnit::Mm => "mm"@,
        LengthUnit::Cm => "cm"@,
        LengthUnit::In => "in"@,
        LengthUnit::Pt => "pt"@,
        LengthUnit::Px => "px"@,
    }
}

/// A number with a unit.
pub open spec fn dimension_token(m: Manner, l: CssLength) -> Lexeme {
    Lexeme::Dimension(l.bits, (m.case)(unit_word(l.unit)))
}

/// A length as a token.
pub open spec fn length_token(m: Manner, l: LengthText) -> Lexeme {
    match l {
        LengthText::With(l) => dimension_token(m, l),
        LengthText::Zero(bits, whole) => Lexeme::Number(bits, whole),
    }
}

/// Lengths, one after the other.
pub open spec fn then_lengths(m: Manner, values: Seq<LengthText>, rest: Seq<Lexeme>) -> Seq<Lexeme>
    decreases values.len(),
{
    if values.len() == 0 {
        rest
    } else {
        then_token(m, length_token(m, values[0]), then_lengths(m, values.drop_first(), rest))
    }
}

/// All of them sound.
pub open spec fn sound_lengths(values: Seq<LengthText>) -> bool {
    forall|i: int| 0 <= i < values.len() ==> sound_length(#[trigger] values[i])
}

proof fn lemma_units_differ()
    ensures
        !same_word("mm"@, "cm"@),
        !same_word("mm"@, "in"@),
        !same_word("mm"@, "pt"@),
        !same_word("mm"@, "px"@),
        !same_word("cm"@, "in"@),
        !same_word("cm"@, "pt"@),
        !same_word("cm"@, "px"@),
        !same_word("in"@, "pt"@),
        !same_word("in"@, "px"@),
        !same_word("pt"@, "px"@),
{
    reveal_strlit("mm");
    reveal_strlit("cm");
    reveal_strlit("in");
    reveal_strlit("pt");
    reveal_strlit("px");
    assert(lower("mm"@)[0] != lower("cm"@)[0]);
    assert(lower("mm"@)[0] != lower("in"@)[0]);
    assert(lower("mm"@)[0] != lower("pt"@)[0]);
    assert(lower("mm"@)[0] != lower("px"@)[0]);
    assert(lower("cm"@)[0] != lower("in"@)[0]);
    assert(lower("cm"@)[0] != lower("pt"@)[0]);
    assert(lower("cm"@)[0] != lower("px"@)[0]);
    assert(lower("in"@)[0] != lower("pt"@)[0]);
    assert(lower("in"@)[0] != lower("px"@)[0]);
    assert(lower("pt"@)[1] != lower("px"@)[1]);
}

/// A number with a unit is that length in that unit.
pub proof fn law_units_are_read_as_meant(m: Manner, l: CssLength)
    requires
        proper(m),
    ensures
        dimension(dimension_token(m, l)) == Some(l),
{
    lemma_units_differ();
    assert(same_word((m.case)(unit_word(l.unit)), unit_word(l.unit)));
}

proof fn lemma_length_read(toks: Seq<Tok>, end: int, c: Cur, m: Manner, l: LengthText, rest: Seq<Lexeme>)
    requires
        proper(m),
        sound_length(l),
        ahead(toks, end, c, then_token(m, length_token(m, l), rest)),
    ensures
        length(toks, end, c) == Some((meant_length(l), after(toks, c.pos + m.gap.len()))),
        ahead(toks, end, after(toks, c.pos + m.gap.len()), rest),
{
    lemma_take(toks, end, c, m, length_token(m, l), rest);
    match l {
        LengthText::With(l) => law_units_are_read_as_meant(m, l),
        _ => {},
    }
}

proof fn lemma_lengths_read(
    toks: Seq<Tok>,
    end: int,
    c: Cur,
    m: Manner,
    values: Seq<LengthText>,
    before: Seq<CssLength>,
)
    requires
        proper(m),
        sound_lengths(values),
        values.len() + before.len() <= 4,
        ahead(toks, end, c, then_lengths(m, values, m.gap)),
    ensures
        lengths(toks, end, c, before).0 == before + Seq::new(values.len(), |i: int| meant_length(values[i])),
        exhausted(toks, end, lengths(toks, end, c, before).1),
    decreases values.len(),
{
    let meant = Seq::new(values.len(), |i: int| meant_length(values[i]));
    if values.len() == 0 {
        lemma_gap_left(toks, end, c, m);
        assert(before + meant =~= before);
        assert(length(toks, end, c) is None);
    } else {
        let others = values.drop_first();
        assert(sound_length(values[0]));
        lemma_length_read(toks, end, c, m, values[0], then_lengths(m, others, m.gap));
        assert forall|i: int| 0 <= i < others.len() implies sound_length(#[trigger] others[i]) by {
            assert(others[i] == values[i + 1]);
        }
        let now = before.push(meant_length(values[0]));
        lemma_lengths_read(toks, end, after(toks, c.pos + m.gap.len()), m, others, now);
        assert(now + Seq::new(others.len(), |i: int| meant_length(others[i])) =~= before + meant);
    }
}

/// A `margin` of one to four lengths sets the four sides clockwise from the top. A side
/// without a length of its own is as wide as the one that it faces, and the right side as
/// the top.
pub proof fn law_margins_are_read_as_meant(toks: Seq<Tok>, end: int, c: Cur, m: Manner, values: Seq<LengthText>)
    requires
        proper(m),
        1 <= values.len() <= 4,
        sound_lengths(values),
        ahead(toks, end, c, then_lengths(m, values, m.gap)),
    ensures
        ({
            let top = meant_length(values[0]);
            let right = if values.len() >= 2 { meant_length(values[1]) } else { top };
            let bottom = if values.len() >= 3 { meant_length(values[2]) } else { top };
            let left = if values.len() >= 4 { meant_length(values[3]) } else { right };
            page_margin(toks, end, c) == Some(
                PartialMargin { top: Some(top), right: Some(right), bottom: Some(bottom), left: Some(left) },
            )
        }),
{
    lemma_lengths_read(toks, end, c, m, values, Seq::empty());
    let meant = Seq::new(values.len(), |i: int| meant_length(values[i]));
    assert(Seq::empty() + meant =~= meant);
}

/// The margin of one side is the length that is written.
pub proof fn law_margin_sides_are_read_as_meant(toks: Seq<Tok>, end: int, c: Cur, m: Manner, l: LengthText)
    requires
        proper(m),
        sound_length(l),
        ahead(toks, end, c, then_token(m, length_token(m, l), m.gap)),
    ensures
        margin_side(toks, end, c) == Some(meant_length(l)),
{
    lemma_length_read(toks, end, c, m, l, m.gap);
    lemma_gap_left(toks, end, after(toks, c.pos + m.gap.len()), m);
}

/// A page size as an author writes it: `auto`, the name of a paper, with an orientation
/// or without, an orientation alone, or one or two lengths.
pub ghost enum SizeText {
    Auto,
    Paper(Seq<char>),
    Turned(Seq<char>, bool),
    Orientation(bool),
    Square(CssLength),
    Sides(CssLength, CssLength),
}

/// The page size that is meant.
pub open spec fn meant_size(size: SizeText) -> PageSizeModel<CssLength> {
    match size {
        SizeText::Auto => PageSizeModel::Auto,
        SizeText::Paper(s) => PageSizeModel::Keyword(s),
        SizeText::Turned(s, landscape) => PageSizeModel::KeywordWithOrientation(s, landscape),
        SizeText::Orientation(landscape) => PageSizeModel::KeywordWithOrientation("auto"@, landscape),
        SizeText::Square(l) => PageSizeModel::Custom(l, l),
        SizeText::Sides(w, h) => PageSizeModel::Custom(w, h),
    }
}

/// The keyword of an orientation.
pub open spec fn orientation_word(landscape: bool) -> Seq<char> {
    if landscape { "landscape"@ } else { "portrait"@ }
}

/// A page size.
pub open spec fn size_tokens(m: Manner, size: SizeText) -> Seq<Lexeme> {
    match size {
        SizeText::Auto => then_keyword(m, "auto"@, m.gap),
        SizeText::Paper(s) => then_ident(m, s, m.gap),
        SizeText::Turned(s, landscape) => then_ident(m, s, then_keyword(m, orientation_word(landscape), m.gap)),
        SizeText::Orientation(landscape) => then_keyword(m, orientation_word(landscape), m.gap),
        SizeText::Square(l) => then_token(m, dimension_token(m, l), m.gap),
        SizeText::Sides(w, h) => then_token(m, dimension_token(m, w), then_token(m, dimension_token(m, h), m.gap)),
    }
}

/// The name of a paper is no other keyword, and lengths are greater than zero.
pub open spec fn sound_size(size: SizeText) -> bool {
    match size {
        SizeText::Paper(s) => !same_word(s, "auto"@) && !same_word(s, "landscape"@) && !same_word(s, "portrait"@),
        SizeText::Turned(s, _) => !same_word(s, "auto"@) && !same_word(s, "landscape"@) && !same_word(
            s,
            "portrait"@,
        ),
        SizeText::Square(l) => 0 < l.bits <= 0x7f80_0000,
        SizeText::Sides(w, h) => 0 < w.bits <= 0x7f80_0000 && 0 < h.bits <= 0x7f80_0000,
        _ => true,
    }
}

/// Page sizes are read as they are meant.
pub proof fn law_sizes_are_read_as_meant(toks: Seq<Tok>, end: int, c: Cur, m: Manner, size: SizeText)
    requires
        proper(m),
        sound_size(size),
        ahead(toks, end, c, size_tokens(m, size)),
    ensures
        page_size(toks, end, c) == Some(meant_size(size)),
{
    reveal_strlit("auto");
    reveal_strlit("landscape");
    reveal_strlit("portrait");
    assert(lower("auto"@).len() == 4);
    assert(lower("landscape"@).len() == 9);
    assert(lower("portrait"@).len() == 8);
    let c1 = after(toks, c.pos + m.gap.len());
    match size {
        SizeText::Auto => {
            lemma_take(toks, end, c, m, Lexeme::Word(WordKind::Ident, (m.case)("auto"@)), m.gap);
            lemma_gap_left(toks, end, c1, m);
            assert(same_word((m.case)("auto"@), "auto"@));
        },
        SizeText::Paper(s) => {
            lemma_take(toks, end, c, m, Lexeme::Word(WordKind::Ident, s), m.gap);
            lemma_gap_left(toks, end, c1, m);
        },
        SizeText::Turned(s, landscape) => {
            let w = orientation_word(landscape);
            lemma_take(toks, end, c, m, Lexeme::Word(WordKind::Ident, s), then_keyword(m, w, m.gap));
            lemma_take(toks, end, c1, m, Lexeme::Word(WordKind::Ident, (m.case)(w)), m.gap);
            lemma_gap_left(toks, end, after(toks, c1.pos + m.gap.len()), m);
            assert(same_word((m.case)(w), w));
        },
        SizeText::Orientation(landscape) => {
            let w = orientation_word(landscape);
            lemma_take(toks, end, c, m, Lexeme::Word(WordKind::Ident, (m.case)(w)), m.gap);
            lemma_gap_left(toks, end, c1, m);
            assert(same_word((m.case)(w), w));
        },
        SizeText::Square(l) => {
            lemma_take(toks, end, c, m, dimension_token(m, l), m.gap);
            lemma_gap_left(toks, end, c1, m);
            law_units_are_read_as_meant(m, l);
        },
        SizeText::Sides(w, h) => {
            lemma_take(toks, end, c, m, dimension_token(m, w), then_token(m, dimension_token(m, h), m.gap));
            lemma_take(toks, end, c1, m, dimension_token(m, h), m.gap);
            lemma_gap_left(toks, end, after(toks, c1.pos + m.gap.len()), m);
            law_units_are_read_as_meant(m, w);
            law_units_are_read_as_meant(m, h);
        },
    }
}

pub proof fn lemma_size_even(m: Manner, size: SizeText)
    requires
        proper(m),
    ensures
        even(size_tokens(m, size)),
{
    lemma_even_gap(m);
    match size {
        SizeText::Auto => lemma_even_token(m, Lexeme::Word(WordKind::Ident, (m.case)("auto"@)), m.gap),
        SizeText::Paper(s) => lemma_even_token(m, Lexeme::Word(WordKind::Ident, s), m.gap),
        SizeText::Turned(s, landscape) => {
            let w = orientation_word(landscape);
            lemma_even_token(m, Lexeme::Word(WordKind::Ident, (m.case)(w)), m.gap);
            lemma_even_token(m, Lexeme::Word(WordKind::Ident, s), then_keyword(m, w, m.gap));
        },
        SizeText::Orientation(landscape) => lemma_even_token(
            m,
            Lexeme::Word(WordKind::Ident, (m.case)(orientation_word(landscape))),
            m.gap,
        ),
        SizeText::Square(l) => lemma_even_token(m, dimension_token(m, l), m.gap),
        SizeText::Sides(w, h) => {
            lemma_even_token(m, dimension_token(m, h), m.gap);
            lemma_even_token(m, dimension_token(m, w), then_token(m, dimension_token(m, h), m.gap));
        },
    }
}

pub proof fn lemma_lengths_even(m: Manner, values: Seq<LengthText>)
    requires
        proper(m),
    ensures
        even(then_lengths(m, values, m.gap)),
    decreases values.len(),
{
    lemma_even_gap(m);
    if values.len() > 0 {
        lemma_lengths_even(m, values.drop_first());
        lemma_even_token(m, length_token(m, values[0]), then_lengths(m, values.drop_first(), m.gap));
    }
}

/// A value of three tokens or more is no page size.
pub proof fn law_longer_sizes_are_refused(
    toks: Seq<Tok>,
    end: int,
    c: Cur,
    m: Manner,
    k1: Lexeme,
    k2: Lexeme,
    k3: Lexeme,
    rest: Seq<Lexeme>,
)
    requires
        proper(m),
        plain(k1) && plain(k2) && plain(k3),
        !blank(k1) && !blank(k2) && !blank(k3),
        ahead(toks, end, c, then_token(m, k1, then_token(m, k2, then_token(m, k3, rest)))),
    ensures
        page_size(toks, end, c) is None,
{
    lemma_take(toks, end, c, m, k1, then_token(m, k2, then_token(m, k3, rest)));
    let c1 = after(toks, c.pos + m.gap.len());
    lemma_take(toks, end, c1, m, k2, then_token(m, k3, rest));
    let c2 = after(toks, c1.pos + m.gap.len());
    lemma_take(toks, end, c2, m, k3, rest);
    assert(!exhausted(toks, end, c1) && !exhausted(toks, end, c2));
}

/// A length that is not greater than zero, or that has no unit, is no page size.
pub proof fn law_sizes_are_positive(toks: Seq<Tok>, end: int, c: Cur, m: Manner, k: Lexeme, rest: Seq<Lexeme>)
    requires
        proper(m),
        match k {
            Lexeme::Dimension(bits, _) => !(0 < bits <= 0x7f80_0000),
            Lexeme::Number(_, _) => true,
            _ => false,
        },
        ahead(toks, end, c, then_token(m, k, rest)),
    ensures
        page_size(toks, end, c) is None,
{
    lemma_take(toks, end, c, m, k, rest);
}

/// A value of five tokens or more is no margin.
pub proof fn law_longer_margins_are_refused(
    toks: Seq<Tok>,
    end: int,
    c: Cur,
    m: Manner,
    k1: Lexeme,
    k2: Lexeme,
    k3: Lexeme,
    k4: Lexeme,
    k5: Lexeme,
    rest: Seq<Lexeme>,
)
    requires
        proper(m),
        plain(k1) && plain(k2) && plain(k3) && plain(k4) && plain(k5),
        !blank(k1) && !blank(k2) && !blank(k3) && !blank(k4) && !blank(k5),
        ahead(
            toks,
            end,
            c,
            then_token(m, k1, then_token(m, k2, then_token(m, k3, then_token(m, k4, then_token(m, k5, rest))))),
        ),
    ensures
        page_margin(toks, end, c) is None,
{
    let r4 = then_token(m, k5, rest);
    let r3 = then_token(m, k4, r4);
    let r2 = then_token(m, k3, r3);
    let r1 = then_token(m, k2, r2);
    let g = m.gap.len();
    lemma_take(toks, end, c, m, k1, r1);
    let c1 = after(toks, c.pos + g);
    lemma_take(toks, end, c1, m, k2, r2);
    let c2 = after(toks, c1.pos + g);
    lemma_take(toks, end, c2, m, k3, r3);
    let c3 = after(toks, c2.pos + g);
    lemma_take(toks, end, c3, m, k4, r4);
    let c4 = after(toks, c3.pos + g);
    lemma_take(toks, end, c4, m, k5, rest);
    reveal_with_fuel(lengths, 5);
}

/// A value of two tokens or more is no margin of one side.
pub proof fn law_longer_sides_are_refused(
    toks: Seq<Tok>,
    end: int,
    c: Cur,
    m: Manner,
    k1: Lexeme,
    k2: Lexeme,
    rest: Seq<Lexeme>,
)
    requires
        proper(m),
        plain(k1) && plain(k2),
        !blank(k1) && !blank(k2),
        ahead(toks, end, c, then_token(m, k1, then_token(m, k2, rest))),
    ensures
        margin_side(toks, end, c) is None,
{
    lemma_take(toks, end, c, m, k1, then_token(m, k2, rest));
    let c1 = after(toks, c.pos + m.gap.len());
    lemma_take(toks, end, c1, m, k2, rest);
}

/// What is no length: a number without a unit that is not zero, a number in a unit that is
/// not known, and a word.
pub open spec fn no_length(k: Lexeme) -> bool {
    match k {
        Lexeme::Number(bits, _) => bits != 0 && bits != 0x8000_0000,
        Lexeme::Dimension(_, unit) => !same_word(unit, "mm"@) && !same_word(unit, "cm"@) && !same_word(unit, "in"@)
            && !same_word(unit, "pt"@) && !same_word(unit, "px"@),
        Lexeme::Word(_, _) => true,
        _ => false,
    }
}

/// A number without a unit is a length only where it is zero, and a number in a unit that
/// is not known is none.
pub proof fn law_lengths_have_units(toks: Seq<Tok>, end: int, c: Cur, m: Manner, k: Lexeme, rest: Seq<Lexeme>)
    requires
        proper(m),
        no_length(k),
        ahead(toks, end, c, then_token(m, k, rest)),
    ensures
        margin_side(toks, end, c) is None,
        page_margin(toks, end, c) is None,
{
    lemma_take(toks, end, c, m, k, rest);
    reveal_with_fuel(lengths, 2);
}

} // verus!
