//! How things are written in a style sheet, as tokens.
//!
//! What is written here says what an author means; the laws that use it say that the
//! same is understood when it is read.

use crate::gcpm::cursor::{
    after, blank, block_end, closer, cur, exhausted, opens, past_block, peek, skip_blank, stop_at, Cur,
};
use crate::gcpm::grammar::same_word;
use crate::gcpm::token::{Bracket, Lexeme, Mark, Tok, WordKind};
use vstd::prelude::*;

verus! {

/// An author's manner of writing: what stands between any two tokens, and how a keyword
/// is written.
pub ghost struct Manner {
    pub gap: Seq<Lexeme>,
    pub case: spec_fn(Seq<char>) -> Seq<char>,
}

/// White space and comments stand between tokens, and keywords differ in the case of
/// their letters only.
pub open spec fn proper(m: Manner) -> bool {
    &&& forall|i: int| 0 <= i < m.gap.len() ==> blank(#[trigger] m.gap[i])
    &&& forall|w: Seq<char>| same_word(#[trigger] (m.case)(w), w)
}

/// A token with what stands before it and what follows.
pub open spec fn then_token(m: Manner, k: Lexeme, rest: Seq<Lexeme>) -> Seq<Lexeme> {
    m.gap + (seq![k] + rest)
}

/// What stands in a block, the end of the block, and what follows.
pub open spec fn closed_by(inner: Seq<Lexeme>, b: Bracket, rest: Seq<Lexeme>) -> Seq<Lexeme> {
    inner + (seq![Lexeme::Close(b)] + rest)
}

/// An identifier.
pub open spec fn then_ident(m: Manner, s: Seq<char>, rest: Seq<Lexeme>) -> Seq<Lexeme> {
    then_token(m, Lexeme::Word(WordKind::Ident, s), rest)
}

/// A keyword.
pub open spec fn then_keyword(m: Manner, s: Seq<char>, rest: Seq<Lexeme>) -> Seq<Lexeme> {
    then_token(m, Lexeme::Word(WordKind::Ident, (m.case)(s)), rest)
}

/// A string literal.
pub open spec fn then_quoted(m: Manner, s: Seq<char>, rest: Seq<Lexeme>) -> Seq<Lexeme> {
    then_token(m, Lexeme::Word(WordKind::Quoted, s), rest)
}

/// A mark.
pub open spec fn then_mark(m: Manner, mark: Mark, rest: Seq<Lexeme>) -> Seq<Lexeme> {
    then_token(m, Lexeme::Mark(mark), rest)
}

/// A function with its arguments.
pub open spec fn then_call(m: Manner, f: Seq<char>, arguments: Seq<Lexeme>, rest: Seq<Lexeme>) -> Seq<Lexeme> {
    then_token(
        m,
        Lexeme::Word(WordKind::Function, (m.case)(f)),
        closed_by(arguments, Bracket::Paren, rest),
    )
}

/// Whether the tokens from `i` on are of the given kinds.
pub open spec fn spells(toks: Seq<Tok>, i: int, kinds: Seq<Lexeme>) -> bool {
    &&& 0 <= i
    &&& i + kinds.len() <= toks.len()
    &&& forall|j: int| 0 <= j < kinds.len() ==> toks[i + j].kind == #[trigger] kinds[j]
}

/// Whether a range has from a cursor on tokens of the given kinds and no others.
pub open spec fn ahead(toks: Seq<Tok>, end: int, c: Cur, kinds: Seq<Lexeme>) -> bool {
    &&& c.open is None
    &&& spells(toks, c.pos, kinds)
    &&& c.pos + kinds.len() == end
}

pub proof fn lemma_spells_both(toks: Seq<Tok>, i: int, a: Seq<Lexeme>, b: Seq<Lexeme>)
    requires
        spells(toks, i, a + b),
    ensures
        spells(toks, i, a),
        spells(toks, i + a.len(), b),
{
    assert forall|j: int| 0 <= j < a.len() implies toks[i + j].kind == #[trigger] a[j] by {
        assert((a + b)[j] == a[j]);
    }
    assert forall|j: int| 0 <= j < b.len() implies toks[i + a.len() + j].kind == #[trigger] b[j] by {
        assert((a + b)[a.len() + j] == b[j]);
    }
}

pub proof fn lemma_spells_one(toks: Seq<Tok>, i: int, k: Lexeme, rest: Seq<Lexeme>)
    requires
        spells(toks, i, seq![k] + rest),
    ensures
        i < toks.len(),
        toks[i].kind == k,
        spells(toks, i + 1, rest),
{
    lemma_spells_both(toks, i, seq![k], rest);
    assert(seq![k][0] == k);
    assert(toks[i + 0].kind == k);
}

proof fn lemma_gap_skipped(toks: Seq<Tok>, i: int, end: int, gap: Seq<Lexeme>)
    requires
        forall|j: int| 0 <= j < gap.len() ==> blank(#[trigger] gap[j]),
        spells(toks, i, gap),
        i + gap.len() <= end,
        i + gap.len() < end ==> !blank(toks[i + gap.len()].kind),
    ensures
        skip_blank(toks, i, end) == i + gap.len(),
    decreases gap.len(),
{
    if gap.len() > 0 {
        assert(gap =~= seq![gap[0]] + gap.drop_first());
        lemma_spells_one(toks, i, gap[0], gap.drop_first());
        assert forall|j: int| 0 <= j < gap.drop_first().len() implies blank(#[trigger] gap.drop_first()[j]) by {
            assert(gap.drop_first()[j] == gap[j + 1]);
        }
        lemma_gap_skipped(toks, i + 1, end, gap.drop_first());
    }
}

/// The next token of a range is the one that is written next.
pub proof fn lemma_take(toks: Seq<Tok>, end: int, c: Cur, m: Manner, k: Lexeme, rest: Seq<Lexeme>)
    requires
        proper(m),
        ahead(toks, end, c, then_token(m, k, rest)),
        !blank(k),
    ensures
        peek(toks, end, c) == c.pos + m.gap.len(),
        c.pos + m.gap.len() < end <= toks.len(),
        toks[c.pos + m.gap.len()].kind == k,
        spells(toks, c.pos + m.gap.len() + 1, rest),
        after(toks, c.pos + m.gap.len()).pos == c.pos + m.gap.len() + 1,
        opens(k) is None ==> ahead(toks, end, after(toks, c.pos + m.gap.len()), rest),
{
    lemma_spells_both(toks, c.pos, m.gap, seq![k] + rest);
    lemma_spells_one(toks, c.pos + m.gap.len(), k, rest);
    lemma_gap_skipped(toks, c.pos, end, m.gap);
}

/// Nothing is left where only a gap is.
pub proof fn lemma_gap_left(toks: Seq<Tok>, end: int, c: Cur, m: Manner)
    requires
        proper(m),
        ahead(toks, end, c, m.gap),
    ensures
        exhausted(toks, end, c),
{
    lemma_gap_skipped(toks, c.pos, end, m.gap);
}

/// Tokens that neither open nor close a block, nor end a declaration.
pub open spec fn plain(k: Lexeme) -> bool {
    opens(k) is None && !(k is Close) && k != Lexeme::Mark(Mark::Semicolon)
}

/// Whether every block that opens in some tokens is closed in them.
#[verifier::opaque]
pub open spec fn level(kinds: Seq<Lexeme>) -> bool {
    forall|toks: Seq<Tok>, i: int, stack: Seq<Bracket>|
        spells(toks, i, kinds) && stack.len() > 0 ==> #[trigger] closer(toks, i, stack) == closer(
            toks,
            i + kinds.len(),
            stack,
        )
}

/// Whether nothing in some tokens, outside the blocks in them, ends a declaration or
/// starts a block in braces.
#[verifier::opaque]
pub open spec fn calm(kinds: Seq<Lexeme>) -> bool {
    forall|toks: Seq<Tok>, i: int, end: int, semicolon: bool, curly: bool|
        spells(toks, i, kinds) && i + kinds.len() <= end <= toks.len() ==> #[trigger] stop_at(
            toks,
            i,
            end,
            semicolon,
            curly,
        ) == stop_at(toks, i + kinds.len(), end, semicolon, curly)
}

/// Both.
pub open spec fn even(kinds: Seq<Lexeme>) -> bool {
    level(kinds) && calm(kinds)
}

pub proof fn lemma_level(toks: Seq<Tok>, i: int, kinds: Seq<Lexeme>, stack: Seq<Bracket>)
    requires
        level(kinds),
        spells(toks, i, kinds),
        stack.len() > 0,
    ensures
        closer(toks, i, stack) == closer(toks, i + kinds.len(), stack),
{
    reveal(level);
}

pub proof fn lemma_calm(toks: Seq<Tok>, i: int, end: int, kinds: Seq<Lexeme>, semicolon: bool, curly: bool)
    requires
        calm(kinds),
        spells(toks, i, kinds),
        i + kinds.len() <= end <= toks.len(),
    ensures
        stop_at(toks, i, end, semicolon, curly) == stop_at(toks, i + kinds.len(), end, semicolon, curly),
{
    reveal(calm);
}

pub proof fn lemma_even_empty()
    ensures
        even(Seq::empty()),
{
    reveal(level);
    reveal(calm);
}

pub proof fn lemma_level_both(a: Seq<Lexeme>, b: Seq<Lexeme>)
    requires
        level(a),
        level(b),
    ensures
        level(a + b),
{
    assert forall|toks: Seq<Tok>, i: int, stack: Seq<Bracket>|
        spells(toks, i, a + b) && stack.len() > 0 implies #[trigger] closer(toks, i, stack) == closer(
        toks,
        i + (a + b).len(),
        stack,
    ) by {
        lemma_spells_both(toks, i, a, b);
        lemma_level(toks, i, a, stack);
        lemma_level(toks, i + a.len(), b, stack);
    }
    reveal(level);
}

pub proof fn lemma_even_both(a: Seq<Lexeme>, b: Seq<Lexeme>)
    requires
        even(a),
        even(b),
    ensures
        even(a + b),
{
    lemma_level_both(a, b);
    assert forall|toks: Seq<Tok>, i: int, end: int, semicolon: bool, curly: bool|
        spells(toks, i, a + b) && i + (a + b).len() <= end <= toks.len() implies #[trigger] stop_at(
        toks,
        i,
        end,
        semicolon,
        curly,
    ) == stop_at(toks, i + (a + b).len(), end, semicolon, curly) by {
        lemma_spells_both(toks, i, a, b);
        lemma_calm(toks, i, end, a, semicolon, curly);
        lemma_calm(toks, i + a.len(), end, b, semicolon, curly);
    }
    reveal(calm);
}

proof fn lemma_level_one(k: Lexeme)
    requires
        opens(k) is None,
        !(k is Close),
    ensures
        level(seq![k]),
{
    assert forall|toks: Seq<Tok>, i: int, stack: Seq<Bracket>|
        spells(toks, i, seq![k]) && stack.len() > 0 implies #[trigger] closer(toks, i, stack) == closer(
        toks,
        i + seq![k].len(),
        stack,
    ) by {
        assert(seq![k][0] == k);
        assert(toks[i + 0].kind == k);
    }
    reveal(level);
}

proof fn lemma_even_one(k: Lexeme)
    requires
        plain(k),
    ensures
        even(seq![k]),
{
    lemma_level_one(k);
    assert forall|toks: Seq<Tok>, i: int, end: int, semicolon: bool, curly: bool|
        spells(toks, i, seq![k]) && i + seq![k].len() <= end <= toks.len() implies #[trigger] stop_at(
        toks,
        i,
        end,
        semicolon,
        curly,
    ) == stop_at(toks, i + seq![k].len(), end, semicolon, curly) by {
        assert(seq![k][0] == k);
        assert(toks[i + 0].kind == k);
    }
    reveal(calm);
}

pub proof fn lemma_even_gap(m: Manner)
    requires
        proper(m),
    ensures
        even(m.gap),
{
    lemma_even_blanks(m.gap);
}

proof fn lemma_even_blanks(gap: Seq<Lexeme>)
    requires
        forall|j: int| 0 <= j < gap.len() ==> blank(#[trigger] gap[j]),
    ensures
        even(gap),
    decreases gap.len(),
{
    if gap.len() == 0 {
        assert(gap =~= Seq::empty());
        lemma_even_empty();
    } else {
        assert forall|j: int| 0 <= j < gap.drop_first().len() implies blank(#[trigger] gap.drop_first()[j]) by {
            assert(gap.drop_first()[j] == gap[j + 1]);
        }
        lemma_even_blanks(gap.drop_first());
        assert(blank(gap[0]));
        lemma_even_one(gap[0]);
        lemma_even_both(seq![gap[0]], gap.drop_first());
        assert(gap =~= seq![gap[0]] + gap.drop_first());
    }
}

pub proof fn lemma_even_token(m: Manner, k: Lexeme, rest: Seq<Lexeme>)
    requires
        proper(m),
        plain(k),
        even(rest),
    ensures
        even(then_token(m, k, rest)),
{
    lemma_even_gap(m);
    lemma_even_one(k);
    lemma_even_both(seq![k], rest);
    lemma_even_both(m.gap, seq![k] + rest);
}

/// The same for tokens of which some may end a declaration.
pub proof fn lemma_level_token(m: Manner, k: Lexeme, rest: Seq<Lexeme>)
    requires
        proper(m),
        opens(k) is None,
        !(k is Close),
        level(rest),
    ensures
        level(then_token(m, k, rest)),
{
    lemma_even_gap(m);
    lemma_level_one(k);
    lemma_level_both(seq![k], rest);
    lemma_level_both(m.gap, seq![k] + rest);
}

/// A block ends with the bracket that is written at its end.
pub proof fn lemma_block(toks: Seq<Tok>, i: int, inner: Seq<Lexeme>, b: Bracket, rest: Seq<Lexeme>)
    requires
        level(inner),
        spells(toks, i, closed_by(inner, b, rest)),
    ensures
        block_end(toks, i, b) == i + inner.len(),
        past_block(toks, i, b) == i + inner.len() + 1,
        i + inner.len() < toks.len(),
        toks[i + inner.len()].kind == Lexeme::Close(b),
        ahead(toks, i + inner.len(), cur(i), inner),
        spells(toks, i + inner.len() + 1, rest),
{
    lemma_spells_both(toks, i, inner, seq![Lexeme::Close(b)] + rest);
    lemma_spells_one(toks, i + inner.len(), Lexeme::Close(b), rest);
    lemma_level(toks, i, inner, seq![b]);
    assert(seq![b].drop_last().len() == 0);
}

proof fn lemma_level_block_one(k: Lexeme, b: Bracket, inner: Seq<Lexeme>)
    requires
        opens(k) == Some(b),
        level(inner),
    ensures
        level(seq![k] + closed_by(inner, b, Seq::empty())),
{
    let kinds = seq![k] + closed_by(inner, b, Seq::empty());
    assert forall|toks: Seq<Tok>, i: int, stack: Seq<Bracket>| spells(toks, i, kinds) && stack.len() > 0 implies #[trigger] closer(
        toks,
        i,
        stack,
    ) == closer(toks, i + kinds.len(), stack) by {
        lemma_spells_one(toks, i, k, closed_by(inner, b, Seq::empty()));
        lemma_spells_both(toks, i + 1, inner, seq![Lexeme::Close(b)] + Seq::<Lexeme>::empty());
        lemma_spells_one(toks, i + 1 + inner.len(), Lexeme::Close(b), Seq::empty());
        lemma_level(toks, i + 1, inner, stack.push(b));
        assert(stack.push(b).drop_last() =~= stack);
        assert(closer(toks, i, stack) == closer(toks, i + 1, stack.push(b)));
    }
    reveal(level);
}

proof fn lemma_even_block_one(k: Lexeme, b: Bracket, inner: Seq<Lexeme>)
    requires
        opens(k) == Some(b),
        b != Bracket::Curly,
        level(inner),
    ensures
        even(seq![k] + closed_by(inner, b, Seq::empty())),
{
    lemma_level_block_one(k, b, inner);
    let kinds = seq![k] + closed_by(inner, b, Seq::empty());
    assert forall|toks: Seq<Tok>, i: int, end: int, semicolon: bool, curly: bool|
        spells(toks, i, kinds) && i + kinds.len() <= end <= toks.len() implies #[trigger] stop_at(
        toks,
        i,
        end,
        semicolon,
        curly,
    ) == stop_at(toks, i + kinds.len(), end, semicolon, curly) by {
        lemma_spells_one(toks, i, k, closed_by(inner, b, Seq::empty()));
        lemma_block(toks, i + 1, inner, b, Seq::empty());
    }
    reveal(calm);
}

pub proof fn lemma_even_block(m: Manner, k: Lexeme, b: Bracket, inner: Seq<Lexeme>, rest: Seq<Lexeme>)
    requires
        proper(m),
        opens(k) == Some(b),
        b != Bracket::Curly,
        level(inner),
        even(rest),
    ensures
        even(then_token(m, k, closed_by(inner, b, rest))),
{
    lemma_even_gap(m);
    lemma_even_block_one(k, b, inner);
    let one = seq![k] + closed_by(inner, b, Seq::empty());
    lemma_even_both(one, rest);
    assert(one + rest =~= seq![k] + closed_by(inner, b, rest));
    lemma_even_both(m.gap, one + rest);
}

pub proof fn lemma_level_block(m: Manner, k: Lexeme, b: Bracket, inner: Seq<Lexeme>, rest: Seq<Lexeme>)
    requires
        proper(m),
        opens(k) == Some(b),
        level(inner),
        level(rest),
    ensures
        level(then_token(m, k, closed_by(inner, b, rest))),
{
    lemma_even_gap(m);
    lemma_level_block_one(k, b, inner);
    let one = seq![k] + closed_by(inner, b, Seq::empty());
    lemma_level_both(one, rest);
    assert(one + rest =~= seq![k] + closed_by(inner, b, rest));
    lemma_level_both(m.gap, one + rest);
}

} // verus!
