//! Reading positions in a token stream.
//!
//! A cursor stands between two tokens of a range that ends at a given index. Where
//! it has just passed a token that opens a block, what is read next is whatever
//! follows the block, unless the block is read as a range of its own.

use crate::gcpm::token::{Bracket, CssToken, Lexeme, Mark, Tok, TokenKind, WordKind};
use crate::model::views;
use vstd::prelude::*;

verus! {

/// The kind of block that a token opens.
pub open spec fn opens(k: Lexeme) -> Option<Bracket> {
    match k {
        Lexeme::Word(WordKind::Function, _) => Some(Bracket::Paren),
        Lexeme::Open(b) => Some(b),
        _ => None,
    }
}

/// White space and comments.
pub open spec fn blank(k: Lexeme) -> bool {
    k == Lexeme::Mark(Mark::Space) || k == Lexeme::Mark(Mark::Comment)
}

/// The index of the token that closes the first of the blocks on `stack`, the last
/// of which is the innermost, or the number of tokens where nothing does. A closing
/// bracket that does not match the innermost open block is passed over.
pub open spec fn closer(toks: Seq<Tok>, i: int, stack: Seq<Bracket>) -> int
    decreases toks.len() - i,
{
    if i >= toks.len() {
        toks.len() as int
    } else {
        let k = toks[i].kind;
        let rest = if k == Lexeme::Close(stack.last()) {
            stack.drop_last()
        } else {
            stack
        };
        if rest.len() == 0 {
            i
        } else {
            closer(
                toks,
                i + 1,
                match opens(k) {
                    Some(b) => rest.push(b),
                    None => rest,
                },
            )
        }
    }
}

/// The index of the token that closes a block whose content starts at `i`, or the
/// number of tokens.
pub open spec fn block_end(toks: Seq<Tok>, i: int, b: Bracket) -> int {
    closer(toks, i, seq![b])
}

/// The index after a block whose content starts at `i`.
pub open spec fn past_block(toks: Seq<Tok>, i: int, b: Bracket) -> int {
    let e = block_end(toks, i, b);
    if e < toks.len() {
        e + 1
    } else {
        toks.len() as int
    }
}

/// Whether a token is a `;`, or a `{` where that counts too.
pub open spec fn stops(k: Lexeme, semicolon: bool, curly: bool) -> bool {
    (semicolon && k == Lexeme::Mark(Mark::Semicolon)) || (curly && k == Lexeme::Open(
        Bracket::Curly,
    ))
}

pub proof fn lemma_closer_bounds(toks: Seq<Tok>, i: int, stack: Seq<Bracket>)
    requires
        0 <= i <= toks.len(),
    ensures
        i <= closer(toks, i, stack) <= toks.len(),
    decreases toks.len() - i,
{
    if i < toks.len() {
        let k = toks[i].kind;
        let rest = if k == Lexeme::Close(stack.last()) {
            stack.drop_last()
        } else {
            stack
        };
        if rest.len() > 0 {
            lemma_closer_bounds(
                toks,
                i + 1,
                match opens(k) {
                    Some(b) => rest.push(b),
                    None => rest,
                },
            );
        }
    }
}

/// The first index from `i` on, outside any block that starts there, of a `;` or a
/// `{`, as far as each counts; `end` where there is none before it.
pub open spec fn stop_at(toks: Seq<Tok>, i: int, end: int, semicolon: bool, curly: bool) -> int
    decreases toks.len() - i,
{
    if i < 0 || i >= end || end > toks.len() {
        end
    } else if stops(toks[i].kind, semicolon, curly) {
        i
    } else {
        match opens(toks[i].kind) {
            Some(b) => {
                proof {
                    lemma_closer_bounds(toks, i + 1, seq![b]);
                }
                stop_at(toks, past_block(toks, i + 1, b), end, semicolon, curly)
            },
            None => stop_at(toks, i + 1, end, semicolon, curly),
        }
    }
}

/// The first index from `i` on that holds neither white space nor a comment, or
/// `end` where there is none before it.
pub open spec fn skip_blank(toks: Seq<Tok>, i: int, end: int) -> int
    decreases end - i,
{
    if i < end && blank(toks[i].kind) {
        skip_blank(toks, i + 1, end)
    } else {
        i
    }
}

/// The first index from `i` on that does not hold a comment.
pub open spec fn skip_comments(toks: Seq<Tok>, i: int, end: int) -> int
    decreases end - i,
{
    if i < end && toks[i].kind == Lexeme::Mark(Mark::Comment) {
        skip_comments(toks, i + 1, end)
    } else {
        i
    }
}

/// The model of a [`Cursor`].
pub ghost struct Cur {
    pub pos: int,
    pub open: Option<Bracket>,
}

/// A place between two tokens, and the block that was just opened there.
#[derive(Debug, Clone, Copy)]
pub struct Cursor {
    pub pos: usize,
    pub open: Option<Bracket>,
}

impl View for Cursor {
    type V = Cur;

    open spec fn view(&self) -> Cur {
        Cur { pos: self.pos as int, open: self.open }
    }
}

/// A cursor at an index, with no block just opened.
pub open spec fn cur(pos: int) -> Cur {
    Cur { pos, open: None }
}

/// The cursor after the token at `p`.
pub open spec fn after(toks: Seq<Tok>, p: int) -> Cur {
    Cur { pos: p + 1, open: opens(toks[p].kind) }
}

/// Where reading goes on from a cursor, blanks not skipped.
pub open spec fn settled(toks: Seq<Tok>, c: Cur) -> int {
    match c.open {
        Some(b) => past_block(toks, c.pos, b),
        None => c.pos,
    }
}

/// The index of the next token that is not blank, or one from `end` on.
pub open spec fn peek(toks: Seq<Tok>, end: int, c: Cur) -> int {
    skip_blank(toks, settled(toks, c), end)
}

/// The index of the next token that is not a comment, or one from `end` on.
pub open spec fn peek_text(toks: Seq<Tok>, end: int, c: Cur) -> int {
    skip_comments(toks, settled(toks, c), end)
}

/// Whether only blanks are left.
pub open spec fn exhausted(toks: Seq<Tok>, end: int, c: Cur) -> bool {
    peek(toks, end, c) >= end
}

pub proof fn lemma_skip_blank(toks: Seq<Tok>, i: int, end: int)
    ensures
        i <= skip_blank(toks, i, end),
        i <= end ==> skip_blank(toks, i, end) <= end,
        i >= end ==> skip_blank(toks, i, end) == i,
    decreases end - i,
{
    if i < end && blank(toks[i].kind) {
        lemma_skip_blank(toks, i + 1, end);
    }
}

pub proof fn lemma_skip_comments(toks: Seq<Tok>, i: int, end: int)
    ensures
        i <= skip_comments(toks, i, end),
        i <= end ==> skip_comments(toks, i, end) <= end,
        i >= end ==> skip_comments(toks, i, end) == i,
    decreases end - i,
{
    if i < end && toks[i].kind == Lexeme::Mark(Mark::Comment) {
        lemma_skip_comments(toks, i + 1, end);
    }
}

pub proof fn lemma_settled(toks: Seq<Tok>, c: Cur)
    requires
        0 <= c.pos <= toks.len(),
    ensures
        c.pos <= settled(toks, c) <= toks.len(),
{
    match c.open {
        Some(b) => lemma_closer_bounds(toks, c.pos, seq![b]),
        None => {},
    }
}

pub proof fn lemma_peek(toks: Seq<Tok>, end: int, c: Cur)
    requires
        0 <= c.pos <= toks.len(),
        end <= toks.len(),
    ensures
        c.pos <= peek(toks, end, c) <= toks.len(),
        c.pos <= peek_text(toks, end, c) <= toks.len(),
{
    lemma_settled(toks, c);
    lemma_skip_blank(toks, settled(toks, c), end);
    lemma_skip_comments(toks, settled(toks, c), end);
}

pub proof fn lemma_stop_at(toks: Seq<Tok>, i: int, end: int, semicolon: bool, curly: bool)
    requires
        0 <= i <= toks.len(),
        0 <= end <= toks.len(),
    ensures
        stop_at(toks, i, end, semicolon, curly) <= end,
        i <= end ==> i <= stop_at(toks, i, end, semicolon, curly),
        stop_at(toks, i, end, semicolon, curly) < end ==> 0 <= stop_at(
            toks,
            i,
            end,
            semicolon,
            curly,
        ) && stops(toks[stop_at(toks, i, end, semicolon, curly)].kind, semicolon, curly),
    decreases toks.len() - i,
{
    if i < end && !stops(toks[i].kind, semicolon, curly) {
        match opens(toks[i].kind) {
            Some(b) => {
                lemma_closer_bounds(toks, i + 1, seq![b]);
                lemma_stop_at(toks, past_block(toks, i + 1, b), end, semicolon, curly);
            },
            None => lemma_stop_at(toks, i + 1, end, semicolon, curly),
        }
    }
}

/// A cursor at an index.
pub fn cursor_at(pos: usize) -> (c: Cursor)
    ensures
        c@ == cur(pos as int),
{
    Cursor { pos, open: None }
}

/// The kind of block that a token opens.
pub fn opened_by(kind: &TokenKind) -> (b: Option<Bracket>)
    ensures
        b == opens(kind@),
{
    match kind {
        TokenKind::Word(WordKind::Function, _) => Some(Bracket::Paren),
        TokenKind::Open(b) => Some(*b),
        _ => None,
    }
}

/// Whether a token is white space or a comment.
pub fn is_blank(kind: &TokenKind) -> (b: bool)
    ensures
        b == blank(kind@),
{
    match kind {
        TokenKind::Mark(Mark::Space) => true,
        TokenKind::Mark(Mark::Comment) => true,
        _ => false,
    }
}

/// Whether a token is a closing bracket of a given kind.
fn is_close(kind: &TokenKind, b: Bracket) -> (r: bool)
    ensures
        r == (kind@ == Lexeme::Close(b)),
{
    match kind {
        TokenKind::Close(k) => *k == b,
        _ => false,
    }
}

/// The end of a block whose content starts at `i`.
pub fn find_block_end(toks: &Vec<CssToken>, i: usize, b: Bracket) -> (e: usize)
    requires
        i <= toks@.len(),
    ensures
        e == block_end(views(toks@), i as int, b),
        i <= e <= toks@.len(),
{
    let ghost vs = views(toks@);
    let mut stack: Vec<Bracket> = Vec::new();
    stack.push(b);
    let mut at: usize = i;
    proof {
        assert(stack@ =~= seq![b]);
        lemma_closer_bounds(vs, i as int, seq![b]);
    }
    while at < toks.len()
        invariant
            vs == views(toks@),
            i <= at <= toks@.len(),
            stack@.len() > 0,
            closer(vs, at as int, stack@) == block_end(vs, i as int, b),
        decreases toks@.len() - at,
    {
        let kind = &toks[at].kind;
        assert(vs[at as int].kind == kind@);
        let top = stack[stack.len() - 1];
        if is_close(kind, top) {
            if stack.len() == 1 {
                assert(stack@.drop_last().len() == 0);
                return at;
            }
            let _ = stack.pop();
        }
        match opened_by(kind) {
            Some(o) => {
                stack.push(o);
            },
            None => {},
        }
        at += 1;
    }
    at
}

/// The index after a block whose content starts at `i`.
pub fn find_past_block(toks: &Vec<CssToken>, i: usize, b: Bracket) -> (r: usize)
    requires
        i <= toks@.len(),
    ensures
        r == past_block(views(toks@), i as int, b),
        i <= r <= toks@.len(),
{
    let e = find_block_end(toks, i, b);
    if e < toks.len() {
        e + 1
    } else {
        e
    }
}

/// Whether a token is a `;`, or a `{` where that counts too.
fn is_stop(kind: &TokenKind, semicolon: bool, curly: bool) -> (r: bool)
    ensures
        r == stops(kind@, semicolon, curly),
{
    match kind {
        TokenKind::Mark(Mark::Semicolon) => semicolon,
        TokenKind::Open(Bracket::Curly) => curly,
        _ => false,
    }
}

/// The next `;` or `{` outside blocks, as far as each counts, or `end`.
pub fn find_stop(toks: &Vec<CssToken>, i: usize, end: usize, semicolon: bool, curly: bool) -> (r:
    usize)
    requires
        i <= toks@.len(),
        end <= toks@.len(),
    ensures
        r == stop_at(views(toks@), i as int, end as int, semicolon, curly),
        r <= end,
        i <= end ==> i <= r,
{
    let ghost vs = views(toks@);
    let mut at: usize = i;
    proof {
        lemma_stop_at(vs, i as int, end as int, semicolon, curly);
    }
    while at < end
        invariant
            vs == views(toks@),
            i <= at <= toks@.len(),
            end <= toks@.len(),
            stop_at(vs, at as int, end as int, semicolon, curly) == stop_at(
                vs,
                i as int,
                end as int,
                semicolon,
                curly,
            ),
        decreases toks@.len() - at,
    {
        let kind = &toks[at].kind;
        assert(vs[at as int].kind == kind@);
        if is_stop(kind, semicolon, curly) {
            return at;
        }
        match opened_by(kind) {
            Some(b) => {
                at = find_past_block(toks, at + 1, b);
            },
            None => {
                at += 1;
            },
        }
    }
    end
}

/// The next index that is not blank.
pub fn find_text(toks: &Vec<CssToken>, i: usize, end: usize) -> (r: usize)
    requires
        i <= toks@.len(),
        end <= toks@.len(),
    ensures
        r == skip_blank(views(toks@), i as int, end as int),
        i <= r <= toks@.len(),
{
    let ghost vs = views(toks@);
    let mut at: usize = i;
    while at < end && is_blank(&toks[at].kind)
        invariant
            vs == views(toks@),
            i <= at <= toks@.len(),
            end <= toks@.len(),
            skip_blank(vs, at as int, end as int) == skip_blank(vs, i as int, end as int),
        decreases end - at,
    {
        at += 1;
    }
    at
}

/// Where reading goes on from a cursor.
pub fn settle(toks: &Vec<CssToken>, c: Cursor) -> (r: usize)
    requires
        c.pos <= toks@.len(),
    ensures
        r == settled(views(toks@), c@),
        c.pos <= r <= toks@.len(),
{
    match c.open {
        Some(b) => find_past_block(toks, c.pos, b),
        None => c.pos,
    }
}

/// The next token that is not blank.
pub fn look(toks: &Vec<CssToken>, end: usize, c: Cursor) -> (p: usize)
    requires
        c.pos <= toks@.len(),
        end <= toks@.len(),
    ensures
        p == peek(views(toks@), end as int, c@),
        c.pos <= p <= toks@.len(),
{
    let from = settle(toks, c);
    find_text(toks, from, end)
}

/// The next token that is not a comment.
pub fn look_text(toks: &Vec<CssToken>, end: usize, c: Cursor) -> (p: usize)
    requires
        c.pos <= toks@.len(),
        end <= toks@.len(),
    ensures
        p == peek_text(views(toks@), end as int, c@),
        c.pos <= p <= toks@.len(),
{
    let ghost vs = views(toks@);
    let from = settle(toks, c);
    let mut at: usize = from;
    loop
        invariant
            vs == views(toks@),
            from <= at <= toks@.len(),
            end <= toks@.len(),
            skip_comments(vs, at as int, end as int) == skip_comments(vs, from as int, end as int),
        ensures
            at == skip_comments(vs, from as int, end as int),
            from <= at <= toks@.len(),
        decreases toks@.len() - at,
    {
        if at >= end {
            break;
        }
        assert(vs[at as int].kind == toks@[at as int].kind@);
        match &toks[at].kind {
            TokenKind::Mark(Mark::Comment) => {
                at += 1;
            },
            _ => {
                break;
            },
        }
    }
    at
}

/// The cursor after a token.
pub fn pass(toks: &Vec<CssToken>, p: usize) -> (c: Cursor)
    requires
        p < toks.len(),
    ensures
        c@ == after(views(toks@), p as int),
        c.pos == p + 1,
{
    Cursor { pos: p + 1, open: opened_by(&toks[p].kind) }
}

/// Whether only blanks are left.
pub fn is_exhausted(toks: &Vec<CssToken>, end: usize, c: Cursor) -> (b: bool)
    requires
        c.pos <= toks@.len(),
        end <= toks@.len(),
    ensures
        b == exhausted(views(toks@), end as int, c@),
{
    look(toks, end, c) >= end
}

} // verus!
