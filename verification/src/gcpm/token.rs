//! The flat token stream of a style sheet.
//!
//! The CSS tokenizer is `cssparser`'s. [`tokenize`] drains it into plain tokens,
//! each with the source text that it was read from, so that everything above
//! works on token indices and never on byte offsets.

use crate::model::{group_views, views};
use cssparser::{Parser, ParserInput, Token};
use vstd::prelude::*;

verus! {

broadcast use group_views;

/// The classes of tokens that carry a piece of text.
#[derive(Clone, Copy, PartialEq, Eq, Structural, Debug)]
pub enum WordKind {
    Ident,
    AtKeyword,
    IdHash,
    Quoted,
    Url,
    Function,
}

/// Punctuation and separators.
#[derive(Clone, Copy, PartialEq, Eq, Structural, Debug)]
pub enum Mark {
    Colon,
    Semicolon,
    Comma,
    Space,
    Comment,
    HtmlOpen,
    HtmlClose,
    Delim(char),
}

/// The three kinds of bracketed blocks.
#[derive(Clone, Copy, PartialEq, Eq, Structural, Debug)]
pub enum Bracket {
    Paren,
    Square,
    Curly,
}

/// What a token is. Numeric values are kept as the bits of the IEEE 754 single
/// that the tokenizer read, with the integer beside them where there was no
/// fractional part.
pub enum TokenKind {
    Word(WordKind, String),
    Mark(Mark),
    Open(Bracket),
    Close(Bracket),
    Number(u32, Option<i32>),
    Dimension(u32, String),
    Other,
}

/// The model of [`TokenKind`].
pub ghost enum Lexeme {
    Word(WordKind, Seq<char>),
    Mark(Mark),
    Open(Bracket),
    Close(Bracket),
    Number(u32, Option<i32>),
    Dimension(u32, Seq<char>),
    Other,
}

impl View for TokenKind {
    type V = Lexeme;

    open spec fn view(&self) -> Lexeme {
        match self {
            TokenKind::Word(k, s) => Lexeme::Word(*k, s@),
            TokenKind::Mark(m) => Lexeme::Mark(*m),
            TokenKind::Open(b) => Lexeme::Open(*b),
            TokenKind::Close(b) => Lexeme::Close(*b),
            TokenKind::Number(bits, whole) => Lexeme::Number(*bits, *whole),
            TokenKind::Dimension(bits, unit) => Lexeme::Dimension(*bits, unit@),
            TokenKind::Other => Lexeme::Other,
        }
    }
}

/// A token and the source text that it was read from.
pub struct CssToken {
    pub kind: TokenKind,
    pub text: String,
}

/// The model of [`CssToken`].
pub ghost struct Tok {
    pub kind: Lexeme,
    pub text: Seq<char>,
}

impl View for CssToken {
    type V = Tok;

    open spec fn view(&self) -> Tok {
        Tok { kind: self.kind@, text: self.text@ }
    }
}

/// The source text of a run of tokens.
pub open spec fn source(toks: Seq<Tok>) -> Seq<char>
    decreases toks.len(),
{
    if toks.len() == 0 {
        Seq::empty()
    } else {
        source(toks.drop_last()) + toks.last().text
    }
}

#[verifier::external_type_specification]
#[verifier::external_body]
pub struct ExParserInput<'i>(ParserInput<'i>);

/// The tokens that the `cssparser` tokenizer makes of a style sheet, comments and
/// white space among them, each with its source text.
pub uninterp spec fn css_tokens(css: Seq<char>) -> Seq<Tok>;

/// The tokens that an input has still to yield.
pub uninterp spec fn css_pending(input: ParserInput<'_>) -> Seq<Tok>;

/// `ParserInput::new`: an input at the start of `css`, which will yield all its
/// tokens. Tokens are adjacent slices of the input that cover it, so their
/// source texts join up to it.
#[verifier::external_body]
fn open_input<'i>(css: &'i str) -> (r: ParserInput<'i>)
    ensures
        css_pending(r) == css_tokens(css@),
        source(css_pending(r)) == css@,
{
    ParserInput::new(css)
}

/// `Parser::next_including_whitespace_and_comments` on a fresh parser, which has
/// no delimiter to stop at and no block to skip, followed by a return to where
/// the input stood: the kind and value of the next token, where it is one that
/// carries text.
#[verifier::external_body]
fn peek_word(input: &mut ParserInput<'_>) -> (r: Option<(WordKind, String)>)
    ensures
        css_pending(*final(input)) == css_pending(*old(input)),
        match r {
            Some((k, s)) => css_pending(*old(input)).len() > 0 && css_pending(*old(input))[0].kind
                == Lexeme::Word(k, s@),
            None => css_pending(*old(input)).len() == 0 || !(css_pending(*old(
                input,
            ))[0].kind is Word),
        },
{
    let mut parser = Parser::new(input);
    let state = parser.state();
    let word = match parser.next_including_whitespace_and_comments().ok()? {
        Token::Ident(s) => Some((WordKind::Ident, s.to_string())),
        Token::AtKeyword(s) => Some((WordKind::AtKeyword, s.to_string())),
        Token::IDHash(s) => Some((WordKind::IdHash, s.to_string())),
        Token::QuotedString(s) => Some((WordKind::Quoted, s.to_string())),
        Token::UnquotedUrl(s) => Some((WordKind::Url, s.to_string())),
        Token::Function(s) => Some((WordKind::Function, s.to_string())),
        _ => None,
    };
    parser.reset(&state);
    word
}

/// The same call, for a token that is a punctuation mark, white space, a comment
/// or a delimiter.
#[verifier::external_body]
fn peek_mark(input: &mut ParserInput<'_>) -> (r: Option<Mark>)
    ensures
        css_pending(*final(input)) == css_pending(*old(input)),
        match r {
            Some(m) => css_pending(*old(input)).len() > 0 && css_pending(*old(input))[0].kind
                == Lexeme::Mark(m),
            None => css_pending(*old(input)).len() == 0 || !(css_pending(*old(
                input,
            ))[0].kind is Mark),
        },
{
    let mut parser = Parser::new(input);
    let state = parser.state();
    let mark = match parser.next_including_whitespace_and_comments().ok()? {
        Token::Colon => Some(Mark::Colon),
        Token::Semicolon => Some(Mark::Semicolon),
        Token::Comma => Some(Mark::Comma),
        Token::WhiteSpace(_) => Some(Mark::Space),
        Token::Comment(_) => Some(Mark::Comment),
        Token::CDO => Some(Mark::HtmlOpen),
        Token::CDC => Some(Mark::HtmlClose),
        Token::Delim(c) => Some(Mark::Delim(*c)),
        _ => None,
    };
    parser.reset(&state);
    mark
}

/// The same call, for a bracket that is not part of a function token: `true`
/// where it opens a block, `false` where it closes one.
#[verifier::external_body]
fn peek_bracket(input: &mut ParserInput<'_>) -> (r: Option<(Bracket, bool)>)
    ensures
        css_pending(*final(input)) == css_pending(*old(input)),
        match r {
            Some((b, opens)) => css_pending(*old(input)).len() > 0 && css_pending(*old(
                input,
            ))[0].kind == (if opens {
                Lexeme::Open(b)
            } else {
                Lexeme::Close(b)
            }),
            None => css_pending(*old(input)).len() == 0 || !(css_pending(*old(input))[0].kind is Open
                || css_pending(*old(input))[0].kind is Close),
        },
{
    let mut parser = Parser::new(input);
    let state = parser.state();
    let bracket = match parser.next_including_whitespace_and_comments().ok()? {
        Token::ParenthesisBlock => Some((Bracket::Paren, true)),
        Token::SquareBracketBlock => Some((Bracket::Square, true)),
        Token::CurlyBracketBlock => Some((Bracket::Curly, true)),
        Token::CloseParenthesis => Some((Bracket::Paren, false)),
        Token::CloseSquareBracket => Some((Bracket::Square, false)),
        Token::CloseCurlyBracket => Some((Bracket::Curly, false)),
        _ => None,
    };
    parser.reset(&state);
    bracket
}

/// The same call, for a number or a dimension: the bits of its value, its integer
/// value where it is a number without a fractional part, and its unit where it is
/// a dimension.
#[verifier::external_body]
fn peek_number(input: &mut ParserInput<'_>) -> (r: Option<(u32, Option<i32>, Option<String>)>)
    ensures
        css_pending(*final(input)) == css_pending(*old(input)),
        match r {
            Some((bits, whole, None)) => css_pending(*old(input)).len() > 0 && css_pending(*old(
                input,
            ))[0].kind == Lexeme::Number(bits, whole),
            Some((bits, _, Some(unit))) => css_pending(*old(input)).len() > 0 && css_pending(*old(
                input,
            ))[0].kind == Lexeme::Dimension(bits, unit@),
            None => css_pending(*old(input)).len() == 0 || !(css_pending(*old(
                input,
            ))[0].kind is Number || css_pending(*old(input))[0].kind is Dimension),
        },
{
    let mut parser = Parser::new(input);
    let state = parser.state();
    let number = match parser.next_including_whitespace_and_comments().ok()? {
        Token::Number { value, int_value, .. } => Some((value.to_bits(), *int_value, None)),
        Token::Dimension { value, unit, .. } => Some((value.to_bits(), None, Some(unit.to_string()))),
        _ => None,
    };
    parser.reset(&state);
    number
}

/// The same call without the return: passes over the next token and hands out the
/// source text between the positions before and after it, which `Parser::slice_from`
/// gives.
#[verifier::external_body]
fn advance(input: &mut ParserInput<'_>) -> (r: Option<String>)
    ensures
        match r {
            Some(text) => css_pending(*old(input)).len() > 0 && text@ == css_pending(*old(
                input,
            ))[0].text && css_pending(*final(input)) == css_pending(*old(input)).drop_first(),
            None => css_pending(*old(input)).len() == 0 && css_pending(*final(input))
                == css_pending(*old(input)),
        },
{
    let mut parser = Parser::new(input);
    let start = parser.position();
    parser.next_including_whitespace_and_comments().ok()?;
    Some(parser.slice_from(start).to_string())
}

/// The kind of the next token.
fn peek_kind(input: &mut ParserInput<'_>) -> (r: TokenKind)
    ensures
        css_pending(*final(input)) == css_pending(*old(input)),
        css_pending(*old(input)).len() > 0 ==> r@ == css_pending(*old(input))[0].kind,
{
    match peek_word(input) {
        Some((kind, value)) => return TokenKind::Word(kind, value),
        None => {},
    }
    match peek_mark(input) {
        Some(mark) => return TokenKind::Mark(mark),
        None => {},
    }
    match peek_bracket(input) {
        Some((bracket, true)) => return TokenKind::Open(bracket),
        Some((bracket, false)) => return TokenKind::Close(bracket),
        None => {},
    }
    match peek_number(input) {
        Some((bits, whole, None)) => TokenKind::Number(bits, whole),
        Some((bits, _, Some(unit))) => TokenKind::Dimension(bits, unit),
        None => TokenKind::Other,
    }
}

/// All tokens of a style sheet.
pub fn tokenize(css: &str) -> (tokens: Vec<CssToken>)
    ensures
        views(tokens@) == css_tokens(css@),
        source(views(tokens@)) == css@,
{
    let mut input = open_input(css);
    let mut tokens: Vec<CssToken> = Vec::new();
    loop
        invariant
            views(tokens@) + css_pending(input) == css_tokens(css@),
        ensures
            views(tokens@) == css_tokens(css@),
        decreases css_pending(input).len(),
    {
        let ghost before = css_pending(input);
        let ghost had = views(tokens@);
        let kind = peek_kind(&mut input);
        match advance(&mut input) {
            Some(text) => {
                tokens.push(CssToken { kind, text });
                assert(views(tokens@) + css_pending(input) =~= had + before);
            },
            None => {
                assert(had + before =~= had);
                break;
            },
        }
    }
    tokens
}

} // verus!
