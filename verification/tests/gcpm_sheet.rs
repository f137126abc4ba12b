//! The structure of style sheets, held against the rule parser of `cssparser`.

use cssparser::{
    AtRuleParser, CowRcStr, DeclarationParser, ParseError, Parser, ParserInput, ParserState, QualifiedRuleParser,
    RuleBodyItemParser, RuleBodyParser, StyleSheetParser,
};
use fulgur::gcpm::sheet::{BodyItem, SheetRule, find_body_items, find_rules};
use fulgur::gcpm::token::{CssToken, tokenize};

/// A piece of a style sheet, with the bytes where it and its parts start and end.
#[derive(Debug, PartialEq, Clone)]
enum Piece {
    AtRule { name: String, start: usize, inside: usize, end: usize },
    Qualified { inside: usize, end: usize },
    Declaration { name: String, start: usize, value: usize, end: usize },
}

fn drain(input: &mut Parser<'_, '_>) -> (usize, usize) {
    let start = input.position().byte_index();
    while input.next_including_whitespace_and_comments().is_ok() {}
    (start, input.position().byte_index())
}

/// Writes down what a rule parser visits.
struct Recorder {
    pieces: Vec<Piece>,
}

impl Recorder {
    fn block(&mut self, input: &mut Parser<'_, '_>) -> (usize, usize) {
        let state = input.state();
        let range = drain(input);
        input.reset(&state);
        for item in RuleBodyParser::new(input, self) {
            let _ = item;
        }
        range
    }
}

impl<'i> AtRuleParser<'i> for Recorder {
    type Prelude = String;
    type AtRule = ();
    type Error = ();

    fn parse_prelude<'t>(&mut self, name: CowRcStr<'i>, input: &mut Parser<'i, 't>) -> Result<String, ParseError<'i, ()>> {
        drain(input);
        Ok(name.to_string())
    }

    fn parse_block<'t>(
        &mut self,
        name: String,
        start: &ParserState,
        input: &mut Parser<'i, 't>,
    ) -> Result<(), ParseError<'i, ()>> {
        let at = self.pieces.len();
        let (inside, end) = self.block(input);
        self.pieces.insert(at, Piece::AtRule { name, start: start.position().byte_index(), inside, end });
        Ok(())
    }
}

impl<'i> QualifiedRuleParser<'i> for Recorder {
    type Prelude = ();
    type QualifiedRule = ();
    type Error = ();

    fn parse_prelude<'t>(&mut self, input: &mut Parser<'i, 't>) -> Result<(), ParseError<'i, ()>> {
        drain(input);
        Ok(())
    }

    fn parse_block<'t>(
        &mut self,
        _prelude: (),
        _start: &ParserState,
        input: &mut Parser<'i, 't>,
    ) -> Result<(), ParseError<'i, ()>> {
        let at = self.pieces.len();
        let (inside, end) = self.block(input);
        self.pieces.insert(at, Piece::Qualified { inside, end });
        Ok(())
    }
}

impl<'i> DeclarationParser<'i> for Recorder {
    type Declaration = ();
    type Error = ();

    fn parse_value<'t>(
        &mut self,
        name: CowRcStr<'i>,
        input: &mut Parser<'i, 't>,
        start: &ParserState,
    ) -> Result<(), ParseError<'i, ()>> {
        let (value, end) = drain(input);
        self.pieces.push(Piece::Declaration {
            name: name.to_string(),
            start: start.position().byte_index(),
            value,
            end,
        });
        Ok(())
    }
}

impl<'i> RuleBodyItemParser<'i, (), ()> for Recorder {
    fn parse_declarations(&self) -> bool {
        true
    }

    fn parse_qualified(&self) -> bool {
        false
    }
}

fn recorded(css: &str) -> Vec<Piece> {
    let mut input = ParserInput::new(css);
    let mut parser = Parser::new(&mut input);
    let mut recorder = Recorder { pieces: Vec::new() };
    for item in StyleSheetParser::new(&mut parser, &mut recorder) {
        let _ = item;
    }
    recorder.pieces
}

/// The pieces that the library finds in a block.
fn found_in_block(toks: &Vec<CssToken>, offsets: &[usize], start: usize, end: usize, out: &mut Vec<Piece>) {
    for item in find_body_items(toks, start, end) {
        match item {
            BodyItem::Declaration { name, start, value, end } => out.push(Piece::Declaration {
                name,
                start: offsets[start],
                value: offsets[value],
                end: offsets[end],
            }),
            BodyItem::AtRule { name, start, open, close, .. } => {
                out.push(Piece::AtRule { name, start: offsets[start], inside: offsets[open + 1], end: offsets[close] });
                found_in_block(toks, offsets, open + 1, close, out);
            }
        }
    }
}

fn found(css: &str) -> Vec<Piece> {
    let toks = tokenize(css);
    let mut offsets = vec![0];
    for tok in &toks {
        offsets.push(offsets[offsets.len() - 1] + tok.text.len());
    }
    let mut out = Vec::new();
    for rule in find_rules(&toks) {
        match rule {
            SheetRule::AtRule { name, start, open, close, .. } => {
                out.push(Piece::AtRule { name, start: offsets[start], inside: offsets[open + 1], end: offsets[close] });
                found_in_block(&toks, &offsets, open + 1, close, &mut out);
            }
            SheetRule::Qualified { open, close, .. } => {
                out.push(Piece::Qualified { inside: offsets[open + 1], end: offsets[close] });
                found_in_block(&toks, &offsets, open + 1, close, &mut out);
            }
        }
    }
    out
}

#[test]
fn tokens_cover_the_source() {
    let css = "a { b: \"c\" url(d) 1px 2% /* e */ #f @g; } <!-- -->\n\r\n\"open";
    let joined: String = tokenize(css).iter().map(|t| t.text.as_str()).collect();
    assert_eq!(joined, css);
}

#[test]
fn known_sheets_have_the_same_structure() {
    for css in [
        "",
        "a{b:c;d:e}",
        "@page :first { margin: 0; @top-left { content: \"x\" } size: A4 }",
        "@charset \"utf-8\"; a { b: c }",
        "@charset { a: b } c { d: e }",
        "a { b: c } @charset { d: e }",
        "@import url(x); a { b: { c; d } e; f: g }",
        "a { b c; d: e; ; } } f { g: h }",
        "--x: y { a: b } c { d: e }",
        "--x { a: b }",
        "a { (b; c) ; d: e }",
        "a { @b c; @d { e: f } g: h",
        "a { b: [c; d] (e {f; g}) ; h: i ! important }",
        "<!-- a { b: c } --> d { e: f } <!--",
        "@x { a: b",
        "a",
        "@y",
        "a { } ] ) b { c: d }",
        "a { \"b\": c; 1px: d; e: f }",
        "a { b: \"c\nd: e; f: g }",
    ] {
        assert_eq!(found(css), recorded(css), "{css:?}");
    }
}

#[test]
fn generated_sheets_have_the_same_structure() {
    let parts = [
        "a", "--b", "c", ":", ";", "{", "}", "(", ")", "[", "]", " ", "/**/", "@page", "@charset", "@d", ".", "#e",
        "\"f\"", "'g", "f(", "url(h)", "url(", "1px", "2", "3%", ",", "!", "<!--", "-->", "\n", "\\", "/*", "~=", "U+1",
    ];
    let mut seed: u64 = 7;
    for _ in 0..20_000 {
        let mut css = String::new();
        let length = {
            seed = seed.wrapping_mul(6364136223846793005).wrapping_add(1442695040888963407);
            (seed >> 33) % 24
        };
        for _ in 0..length {
            seed = seed.wrapping_mul(6364136223846793005).wrapping_add(1442695040888963407);
            css.push_str(parts[((seed >> 33) % parts.len() as u64) as usize]);
        }
        let joined: String = tokenize(&css).iter().map(|t| t.text.as_str()).collect();
        assert_eq!(joined, css);
        assert_eq!(found(&css), recorded(&css), "{css:?}");
    }
}
