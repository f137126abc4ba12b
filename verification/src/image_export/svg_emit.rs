//! A page as an SVG document. Numbers come as text.

use crate::gcpm::numeral::{decimal, to_decimal};
use crate::image_export::b64::{base64, encode};
use crate::image_export::options::Background;
use vstd::prelude::*;
use vstd::string::*;

verus! {

/// A rectangle, each number as text.
#[derive(Debug)]
pub struct SvgRect {
    pub x: String,
    pub y: String,
    pub width: String,
    pub height: String,
}

/// The outline of a block.
#[derive(Debug)]
pub struct SvgBorder {
    pub rect: SvgRect,
    pub color: [u8; 4],
    pub opacity: String,
    pub width: String,
}

/// What a block shows of itself.
#[derive(Debug)]
pub struct SvgBlock {
    pub rect: SvgRect,
    /// The radii of the corners, if they are round.
    pub radius: Option<(String, String)>,
    /// The colour behind the block, and how opaque it is.
    pub background: Option<([u8; 4], String)>,
    pub border: Option<SvgBorder>,
}

/// The encoding of an image that a page shows.
#[derive(Debug, Clone, Copy, PartialEq, Eq, Structural)]
pub enum InputImageFormat {
    Png,
    Jpeg,
    Gif,
}

/// An SVG document being written.
pub struct SvgDoc {
    width: String,
    height: String,
    body: String,
}

/// The size of a document and what it holds so far.
pub ghost struct SvgModel {
    pub width: Seq<char>,
    pub height: Seq<char>,
    pub body: Seq<char>,
}

impl View for SvgDoc {
    type V = SvgModel;

    closed spec fn view(&self) -> SvgModel {
        SvgModel { width: self.width@, height: self.height@, body: self.body@ }
    }
}

/// Text without the zeros at its end.
pub open spec fn without_zeros(text: Seq<char>) -> Seq<char>
    decreases text.len(),
{
    if text.len() > 0 && text.last() == '0' {
        without_zeros(text.drop_last())
    } else {
        text
    }
}

/// Text without the points at its end.
pub open spec fn without_points(text: Seq<char>) -> Seq<char>
    decreases text.len(),
{
    if text.len() > 0 && text.last() == '.' {
        without_points(text.drop_last())
    } else {
        text
    }
}

/// Shortens a number written with digits behind its point.
pub fn trim(text: &str) -> (r: String)
    ensures
        r@ == without_points(without_zeros(text@)),
{
    let mut end: usize = text.unicode_len();
    let ghost whole = text@;
    assert(whole.take(end as int) =~= whole);
    while end > 0 && text.get_char(end - 1) == '0'
        invariant
            whole == text@,
            end <= whole.len(),
            without_zeros(whole.take(end as int)) == without_zeros(whole),
        decreases end,
    {
        assert(whole.take(end as int).drop_last() =~= whole.take(end - 1));
        end = end - 1;
    }
    let ghost trimmed = whole.take(end as int);
    assert(without_zeros(trimmed) == trimmed);
    while end > 0 && text.get_char(end - 1) == '.'
        invariant
            whole == text@,
            end <= whole.len(),
            without_points(whole.take(end as int)) == without_points(trimmed),
        decreases end,
    {
        assert(whole.take(end as int).drop_last() =~= whole.take(end - 1));
        end = end - 1;
    }
    let r = text.substring_char(0, end).to_owned();
    assert(r@ =~= whole.take(end as int));
    r
}

/// A colour, its alpha left out.
pub open spec fn rgb(color: [u8; 4]) -> Seq<char> {
    "rgb("@ + decimal(color[0] as int) + ","@ + decimal(color[1] as int) + ","@ + decimal(color[2] as int) + ")"@
}

fn write_rgb(color: [u8; 4]) -> (r: String)
    ensures
        r@ == rgb(color),
{
    let mut out: String = "rgb(".to_owned();
    out.append(to_decimal(color[0] as i32).as_str());
    out.append(",");
    out.append(to_decimal(color[1] as i32).as_str());
    out.append(",");
    out.append(to_decimal(color[2] as i32).as_str());
    out.append(")");
    out
}

/// The attributes that place something.
pub open spec fn place(rect: SvgRect) -> Seq<char> {
    " x=\""@ + rect.x@ + "\" y=\""@ + rect.y@ + "\" width=\""@ + rect.width@ + "\" height=\""@ + rect.height@ + "\""@
}

fn write_place(rect: &SvgRect) -> (r: String)
    ensures
        r@ == place(*rect),
{
    let mut out: String = " x=\"".to_owned();
    out.append(rect.x.as_str());
    out.append("\" y=\"");
    out.append(rect.y.as_str());
    out.append("\" width=\"");
    out.append(rect.width.as_str());
    out.append("\" height=\"");
    out.append(rect.height.as_str());
    out.append("\"");
    out
}

/// The attributes of round corners.
pub open spec fn corners(radius: Option<(String, String)>) -> Seq<char> {
    match radius {
        Some((rx, ry)) => " rx=\""@ + rx@ + "\" ry=\""@ + ry@ + "\""@,
        None => Seq::empty(),
    }
}

fn write_corners(radius: &Option<(String, String)>) -> (r: String)
    ensures
        r@ == corners(*radius),
{
    match radius {
        Some((rx, ry)) => {
            let mut out: String = " rx=\"".to_owned();
            out.append(rx.as_str());
            out.append("\" ry=\"");
            out.append(ry.as_str());
            out.append("\"");
            out
        },
        None => String::new(),
    }
}

/// A filled rectangle.
pub open spec fn filled(rect: SvgRect, radius: Option<(String, String)>, color: [u8; 4], opacity: Seq<char>) -> Seq<char> {
    "<rect"@ + place(rect) + corners(radius) + " fill=\""@ + rgb(color) + "\" fill-opacity=\""@ + opacity + "\"/>"@
}

/// An outlined rectangle.
pub open spec fn outlined(border: SvgBorder, radius: Option<(String, String)>) -> Seq<char> {
    "<rect"@ + place(border.rect) + corners(radius) + " fill=\"none\" stroke=\""@ + rgb(border.color) + "\" stroke-opacity=\""@
        + border.opacity@ + "\" stroke-width=\""@ + border.width@ + "\"/>"@
}

/// A block: its background, then its outline.
pub open spec fn block_markup(block: SvgBlock) -> Seq<char> {
    let background = match block.background {
        Some((color, opacity)) => filled(block.rect, block.radius, color, opacity@),
        None => Seq::empty(),
    };
    let border = match block.border {
        Some(border) => outlined(border, block.radius),
        None => Seq::empty(),
    };
    background + border
}

/// A filled path; nothing where it is empty.
pub open spec fn path_markup(d: Seq<char>, color: [u8; 4], opacity: Seq<char>) -> Seq<char> {
    if d.len() == 0 {
        Seq::empty()
    } else {
        "<path d=\""@ + d + "\" fill=\""@ + rgb(color) + "\" fill-opacity=\""@ + opacity + "\"/>"@
    }
}

/// The media type of an image.
pub open spec fn media_type(format: InputImageFormat) -> Seq<char> {
    match format {
        InputImageFormat::Png => "image/png"@,
        InputImageFormat::Jpeg => "image/jpeg"@,
        InputImageFormat::Gif => "image/gif"@,
    }
}

/// An image that fills a rectangle, its data written out.
pub open spec fn image_markup(format: InputImageFormat, data: Seq<u8>, rect: SvgRect, opacity: Seq<char>) -> Seq<char> {
    "<image"@ + place(rect) + " preserveAspectRatio=\"none\" opacity=\""@ + opacity + "\" href=\"data:"@ + media_type(format)
        + ";base64,"@ + base64(data) + "\"/>"@
}

fn write_filled(rect: &SvgRect, radius: &Option<(String, String)>, color: [u8; 4], opacity: &str) -> (r: String)
    ensures
        r@ == filled(*rect, *radius, color, opacity@),
{
    let mut out: String = "<rect".to_owned();
    out.append(write_place(rect).as_str());
    out.append(write_corners(radius).as_str());
    out.append(" fill=\"");
    out.append(write_rgb(color).as_str());
    out.append("\" fill-opacity=\"");
    out.append(opacity);
    out.append("\"/>");
    out
}

fn write_outlined(border: &SvgBorder, radius: &Option<(String, String)>) -> (r: String)
    ensures
        r@ == outlined(*border, *radius),
{
    let mut out: String = "<rect".to_owned();
    out.append(write_place(&border.rect).as_str());
    out.append(write_corners(radius).as_str());
    out.append(" fill=\"none\" stroke=\"");
    out.append(write_rgb(border.color).as_str());
    out.append("\" stroke-opacity=\"");
    out.append(border.opacity.as_str());
    out.append("\" stroke-width=\"");
    out.append(border.width.as_str());
    out.append("\"/>");
    out
}

/// The document as text.
pub open spec fn document(doc: SvgModel) -> Seq<char> {
    "<svg xmlns=\"http://www.w3.org/2000/svg\" width=\""@ + doc.width + "\" height=\""@ + doc.height + "\" viewBox=\"0 0 "@ + doc.width
        + " "@ + doc.height + "\">"@ + doc.body + "</svg>"@
}

impl SvgDoc {
    /// A document of a size, with nothing but its background: a rectangle over
    /// the canvas, unless it is transparent.
    pub fn new(width: String, height: String, background: Background, canvas: &SvgRect, opacity: &str) -> (r: Self)
        ensures
            r@ == (SvgModel {
                width: width@,
                height: height@,
                body: match background {
                    Background::Solid(color) => filled(*canvas, None, color, opacity@),
                    Background::Transparent => Seq::empty(),
                },
            }),
    {
        let body: String = match background {
            Background::Solid(color) => write_filled(canvas, &None, color, opacity),
            Background::Transparent => String::new(),
        };
        SvgDoc { width, height, body }
    }

    /// Adds markup.
    pub fn push(&mut self, markup: &str)
        ensures
            final(self)@ == (SvgModel { body: old(self)@.body + markup@, ..old(self)@ }),
    {
        self.body.append(markup);
    }

    /// The document as text.
    pub fn finish(self) -> (r: String)
        ensures
            r@ == document(self@),
    {
        let mut out: String = "<svg xmlns=\"http://www.w3.org/2000/svg\" width=\"".to_owned();
        out.append(self.width.as_str());
        out.append("\" height=\"");
        out.append(self.height.as_str());
        out.append("\" viewBox=\"0 0 ");
        out.append(self.width.as_str());
        out.append(" ");
        out.append(self.height.as_str());
        out.append("\">");
        out.append(self.body.as_str());
        out.append("</svg>");
        out
    }
}

/// Adds a block's background and its outline.
pub fn emit_block(doc: &mut SvgDoc, block: &SvgBlock)
    ensures
        final(doc)@ == (SvgModel { body: old(doc)@.body + block_markup(*block), ..old(doc)@ }),
{
    if let Some((color, opacity)) = &block.background {
        doc.push(write_filled(&block.rect, &block.radius, *color, opacity.as_str()).as_str());
    }
    if let Some(border) = &block.border {
        doc.push(write_outlined(border, &block.radius).as_str());
    }
    assert(doc@.body =~= old(doc)@.body + block_markup(*block));
}

/// Adds the outlines of a run of glyphs, filled.
pub fn emit_path(doc: &mut SvgDoc, d: &str, color: [u8; 4], opacity: &str)
    ensures
        final(doc)@ == (SvgModel { body: old(doc)@.body + path_markup(d@, color, opacity@), ..old(doc)@ }),
{
    if d.is_empty() {
        assert(doc@.body =~= old(doc)@.body + path_markup(d@, color, opacity@));
        return;
    }
    let mut out: String = "<path d=\"".to_owned();
    out.append(d);
    out.append("\" fill=\"");
    out.append(write_rgb(color).as_str());
    out.append("\" fill-opacity=\"");
    out.append(opacity);
    out.append("\"/>");
    doc.push(out.as_str());
}

/// Adds an image that fills a rectangle.
pub fn emit_image(doc: &mut SvgDoc, format: InputImageFormat, data: &[u8], rect: &SvgRect, opacity: &str)
    ensures
        final(doc)@ == (SvgModel { body: old(doc)@.body + image_markup(format, data@, *rect, opacity@), ..old(doc)@ }),
{
    let media: &str = match format {
        InputImageFormat::Png => "image/png",
        InputImageFormat::Jpeg => "image/jpeg",
        InputImageFormat::Gif => "image/gif",
    };
    let mut out: String = "<image".to_owned();
    out.append(write_place(rect).as_str());
    out.append(" preserveAspectRatio=\"none\" opacity=\"");
    out.append(opacity);
    out.append("\" href=\"data:");
    out.append(media);
    out.append(";base64,");
    out.append(encode(data).as_str());
    out.append("\"/>");
    doc.push(out.as_str());
}

} // verus!
