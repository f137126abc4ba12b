//! What the markup of an SVG document says: elements with their attributes.

use crate::gcpm::numeral::{decimal, integer_of, law_decimal_reads_back};
use crate::image_export::b64::base64;
use crate::image_export::svg_emit::{
    InputImageFormat, SvgBlock, SvgBorder, SvgModel, SvgRect, block_markup, corners, document, filled, image_markup,
    media_type, outlined, path_markup, place, rgb, without_points, without_zeros,
};
use vstd::prelude::*;

verus! {

/// Attributes, each a name and a value.
pub type Attributes = Seq<(Seq<char>, Seq<char>)>;

/// An attribute.
pub open spec fn attribute(name: Seq<char>, value: Seq<char>) -> Seq<char> {
    seq![' '] + name + seq!['=', '"'] + value + seq!['"']
}

/// Attributes, one after the other.
pub open spec fn attributes(pairs: Attributes) -> Seq<char>
    decreases pairs.len(),
{
    if pairs.len() == 0 {
        Seq::empty()
    } else {
        attribute(pairs[0].0, pairs[0].1) + attributes(pairs.drop_first())
    }
}

/// An element without content.
pub open spec fn element(name: Seq<char>, pairs: Attributes) -> Seq<char> {
    seq!['<'] + name + attributes(pairs) + seq!['/', '>']
}

/// The attributes that place something.
pub open spec fn placing(rect: SvgRect) -> Attributes {
    seq![("x"@, rect.x@), ("y"@, rect.y@), ("width"@, rect.width@), ("height"@, rect.height@)]
}

/// The attributes of round corners.
pub open spec fn rounding(radius: Option<(String, String)>) -> Attributes {
    match radius {
        Some((rx, ry)) => seq![("rx"@, rx@), ("ry"@, ry@)],
        None => Seq::empty(),
    }
}

proof fn lemma_attributes_of_both(a: Attributes, b: Attributes)
    ensures
        attributes(a + b) == attributes(a) + attributes(b),
    decreases a.len(),
{
    if a.len() == 0 {
        assert(a + b =~= b);
        assert(attributes(a) + attributes(b) =~= attributes(b));
    } else {
        assert((a + b).drop_first() =~= a.drop_first() + b);
        lemma_attributes_of_both(a.drop_first(), b);
        assert(attributes(a + b) =~= attributes(a) + attributes(b));
    }
}

proof fn lemma_one_attribute(name: Seq<char>, value: Seq<char>)
    ensures
        attributes(seq![(name, value)]) == attribute(name, value),
{
    let pairs = seq![(name, value)];
    assert(pairs.drop_first() =~= Seq::<(Seq<char>, Seq<char>)>::empty());
    reveal_with_fuel(attributes, 2);
    assert(attributes(pairs) =~= attribute(name, value));
}

proof fn lemma_two_attributes(a: Seq<char>, v: Seq<char>, b: Seq<char>, w: Seq<char>)
    ensures
        attributes(seq![(a, v), (b, w)]) == attribute(a, v) + attribute(b, w),
{
    lemma_one_attribute(a, v);
    lemma_one_attribute(b, w);
    lemma_attributes_of_both(seq![(a, v)], seq![(b, w)]);
    assert(seq![(a, v), (b, w)] =~= seq![(a, v)] + seq![(b, w)]);
}

proof fn lemma_place(rect: SvgRect)
    ensures
        place(rect) == attributes(placing(rect)),
{
    reveal_strlit(" x=\"");
    reveal_strlit("\" y=\"");
    reveal_strlit("\" width=\"");
    reveal_strlit("\" height=\"");
    reveal_strlit("\"");
    reveal_strlit("x");
    reveal_strlit("y");
    reveal_strlit("width");
    reveal_strlit("height");
    let q = seq!['"'];
    let (x, y, w, h) = (rect.x@, rect.y@, rect.width@, rect.height@);
    let first = seq![("x"@, x), ("y"@, y)];
    let second = seq![("width"@, w), ("height"@, h)];
    assert(placing(rect) =~= first + second);
    lemma_attributes_of_both(first, second);
    lemma_two_attributes("x"@, x, "y"@, y);
    lemma_two_attributes("width"@, w, "height"@, h);
    let hx = " x=\""@;
    let hy = seq![' ', 'y', '=', '"'];
    let hw = seq![' ', 'w', 'i', 'd', 't', 'h', '=', '"'];
    let hh = seq![' ', 'h', 'e', 'i', 'g', 'h', 't', '=', '"'];
    assert("\" y=\""@ =~= q + hy);
    assert("\" width=\""@ =~= q + hw);
    assert("\" height=\""@ =~= q + hh);
    assert("\""@ =~= q);
    assert(seq![' '] + "x"@ + seq!['=', '"'] =~= hx);
    assert(seq![' '] + "y"@ + seq!['=', '"'] =~= hy);
    assert(seq![' '] + "width"@ + seq!['=', '"'] =~= hw);
    assert(seq![' '] + "height"@ + seq!['=', '"'] =~= hh);
    let left = hx + x + (q + hy) + y;
    assert(left + (q + hw) + w + (q + hh) + h + q =~= (left + q) + ((hw + w + q) + (hh + h + q)));
    assert(left + q =~= (hx + x + q) + (hy + y + q));
}

proof fn lemma_corners(radius: Option<(String, String)>)
    ensures
        corners(radius) == attributes(rounding(radius)),
{
    match radius {
        Some((rx, ry)) => {
            reveal_strlit(" rx=\"");
            reveal_strlit("\" ry=\"");
            reveal_strlit("\"");
            reveal_strlit("rx");
            reveal_strlit("ry");
            lemma_two_attributes("rx"@, rx@, "ry"@, ry@);
            assert(corners(radius) =~= attribute("rx"@, rx@) + attribute("ry"@, ry@));
        },
        None => {},
    }
}

/// A background is a rectangle at the place of its block, with its corners, its colour
/// and its opacity.
pub proof fn law_backgrounds_say_what_they_are(
    rect: SvgRect,
    radius: Option<(String, String)>,
    color: [u8; 4],
    opacity: Seq<char>,
)
    ensures
        filled(rect, radius, color, opacity) == element(
            "rect"@,
            placing(rect) + rounding(radius) + seq![("fill"@, rgb(color)), ("fill-opacity"@, opacity)],
        ),
{
    reveal_strlit("<rect");
    reveal_strlit("rect");
    reveal_strlit(" fill=\"");
    reveal_strlit("\" fill-opacity=\"");
    reveal_strlit("\"/>");
    reveal_strlit("fill");
    reveal_strlit("fill-opacity");
    lemma_place(rect);
    lemma_corners(radius);
    let paint = seq![("fill"@, rgb(color)), ("fill-opacity"@, opacity)];
    lemma_attributes_of_both(placing(rect), rounding(radius));
    lemma_attributes_of_both(placing(rect) + rounding(radius), paint);
    lemma_two_attributes("fill"@, rgb(color), "fill-opacity"@, opacity);
    let q = seq!['"'];
    assert("\" fill-opacity=\""@ =~= q + (seq![' '] + "fill-opacity"@ + seq!['=', '"']));
    assert(" fill=\""@ =~= seq![' '] + "fill"@ + seq!['=', '"']);
    assert("\"/>"@ =~= q + seq!['/', '>']);
    assert("<rect"@ =~= seq!['<'] + "rect"@);
    assert(filled(rect, radius, color, opacity) =~= element("rect"@, placing(rect) + rounding(radius) + paint));
}

/// An outline is a rectangle of its own, not filled, with the colour, the opacity and the
/// width of its line.
pub proof fn law_outlines_say_what_they_are(border: SvgBorder, radius: Option<(String, String)>)
    ensures
        outlined(border, radius) == element(
            "rect"@,
            placing(border.rect) + rounding(radius) + seq![("fill"@, "none"@), ("stroke"@, rgb(border.color))] + seq![
                ("stroke-opacity"@, border.opacity@),
                ("stroke-width"@, border.width@),
            ],
        ),
{
    reveal_strlit("<rect");
    reveal_strlit("rect");
    reveal_strlit(" fill=\"none\" stroke=\"");
    reveal_strlit("\" stroke-opacity=\"");
    reveal_strlit("\" stroke-width=\"");
    reveal_strlit("\"/>");
    reveal_strlit("fill");
    reveal_strlit("none");
    reveal_strlit("stroke");
    reveal_strlit("stroke-opacity");
    reveal_strlit("stroke-width");
    lemma_place(border.rect);
    lemma_corners(radius);
    let color = rgb(border.color);
    let (o, w) = (border.opacity@, border.width@);
    let paint = seq![("fill"@, "none"@), ("stroke"@, color)];
    let line = seq![("stroke-opacity"@, o), ("stroke-width"@, w)];
    let lead = placing(border.rect) + rounding(radius);
    lemma_attributes_of_both(placing(border.rect), rounding(radius));
    lemma_attributes_of_both(lead, paint);
    lemma_attributes_of_both(lead + paint, line);
    lemma_two_attributes("fill"@, "none"@, "stroke"@, color);
    lemma_two_attributes("stroke-opacity"@, o, "stroke-width"@, w);
    let q = seq!['"'];
    let hs = seq![' '] + "stroke"@ + seq!['=', '"'];
    let ho = seq![' '] + "stroke-opacity"@ + seq!['=', '"'];
    let hw = seq![' '] + "stroke-width"@ + seq!['=', '"'];
    assert(" fill=\"none\" stroke=\""@ =~= attribute("fill"@, "none"@) + hs);
    assert("\" stroke-opacity=\""@ =~= q + ho);
    assert("\" stroke-width=\""@ =~= q + hw);
    assert("\"/>"@ =~= q + seq!['/', '>']);
    assert("<rect"@ =~= seq!['<'] + "rect"@);
    let p = "<rect"@ + place(border.rect) + corners(radius);
    let none = attribute("fill"@, "none"@);
    assert(p + (none + hs) + color + (q + ho) + o + (q + hw) + w + (q + seq!['/', '>']) =~= p + (none + (hs + color + q)) + ((
    ho + o + q) + (hw + w + q)) + seq!['/', '>']);
    assert(outlined(border, radius) =~= element("rect"@, lead + paint + line));
}

/// A block shows its background, where it has one, and its outline on top, where it has
/// one, both with the corners of the block.
pub proof fn law_blocks_show_background_and_outline(block: SvgBlock)
    ensures
        block.background is None && block.border is None ==> block_markup(block).len() == 0,
        block.background matches Some((color, opacity)) ==> block.border is None ==> block_markup(block) == filled(
            block.rect,
            block.radius,
            color,
            opacity@,
        ),
        block.border matches Some(border) ==> block.background is None ==> block_markup(block) == outlined(
            border,
            block.radius,
        ),
        block.background matches Some((color, opacity)) ==> block.border matches Some(border) ==> block_markup(block)
            == filled(block.rect, block.radius, color, opacity@) + outlined(border, block.radius),
{
    if let Some((color, opacity)) = block.background {
        let f = filled(block.rect, block.radius, color, opacity@);
        assert(f + Seq::<char>::empty() =~= f);
    }
    if let Some(border) = block.border {
        let o = outlined(border, block.radius);
        assert(Seq::<char>::empty() + o =~= o);
    }
}

/// A path says its outline, its colour and its opacity.
pub proof fn law_paths_say_what_they_are(d: Seq<char>, color: [u8; 4], opacity: Seq<char>)
    requires
        d.len() > 0,
    ensures
        path_markup(d, color, opacity) == element(
            "path"@,
            seq![("d"@, d)] + seq![("fill"@, rgb(color)), ("fill-opacity"@, opacity)],
        ),
{
    reveal_strlit("<path d=\"");
    reveal_strlit("path");
    reveal_strlit("d");
    reveal_strlit("\" fill=\"");
    reveal_strlit("\" fill-opacity=\"");
    reveal_strlit("\"/>");
    reveal_strlit("fill");
    reveal_strlit("fill-opacity");
    let paint = seq![("fill"@, rgb(color)), ("fill-opacity"@, opacity)];
    lemma_attributes_of_both(seq![("d"@, d)], paint);
    lemma_one_attribute("d"@, d);
    lemma_two_attributes("fill"@, rgb(color), "fill-opacity"@, opacity);
    let q = seq!['"'];
    let hf = seq![' '] + "fill"@ + seq!['=', '"'];
    let ho = seq![' '] + "fill-opacity"@ + seq!['=', '"'];
    assert("<path d=\""@ =~= seq!['<'] + "path"@ + (seq![' '] + "d"@ + seq!['=', '"']));
    assert("\" fill=\""@ =~= q + hf);
    assert("\" fill-opacity=\""@ =~= q + ho);
    assert("\"/>"@ =~= q + seq!['/', '>']);
    assert(path_markup(d, color, opacity) =~= element("path"@, seq![("d"@, d)] + paint));
}

/// An image says its place, its opacity, and its data with their media type.
pub proof fn law_images_say_what_they_are(format: InputImageFormat, data: Seq<u8>, rect: SvgRect, opacity: Seq<char>)
    ensures
        image_markup(format, data, rect, opacity) == element(
            "image"@,
            placing(rect) + seq![("preserveAspectRatio"@, "none"@), ("opacity"@, opacity)] + seq![
                ("href"@, "data:"@ + media_type(format) + ";base64,"@ + base64(data)),
            ],
        ),
        media_type(InputImageFormat::Png) == "image/png"@,
        media_type(InputImageFormat::Jpeg) == "image/jpeg"@,
        media_type(InputImageFormat::Gif) == "image/gif"@,
{
    reveal_strlit("<image");
    reveal_strlit("image");
    reveal_strlit(" preserveAspectRatio=\"none\" opacity=\"");
    reveal_strlit("\" href=\"data:");
    reveal_strlit(";base64,");
    reveal_strlit("data:");
    reveal_strlit("\"/>");
    reveal_strlit("preserveAspectRatio");
    reveal_strlit("none");
    reveal_strlit("opacity");
    reveal_strlit("href");
    lemma_place(rect);
    let shape = seq![("preserveAspectRatio"@, "none"@), ("opacity"@, opacity)];
    let value = "data:"@ + media_type(format) + ";base64,"@ + base64(data);
    let link = seq![("href"@, value)];
    lemma_attributes_of_both(placing(rect), shape);
    lemma_attributes_of_both(placing(rect) + shape, link);
    lemma_two_attributes("preserveAspectRatio"@, "none"@, "opacity"@, opacity);
    lemma_one_attribute("href"@, value);
    let q = seq!['"'];
    let none = attribute("preserveAspectRatio"@, "none"@);
    let ho = seq![' '] + "opacity"@ + seq!['=', '"'];
    let hh = seq![' '] + "href"@ + seq!['=', '"'];
    assert(" preserveAspectRatio=\"none\" opacity=\""@ =~= none + ho);
    assert("\" href=\"data:"@ =~= q + hh + "data:"@);
    assert("\"/>"@ =~= q + seq!['/', '>']);
    assert("<image"@ =~= seq!['<'] + "image"@);
    let p = "<image"@ + place(rect);
    let (t, b) = (media_type(format), base64(data));
    assert(p + (none + ho) + opacity + (q + hh + "data:"@) + t + ";base64,"@ + b + (q + seq!['/', '>']) =~= p + (none + (ho
        + opacity + q)) + (hh + ("data:"@ + t + ";base64,"@ + b) + q) + seq!['/', '>']);
    assert(image_markup(format, data, rect, opacity) =~= element("image"@, placing(rect) + shape + link));
}

/// A document says its size, twice, and holds what was written into it.
pub proof fn law_documents_say_their_size(doc: SvgModel)
    ensures
        document(doc) == "<svg"@ + attributes(
            seq![("xmlns"@, "http://www.w3.org/2000/svg"@), ("width"@, doc.width)] + seq![
                ("height"@, doc.height),
                ("viewBox"@, "0 0 "@ + doc.width + " "@ + doc.height),
            ],
        ) + ">"@ + doc.body + "</svg>"@,
{
    reveal_strlit("<svg xmlns=\"http://www.w3.org/2000/svg\" width=\"");
    reveal_strlit("<svg");
    reveal_strlit("xmlns");
    reveal_strlit("http://www.w3.org/2000/svg");
    reveal_strlit("width");
    reveal_strlit("height");
    reveal_strlit("viewBox");
    reveal_strlit("\" height=\"");
    reveal_strlit("\" viewBox=\"0 0 ");
    reveal_strlit("0 0 ");
    reveal_strlit("\">");
    reveal_strlit(">");
    let (w, h) = (doc.width, doc.height);
    let view = "0 0 "@ + w + " "@ + h;
    let first = seq![("xmlns"@, "http://www.w3.org/2000/svg"@), ("width"@, w)];
    let second = seq![("height"@, h), ("viewBox"@, view)];
    lemma_attributes_of_both(first, second);
    lemma_two_attributes("xmlns"@, "http://www.w3.org/2000/svg"@, "width"@, w);
    lemma_two_attributes("height"@, h, "viewBox"@, view);
    let q = seq!['"'];
    let xmlns = attribute("xmlns"@, "http://www.w3.org/2000/svg"@);
    let hw = seq![' '] + "width"@ + seq!['=', '"'];
    let hh = seq![' '] + "height"@ + seq!['=', '"'];
    let hv = seq![' '] + "viewBox"@ + seq!['=', '"'];
    assert("<svg xmlns=\"http://www.w3.org/2000/svg\" width=\""@ =~= "<svg"@ + xmlns + hw);
    assert("\" height=\""@ =~= q + hh);
    assert("\" viewBox=\"0 0 "@ =~= q + hv + "0 0 "@);
    assert("\">"@ =~= q + ">"@);
    assert(("<svg"@ + xmlns + hw) + w + (q + hh) + h + (q + hv + "0 0 "@) + w + " "@ + h + (q + ">"@) =~= "<svg"@ + ((xmlns + (
    hw + w + q)) + ((hh + h + q) + (hv + view + q))) + ">"@);
}

/// A colour tells red, green and blue, in this order.
pub proof fn law_colors_read_back(color: [u8; 4])
    ensures
        ({
            let s = rgb(color);
            let i = 4int + decimal(color[0] as int).len();
            let j = i + 1 + decimal(color[1] as int).len() as int;
            &&& s.take(4) == "rgb("@
            &&& s[i] == ','
            &&& s[j] == ','
            &&& s.last() == ')'
            &&& integer_of(s.subrange(4, i)) == color[0]
            &&& integer_of(s.subrange(i + 1, j)) == color[1]
            &&& integer_of(s.subrange(j + 1, s.len() - 1)) == color[2]
        }),
{
    reveal_strlit("rgb(");
    reveal_strlit(",");
    reveal_strlit(")");
    let s = rgb(color);
    let (r, g, b) = (decimal(color[0] as int), decimal(color[1] as int), decimal(color[2] as int));
    let i = (4 + r.len()) as int;
    let j = i + 1 + g.len();
    law_decimal_reads_back(color[0] as int);
    law_decimal_reads_back(color[1] as int);
    law_decimal_reads_back(color[2] as int);
    assert(s.take(4) =~= "rgb("@);
    assert(s.subrange(4, i) =~= r);
    assert(s.subrange(i + 1, j) =~= g);
    assert(s.subrange(j + 1, s.len() - 1) =~= b);
}

/// A shortened number is the number without the zeros behind its point, and without the
/// point where no digit is left behind it.
pub proof fn law_numbers_are_shortened(whole: Seq<char>, kept: Seq<char>, zeros: nat)
    requires
        kept.len() > 0 ==> kept.last() != '0' && kept.last() != '.',
        whole.len() > 0 && whole.last() != '.',
    ensures
        ({
            let tail = Seq::new(zeros, |i: int| '0');
            &&& kept.len() > 0 ==> without_points(without_zeros(whole + seq!['.'] + kept + tail)) == whole + seq!['.'] + kept
            &&& kept.len() == 0 ==> without_points(without_zeros(whole + seq!['.'] + tail)) == whole
        }),
{
    let tail = Seq::new(zeros, |i: int| '0');
    if kept.len() > 0 {
        let n = whole + seq!['.'] + kept;
        lemma_zeros_go(n, zeros);
        assert(n.last() == kept.last());
    } else {
        let n = whole + seq!['.'];
        lemma_zeros_go(n, zeros);
        assert(n.last() == '.');
        assert(n.drop_last() =~= whole);
        reveal_with_fuel(without_points, 2);
    }
}

proof fn lemma_zeros_go(n: Seq<char>, zeros: nat)
    requires
        n.len() > 0 && n.last() != '0',
    ensures
        without_zeros(n + Seq::new(zeros, |i: int| '0')) == n,
    decreases zeros,
{
    let tail = Seq::new(zeros, |i: int| '0');
    if zeros == 0 {
        assert(n + tail =~= n);
    } else {
        let less = Seq::new((zeros - 1) as nat, |i: int| '0');
        lemma_zeros_go(n, (zeros - 1) as nat);
        assert((n + tail).drop_last() =~= n + less);
        assert((n + tail).last() == '0');
    }
}

} // verus!
