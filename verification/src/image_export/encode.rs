//! Pixels as the bytes of an image file.

use crate::image_export::ImageError;
use crate::image_export::options::ImageFormat;
use vstd::prelude::*;

verus! {

#[verifier::external_type_specification]
#[verifier::external_body]
pub struct ExPixmap(tiny_skia::Pixmap);

/// Red, green, blue and alpha of a pixel.
pub type Rgba = (u8, u8, u8, u8);

/// The pixels that a pixmap holds, row by row, their colours multiplied by
/// their alpha.
pub uninterp spec fn pixmap_pixels(pixmap: tiny_skia::Pixmap) -> Seq<(u8, u8, u8, u8)>;

/// The width and the height of a pixmap.
pub uninterp spec fn pixmap_size(pixmap: tiny_skia::Pixmap) -> (u32, u32);

/// A pixel with its colours divided by its alpha.
pub uninterp spec fn demultiplied(pixel: (u8, u8, u8, u8)) -> (u8, u8, u8, u8);

/// `tiny_skia::Pixmap::width` and `height`. A pixmap holds one pixel for each
/// place, and its bytes can be counted.
#[verifier::external_body]
fn size_of(pixmap: &tiny_skia::Pixmap) -> (r: (u32, u32))
    ensures
        r == pixmap_size(*pixmap),
        pixmap_pixels(*pixmap).len() == r.0 * r.1,
        r.0 * r.1 * 4 <= usize::MAX,
{
    (pixmap.width(), pixmap.height())
}

/// `tiny_skia::PremultipliedColorU8::demultiply` on a pixel of a pixmap. An
/// opaque pixel stays as it is and no pixel changes its alpha; how the colours
/// are rounded is named, not stated.
#[verifier::external_body]
fn straight_pixel(pixmap: &tiny_skia::Pixmap, i: usize) -> (r: (u8, u8, u8, u8))
    requires
        i < pixmap_pixels(*pixmap).len(),
    ensures
        r == demultiplied(pixmap_pixels(*pixmap)[i as int]),
        r.3 == pixmap_pixels(*pixmap)[i as int].3,
        r.3 == 255 ==> r == pixmap_pixels(*pixmap)[i as int],
{
    let color = pixmap.pixels()[i].demultiply();
    (color.red(), color.green(), color.blue(), color.alpha())
}

/// The bytes of a PNG file of a size with pixels, or why it cannot be written.
pub uninterp spec fn png_file(size: (u32, u32), pixels: Seq<(u8, u8, u8, u8)>) -> Result<Seq<u8>, Seq<char>>;

/// `tiny_skia::Pixmap::encode_png`, its error in words. The file format and the
/// words are named, not stated.
#[verifier::external_body]
fn encode_png(pixmap: &tiny_skia::Pixmap) -> (r: Result<Vec<u8>, String>)
    ensures
        png_file(pixmap_size(*pixmap), pixmap_pixels(*pixmap)) == match r {
            Ok(bytes) => Ok::<Seq<u8>, Seq<char>>(bytes@),
            Err(why) => Err::<Seq<u8>, Seq<char>>(why@),
        },
{
    pixmap.encode_png().map_err(|e| e.to_string())
}

/// The bytes of a lossless WebP file of a size with bytes of pixels, or why it
/// cannot be written.
pub uninterp spec fn webp_file(rgba: Seq<u8>, width: u32, height: u32) -> Result<Seq<u8>, Seq<char>>;

/// `image::codecs::webp::WebPEncoder::encode`, lossless, on four bytes for
/// each pixel, its error in words. The file format and the words are named, not
/// stated.
#[verifier::external_body]
fn encode_webp(rgba: &Vec<u8>, width: u32, height: u32) -> (r: Result<Vec<u8>, String>)
    requires
        rgba@.len() == width * height * 4,
    ensures
        webp_file(rgba@, width, height) == match r {
            Ok(bytes) => Ok::<Seq<u8>, Seq<char>>(bytes@),
            Err(why) => Err::<Seq<u8>, Seq<char>>(why@),
        },
{
    let mut out = Vec::new();
    let encoder = image::codecs::webp::WebPEncoder::new_lossless(&mut out);
    encoder.encode(rgba, width, height, image::ExtendedColorType::Rgba8).map_err(|e| e.to_string())?;
    Ok(out)
}

/// The bytes of pixels whose colours are not multiplied by their alpha.
pub open spec fn straight_bytes(pixels: Seq<Rgba>) -> Seq<u8>
    decreases pixels.len(),
{
    if pixels.len() == 0 {
        Seq::empty()
    } else {
        let p = demultiplied(pixels.last());
        straight_bytes(pixels.drop_last()) + seq![p.0, p.1, p.2, p.3]
    }
}

/// The file that pixels become in a format, or why they do not.
pub open spec fn image_file(format: ImageFormat, size: (u32, u32), pixels: Seq<Rgba>) -> Result<Seq<u8>, Seq<char>> {
    match format {
        ImageFormat::Png => png_file(size, pixels),
        ImageFormat::WebpLossless => webp_file(straight_bytes(pixels), size.0, size.1),
    }
}

/// The bytes of a pixmap, four for each pixel, colours not multiplied by
/// alpha.
pub fn straight_rgba(pixmap: &tiny_skia::Pixmap) -> (r: Vec<u8>)
    ensures
        r@ == straight_bytes(pixmap_pixels(*pixmap)),
        r@.len() == pixmap_size(*pixmap).0 * pixmap_size(*pixmap).1 * 4,
{
    let (width, height) = size_of(pixmap);
    let ghost pixels = pixmap_pixels(*pixmap);
    proof {
        assert(width * height <= width * height * 4) by (nonlinear_arith);
    }
    let count: usize = width as usize * height as usize;
    let mut rgba: Vec<u8> = Vec::new();
    let mut i: usize = 0;
    while i < count
        invariant
            i <= count,
            count == pixels.len(),
            pixels == pixmap_pixels(*pixmap),
            rgba@ == straight_bytes(pixels.take(i as int)),
            rgba@.len() == 4 * i,
        decreases count - i,
    {
        let p = straight_pixel(pixmap, i);
        let ghost before = rgba@;
        rgba.push(p.0);
        rgba.push(p.1);
        rgba.push(p.2);
        rgba.push(p.3);
        i = i + 1;
        proof {
            assert(pixels.take(i as int).drop_last() =~= pixels.take(i - 1));
            assert(rgba@ =~= before + seq![p.0, p.1, p.2, p.3]);
        }
    }
    assert(pixels.take(i as int) =~= pixels);
    rgba
}

/// Encodes a pixmap in a format.
pub fn encode_pixmap(pixmap: &tiny_skia::Pixmap, format: ImageFormat) -> (r: Result<Vec<u8>, ImageError>)
    ensures
        match image_file(format, pixmap_size(*pixmap), pixmap_pixels(*pixmap)) {
            Ok(file) => r matches Ok(bytes) && bytes@ == file,
            Err(why) => match format {
                ImageFormat::Png => r matches Err(ImageError::PngFailed(text)) && text@ == why,
                ImageFormat::WebpLossless => r matches Err(ImageError::WebpFailed(text)) && text@ == why,
            },
        },
{
    match format {
        ImageFormat::Png => match encode_png(pixmap) {
            Ok(bytes) => Ok(bytes),
            Err(why) => Err(ImageError::PngFailed(why)),
        },
        ImageFormat::WebpLossless => {
            let (width, height) = size_of(pixmap);
            let rgba: Vec<u8> = straight_rgba(pixmap);
            match encode_webp(&rgba, width, height) {
                Ok(bytes) => Ok(bytes),
                Err(why) => Err(ImageError::WebpFailed(why)),
            }
        },
    }
}

/// Every pixel has four bytes, in its place: red, green, blue and alpha.
pub proof fn law_pixels_keep_their_places(pixels: Seq<Rgba>)
    ensures
        straight_bytes(pixels).len() == 4 * pixels.len(),
        forall|i: int| #![trigger pixels[i]]
            0 <= i < pixels.len() ==> {
                let (red, green, blue, alpha) = demultiplied(pixels[i]);
                &&& straight_bytes(pixels)[4 * i] == red
                &&& straight_bytes(pixels)[4 * i + 1] == green
                &&& straight_bytes(pixels)[4 * i + 2] == blue
                &&& straight_bytes(pixels)[4 * i + 3] == alpha
            },
    decreases pixels.len(),
{
    if pixels.len() > 0 {
        let before = pixels.drop_last();
        law_pixels_keep_their_places(before);
        let p = demultiplied(pixels.last());
        let bytes = straight_bytes(pixels);
        assert(bytes == straight_bytes(before) + seq![p.0, p.1, p.2, p.3]);
        assert forall|i: int| #![trigger pixels[i]]
            0 <= i < pixels.len() implies {
                let (red, green, blue, alpha) = demultiplied(pixels[i]);
                &&& bytes[4 * i] == red
                &&& bytes[4 * i + 1] == green
                &&& bytes[4 * i + 2] == blue
                &&& bytes[4 * i + 3] == alpha
            } by {
            if i < before.len() {
                assert(before[i] == pixels[i]);
            }
        }
    }
}

} // verus!
