//! Pages as images.

use fulgur::image_export::ImageError;
use fulgur::image_export::b64::encode;
use fulgur::image_export::encode::{encode_pixmap, straight_rgba};
use fulgur::image_export::options::{Background, ImageFormat, ImageOptions};
use fulgur::image_export::svg_emit::{
    InputImageFormat, SvgBlock, SvgBorder, SvgDoc, SvgRect, emit_block, emit_image, emit_path, trim,
};

#[test]
fn validate_rejects_zero_dims() {
    let o = ImageOptions::new(0, 100, ImageFormat::Png);
    assert!(o.validate().is_err());
    assert_eq!(o.validate(), Err(ImageError::EmptyCanvas));
    let o = ImageOptions::new(100, 0, ImageFormat::Png);
    assert!(o.validate().is_err());
}

#[test]
fn validate_rejects_bad_scale() {
    let mut o = ImageOptions::new(100, 100, ImageFormat::Png);
    o.scale_bits = 0.0_f32.to_bits();
    assert!(o.validate().is_err());
    o.scale_bits = (-1.0_f32).to_bits();
    assert!(o.validate().is_err());
    for scale in [-0.0_f32, f32::INFINITY, f32::NEG_INFINITY, f32::NAN] {
        o.scale_bits = scale.to_bits();
        assert_eq!(o.validate(), Err(ImageError::BadScale));
    }
    for scale in [1.0_f32, 2.0, f32::MIN_POSITIVE, f32::MAX, 1e-40] {
        o.scale_bits = scale.to_bits();
        assert_eq!(o.validate(), Ok(()));
    }
}

#[test]
fn default_background_is_transparent() {
    let o = ImageOptions::new(10, 10, ImageFormat::Png);
    assert!(matches!(o.background, Background::Transparent));
    assert_eq!(o.scale_bits, 1.0_f32.to_bits());
}

#[test]
fn errors_have_words() {
    assert_eq!(ImageError::EmptyCanvas.message(), "image width and height must be non-zero");
    assert_eq!(ImageError::BadScale.message(), "image scale must be a positive, finite number");
    assert_eq!(ImageError::PngFailed("no room".to_string()).message(), "PNG encode failed: no room");
    assert_eq!(ImageError::WebpFailed(String::new()).message(), "WebP encode failed: ");
}

#[test]
fn failed_files_say_why() {
    let wide = tiny_skia::Pixmap::new(16385, 1).unwrap();
    let mut out = Vec::new();
    let why = image::codecs::webp::WebPEncoder::new_lossless(&mut out)
        .encode(&[0; 16385 * 4], 16385, 1, image::ExtendedColorType::Rgba8)
        .unwrap_err()
        .to_string();
    assert!(!why.is_empty());
    let error = encode_pixmap(&wide, ImageFormat::WebpLossless).unwrap_err();
    assert_eq!(error.message(), format!("WebP encode failed: {why}"));
    assert_eq!(error, ImageError::WebpFailed(why));
    assert!(encode_pixmap(&wide, ImageFormat::Png).is_ok());
}

fn red_pixmap() -> tiny_skia::Pixmap {
    let mut p = tiny_skia::Pixmap::new(4, 4).unwrap();
    p.fill(tiny_skia::Color::from_rgba8(255, 0, 0, 255));
    p
}

#[test]
fn png_has_magic_bytes() {
    let bytes = encode_pixmap(&red_pixmap(), ImageFormat::Png).unwrap();
    assert_eq!(
        &bytes[..8],
        &[0x89, b'P', b'N', b'G', 0x0d, 0x0a, 0x1a, 0x0a]
    );
}

#[test]
fn webp_has_riff_header() {
    let bytes = encode_pixmap(&red_pixmap(), ImageFormat::WebpLossless).unwrap();
    assert_eq!(&bytes[0..4], b"RIFF");
    assert_eq!(&bytes[8..12], b"WEBP");
}

#[test]
fn webp_keeps_the_pixels() {
    let mut p = tiny_skia::Pixmap::new(3, 2).unwrap();
    p.fill(tiny_skia::Color::from_rgba8(10, 200, 30, 128));
    let bytes = encode_pixmap(&p, ImageFormat::WebpLossless).unwrap();
    let read = image::load_from_memory_with_format(&bytes, image::ImageFormat::WebP).unwrap().to_rgba8();
    assert_eq!(read.dimensions(), (3, 2));
    assert_eq!(read.into_raw(), straight_rgba(&p));
}

#[test]
fn straight_pixels_are_divided_by_their_alpha() {
    let mut p = tiny_skia::Pixmap::new(1, 2).unwrap();
    p.pixels_mut()[0] = tiny_skia::PremultipliedColorU8::from_rgba(64, 0, 128, 128).unwrap();
    p.pixels_mut()[1] = tiny_skia::PremultipliedColorU8::from_rgba(1, 2, 3, 255).unwrap();
    let straight = p.pixels()[0].demultiply();
    let bytes = straight_rgba(&p);
    assert_eq!(bytes[..4], [straight.red(), straight.green(), straight.blue(), 128]);
    assert_ne!(bytes[0], 64);
    assert_eq!(bytes[4..], [1, 2, 3, 255]);
}

#[test]
fn base64_of_known_texts() {
    for (bytes, text) in [
        ("", ""),
        ("f", "Zg=="),
        ("fo", "Zm8="),
        ("foo", "Zm9v"),
        ("foob", "Zm9vYg=="),
        ("fooba", "Zm9vYmE="),
        ("foobar", "Zm9vYmFy"),
    ] {
        assert_eq!(encode(bytes.as_bytes()), text);
    }
    assert_eq!(encode(&[0xfb, 0xff, 0xfe]), "+//+");
}

fn rect(x: &str, y: &str, width: &str, height: &str) -> SvgRect {
    SvgRect { x: x.to_string(), y: y.to_string(), width: width.to_string(), height: height.to_string() }
}

fn blank(width: &str, height: &str, background: Background) -> SvgDoc {
    SvgDoc::new(width.to_string(), height.to_string(), background, &rect("0", "0", width, height), "1")
}

#[test]
fn block_emits_background_and_border() {
    let mut doc = blank("75", "75", Background::Transparent);
    let block = SvgBlock {
        rect: rect("5", "6", "40", "50"),
        radius: None,
        background: Some(([10, 20, 30, 255], "1".to_string())),
        border: Some(SvgBorder {
            rect: rect("6", "7", "38", "48"),
            color: [0, 0, 0, 255],
            opacity: "1".to_string(),
            width: "2".to_string(),
        }),
    };
    emit_block(&mut doc, &block);
    let svg = doc.finish();
    assert!(svg.contains("fill=\"rgb(10,20,30)\""));
    assert!(svg.contains(r#"x="5""#));
    assert!(svg.contains("stroke="));
}

#[test]
fn round_corners_are_written() {
    let mut doc = blank("75", "75", Background::Transparent);
    let block = SvgBlock {
        rect: rect("5", "6", "40", "50"),
        radius: Some(("3".to_string(), "4".to_string())),
        background: Some(([10, 20, 30, 255], "0.5".to_string())),
        border: None,
    };
    emit_block(&mut doc, &block);
    let svg = doc.finish();
    assert!(svg.contains(r#"rx="3""#));
    assert!(svg.contains(r#"ry="4""#));
    assert!(svg.contains(r#"fill-opacity="0.5""#));
    assert!(!svg.contains("stroke="));
}

#[test]
fn skeleton_has_viewbox_and_size() {
    // A canvas of 1200 by 630 pixels, three quarters of a point each.
    let svg = blank(&trim("900.000"), &trim("472.500"), Background::Transparent).finish();
    assert!(svg.contains(r#"viewBox="0 0 900 472.5""#));
    assert!(svg.contains("</svg>"));
    assert!(!svg.contains("<rect"));
}

#[test]
fn solid_background_emits_rect() {
    let svg = blank("7.5", "7.5", Background::Solid([255, 0, 0, 255])).finish();
    assert!(svg.contains("<rect"));
    assert!(svg.contains("fill=\"rgb(255,0,0)\""));
}

#[test]
fn image_emits_data_uri() {
    let mut doc = blank("75", "75", Background::Transparent);
    let data = [0x89, b'P', b'N', b'G'];
    emit_image(&mut doc, InputImageFormat::Png, &data, &rect("4", "5", "20", "30"), "1");
    let svg = doc.finish();
    assert!(svg.contains("<image"));
    assert!(svg.contains("data:image/png;base64,iVBORw=="));
    assert!(svg.contains(r#"x="4""#));
}

#[test]
fn other_images_name_their_media_type() {
    for (format, media) in [(InputImageFormat::Jpeg, "image/jpeg"), (InputImageFormat::Gif, "image/gif")] {
        let mut doc = blank("75", "75", Background::Transparent);
        emit_image(&mut doc, format, &[1, 2, 3], &rect("4", "5", "20", "30"), "1");
        assert!(doc.finish().contains(&format!("data:{media};base64,AQID")));
    }
}

#[test]
fn paths_are_filled_and_empty_ones_left_out() {
    let mut doc = blank("75", "75", Background::Transparent);
    emit_path(&mut doc, "", [200, 0, 0, 255], "1");
    emit_path(&mut doc, "M0 0L1 1Z", [200, 0, 0, 255], "1");
    let svg = doc.finish();
    assert_eq!(svg.matches("<path").count(), 1);
    assert!(svg.contains(r#"d="M0 0L1 1Z""#));
    assert!(svg.contains("fill=\"rgb(200,0,0)\""));
}

#[test]
fn numbers_lose_trailing_zeros() {
    assert_eq!(trim("900.000"), "900");
    assert_eq!(trim("472.500"), "472.5");
    assert_eq!(trim("0.125"), "0.125");
}
