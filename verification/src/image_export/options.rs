//! What kind of image a page becomes.

use crate::image_export::ImageError;
use vstd::prelude::*;

verus! {

/// The format of the image.
#[derive(Debug, Clone, Copy, PartialEq, Eq, Structural)]
pub enum ImageFormat {
    Png,
    /// WebP without loss.
    WebpLossless,
}

/// What is behind the page.
#[derive(Debug, Clone, Copy, PartialEq)]
pub enum Background {
    Transparent,
    /// Red, green, blue and alpha.
    Solid([u8; 4]),
}

/// The size of the canvas in CSS pixels, the format, the background, and the
/// number of device pixels to a CSS pixel as the bits of a single-precision
/// float.
#[derive(Debug, Clone, Copy, PartialEq)]
pub struct ImageOptions {
    pub width_px: u32,
    pub height_px: u32,
    pub format: ImageFormat,
    pub background: Background,
    pub scale_bits: u32,
}

/// The bits of one.
pub const SCALE_ONE: u32 = 0x3f80_0000;

/// Whether bits stand for a number above zero that is not infinite.
pub open spec fn positive_finite(bits: u32) -> bool {
    0 < bits < 0x7f80_0000
}

impl ImageOptions {
    /// A transparent canvas at its own size.
    pub fn new(width_px: u32, height_px: u32, format: ImageFormat) -> (r: Self)
        ensures
            r.width_px == width_px,
            r.height_px == height_px,
            r.format == format,
            r.background is Transparent,
            r.scale_bits == SCALE_ONE,
    {
        ImageOptions { width_px, height_px, format, background: Background::Transparent, scale_bits: SCALE_ONE }
    }

    /// Refuses a canvas without area, and a scale that is not a positive
    /// finite number.
    pub fn validate(&self) -> (r: Result<(), ImageError>)
        ensures
            match r {
                Ok(()) => self.width_px != 0 && self.height_px != 0 && positive_finite(self.scale_bits),
                Err(ImageError::EmptyCanvas) => self.width_px == 0 || self.height_px == 0,
                Err(ImageError::BadScale) => self.width_px != 0 && self.height_px != 0 && !positive_finite(self.scale_bits),
                Err(_) => false,
            },
    {
        if self.width_px == 0 || self.height_px == 0 {
            return Err(ImageError::EmptyCanvas);
        }
        if self.scale_bits == 0 || self.scale_bits >= 0x7f80_0000 {
            return Err(ImageError::BadScale);
        }
        Ok(())
    }
}

/// The bits of a single-precision float are a sign, an exponent and a fraction. A scale
/// is accepted where the sign is that of a positive number, the exponent is not the one
/// of infinity, and the number is not zero.
pub proof fn law_scales_are_positive_and_finite(negative: bool, exponent: u32, fraction: u32, bits: u32)
    requires
        exponent < 256,
        fraction < 0x80_0000,
        bits == (if negative { 0x8000_0000int } else { 0int }) + exponent * 0x80_0000 + fraction,
    ensures
        positive_finite(bits) <==> !negative && exponent != 255 && !(exponent == 0 && fraction == 0),
        negative == false && exponent == 127 && fraction == 0 <==> bits == SCALE_ONE,
{
}

} // verus!
