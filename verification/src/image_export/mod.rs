//! Pages as images.

use vstd::prelude::*;
use vstd::string::*;

pub mod b64;
pub mod encode;
pub mod options;
pub mod svg_emit;
pub mod svg_reading;

verus! {

/// Why a page did not become an image.
#[derive(Debug, Clone, PartialEq, Eq)]
pub enum ImageError {
    /// The canvas has no width or no height.
    EmptyCanvas,
    /// The scale is not a positive finite number.
    BadScale,
    /// The PNG file could not be written, and why.
    PngFailed(String),
    /// The WebP file could not be written, and why.
    WebpFailed(String),
}

impl ImageError {
    /// The error in words.
    pub open spec fn words(self) -> Seq<char> {
        match self {
            ImageError::EmptyCanvas => "image width and height must be non-zero"@,
            ImageError::BadScale => "image scale must be a positive, finite number"@,
            ImageError::PngFailed(why) => "PNG encode failed: "@ + why@,
            ImageError::WebpFailed(why) => "WebP encode failed: "@ + why@,
        }
    }

    /// The error in words.
    pub fn message(&self) -> (r: String)
        ensures
            r@ == self.words(),
    {
        match self {
            ImageError::EmptyCanvas => "image width and height must be non-zero".to_owned(),
            ImageError::BadScale => "image scale must be a positive, finite number".to_owned(),
            ImageError::PngFailed(why) => {
                let mut words: String = "PNG encode failed: ".to_owned();
                words.append(why.as_str());
                words
            },
            ImageError::WebpFailed(why) => {
                let mut words: String = "WebP encode failed: ".to_owned();
                words.append(why.as_str());
                words
            },
        }
    }
}

/// An error of an encoder says which image could not be encoded, and ends with the cause
/// as the encoder gives it.
pub proof fn law_errors_tell_the_cause(e: ImageError)
    ensures
        e matches ImageError::PngFailed(why) ==> {
            &&& e.words().take(3) == "PNG"@
            &&& e.words().skip(e.words().len() - why@.len()) == why@
            &&& e.words().len() >= why@.len() + 3
        },
        e matches ImageError::WebpFailed(why) ==> {
            &&& e.words().take(4) == "WebP"@
            &&& e.words().skip(e.words().len() - why@.len()) == why@
            &&& e.words().len() >= why@.len() + 4
        },
{
    reveal_strlit("PNG encode failed: ");
    reveal_strlit("WebP encode failed: ");
    reveal_strlit("PNG");
    reveal_strlit("WebP");
    match e {
        ImageError::PngFailed(why) => {
            assert(e.words().take(3) =~= "PNG"@);
            assert(e.words().skip(e.words().len() - why@.len()) =~= why@);
        },
        ImageError::WebpFailed(why) => {
            assert(e.words().take(4) =~= "WebP"@);
            assert(e.words().skip(e.words().len() - why@.len()) =~= why@);
        },
        _ => {},
    }
}

} // verus!
