//! Reads back what a PDF shows: its metadata, its text and its images.

use crate::limits::{
    MAX_PDF_INSPECT_CONTENT_TOTAL_BYTES, MAX_PDF_INSPECT_ITEMS, MAX_PDF_INSPECT_OPERATIONS, MAX_PDF_INSPECT_TEXT_BYTES,
};
use crate::inspect::image_pass::{ImageStep, extract_image_items, fresh_image_pass, image_steps};
use crate::inspect::metadata::{Metadata, extract_metadata, metadata_of};
use crate::inspect::pdf::{document_objects, document_trailer, page_tree, tree_pages};
use crate::inspect::text_pass::{TextStep, extract_text_items, fresh_text_pass, text_steps};
use crate::model::views;
use vstd::prelude::*;

pub mod content;
pub mod image_pass;
pub mod metadata;
pub mod pages;
pub mod pdf;
pub mod picture_pages;
pub mod placing;
pub mod resources;
pub mod steps;
pub mod strings;
pub mod text_pass;

verus! {

/// What one pass over a document may spend.
#[derive(Debug, Clone, Copy)]
pub struct InspectLimits {
    /// Decoding work, in bytes.
    pub content_total_bytes: usize,
    /// Operations read.
    pub operations: usize,
    /// Bytes of text after which no more is taken.
    pub text_bytes: usize,
    /// Items reported.
    pub items: usize,
}

impl Default for InspectLimits {
    fn default() -> (r: Self)
        ensures
            r == standard_limits(),
    {
        InspectLimits {
            content_total_bytes: MAX_PDF_INSPECT_CONTENT_TOTAL_BYTES,
            operations: MAX_PDF_INSPECT_OPERATIONS,
            text_bytes: MAX_PDF_INSPECT_TEXT_BYTES,
            items: MAX_PDF_INSPECT_ITEMS,
        }
    }
}

/// What a document shows.
#[derive(Debug, PartialEq)]
pub struct InspectResult {
    pub pages: u32,
    pub metadata: Metadata,
    pub text_items: Vec<TextStep>,
    pub images: Vec<ImageStep>,
}

/// The limits that an inspection keeps to.
pub open spec fn standard_limits() -> InspectLimits {
    InspectLimits {
        content_total_bytes: MAX_PDF_INSPECT_CONTENT_TOTAL_BYTES,
        operations: MAX_PDF_INSPECT_OPERATIONS,
        text_bytes: MAX_PDF_INSPECT_TEXT_BYTES,
        items: MAX_PDF_INSPECT_ITEMS,
    }
}

/// Counts the pages of a document and reads its metadata, its text and its
/// images.
pub fn inspect(doc: &lopdf::Document) -> (r: InspectResult)
    ensures
        ({
            let trailer = document_trailer(*doc);
            let objects = document_objects(*doc);
            let pages = page_tree(trailer, objects);
            let limits = standard_limits();
            &&& r.pages == pages.len() as u32
            &&& r.metadata@ == metadata_of(trailer, objects)
            &&& views(r.text_items@) == text_steps(objects, pages, 0, fresh_text_pass(limits), limits)
            &&& views(r.images@) == image_steps(objects, pages, 0, fresh_image_pass(limits), limits)
        }),
{
    let limits = InspectLimits::default();
    InspectResult {
        pages: tree_pages(doc).len() as u32,
        metadata: extract_metadata(doc),
        text_items: extract_text_items(doc, &limits),
        images: extract_image_items(doc, &limits),
    }
}

} // verus!
