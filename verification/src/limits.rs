//! Bounds on what untrusted input may cost.

use vstd::prelude::*;

verus! {

/// How deep a document tree is followed.
pub const MAX_DOM_DEPTH: usize = 512;

/// Decoded content of one PDF page, in bytes; a page with more is skipped.
pub const MAX_PDF_CONTENT_BYTES: usize = 1_048_576;

/// Decoding work that one pass over a PDF may spend, in bytes.
pub const MAX_PDF_INSPECT_CONTENT_TOTAL_BYTES: usize = 134_217_728;

/// Content operations that one pass over a PDF may read.
pub const MAX_PDF_INSPECT_OPERATIONS: usize = 20_000_000;

/// Text that one pass over a PDF keeps, in bytes, before it takes no more.
pub const MAX_PDF_INSPECT_TEXT_BYTES: usize = 33_554_432;

/// Items that one pass over a PDF reports.
pub const MAX_PDF_INSPECT_ITEMS: usize = 100_000;

/// A font resource name, in bytes.
pub const MAX_PDF_FONT_NAME_BYTES: usize = 127;

/// A field of the document information dictionary, in bytes.
pub const MAX_PDF_METADATA_FIELD_BYTES: usize = 65_536;

/// Graphics states that are kept at once.
pub const MAX_PDF_GS_STACK_DEPTH: usize = 512;

/// Links followed from one page, aliases and parents together.
pub const MAX_PDF_PARENT_DEPTH: usize = 128;

/// What touching one page, one stream or one dictionary entry costs at least,
/// in bytes.
pub const PDF_CONTENT_STREAM_COST_FLOOR_BYTES: usize = 1_024;

} // verus!
