//! Bookmarks declared in a style sheet.

use crate::gcpm::{ContentItem, ContentModel, ParsedSelector, SelectorModel};
use crate::model::views;
use vstd::prelude::*;

verus! {

/// The value of `bookmark-level`.
#[derive(Debug, Clone, Copy, PartialEq, Eq, Structural)]
pub enum BookmarkLevel {
    /// The depth in the outline, from 1.
    Integer(u8),
    /// No bookmark for the element, whatever its label.
    None_,
}

/// What a style rule says of bookmarks. A level or a label that it leaves open is
/// for the caller to fill in.
#[derive(Debug, Clone, PartialEq)]
pub struct BookmarkMapping {
    pub selector: ParsedSelector,
    pub level: Option<BookmarkLevel>,
    pub label: Option<Vec<ContentItem>>,
}

/// The model of [`BookmarkMapping`].
pub ghost struct BookmarkModel {
    pub selector: SelectorModel,
    pub level: Option<BookmarkLevel>,
    pub label: Option<Seq<ContentModel>>,
}

/// The model of an optional list of content items.
pub open spec fn content_views(items: Option<Vec<ContentItem>>) -> Option<Seq<ContentModel>> {
    match items {
        Some(v) => Some(views(v@)),
        None => None,
    }
}

impl View for BookmarkMapping {
    type V = BookmarkModel;

    open spec fn view(&self) -> BookmarkModel {
        BookmarkModel {
            selector: self.selector@,
            level: self.level,
            label: content_views(self.label),
        }
    }
}

} // verus!
