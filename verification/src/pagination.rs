//! Where pagination has put the nodes of a document, and what it has found on each
//! page. Coordinates are of a type `L`.

use crate::model::opt_view;
use std::collections::BTreeMap;
use vstd::prelude::*;

verus! {

/// The part of a node that lies on one page.
#[derive(Debug, Clone, Copy)]
pub struct Fragment<L> {
    /// The page, from 0.
    pub page_index: u32,
    pub x: L,
    pub y: L,
    pub width: L,
    pub height: L,
}

/// The fragments of a node, in page order.
#[derive(Debug, Clone)]
pub struct PaginationGeometry<L> {
    pub fragments: Vec<Fragment<L>>,
    /// Whether the node is repeated on every page.
    pub is_repeat: bool,
}

/// The geometry of each node.
pub type PaginationGeometryTable<L> = BTreeMap<usize, PaginationGeometry<L>>;

/// The instances of one running element that a page holds.
#[derive(Debug, Clone)]
pub struct PageRunningState {
    pub instance_ids: Vec<usize>,
}

/// The values of one named string around a page.
#[derive(Debug, Clone)]
pub struct StringSetPageState {
    /// The value in effect at the start of the page.
    pub start: Option<String>,
    /// The first value set on the page.
    pub first: Option<String>,
    /// The last value set on the page.
    pub last: Option<String>,
}

/// The model of [`StringSetPageState`].
pub ghost struct StringStateModel {
    pub start: Option<Seq<char>>,
    pub first: Option<Seq<char>>,
    pub last: Option<Seq<char>>,
}

impl View for StringSetPageState {
    type V = StringStateModel;

    open spec fn view(&self) -> StringStateModel {
        StringStateModel {
            start: opt_view(self.start),
            first: opt_view(self.first),
            last: opt_view(self.last),
        }
    }
}

} // verus!
