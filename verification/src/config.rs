//! The page settings that a caller asks for. Lengths are of a type `L`.

use crate::gcpm::Margin;
use vstd::prelude::*;

verus! {

/// The size of a page.
#[derive(Debug, Clone, Copy, PartialEq)]
pub struct PageSize<L> {
    pub width: L,
    pub height: L,
}

/// The sizes that page-size keywords stand for.
#[derive(Debug, Clone, Copy, PartialEq)]
pub struct PaperSizes<L> {
    pub a4: PageSize<L>,
    pub a3: PageSize<L>,
    pub letter: PageSize<L>,
}

/// Which settings win over those of the style sheet.
#[derive(Debug, Clone, Copy, PartialEq, Eq, Structural)]
pub struct ConfigOverrides {
    pub page_size: bool,
    pub margin: bool,
    pub landscape: bool,
}

/// The page settings that a caller asks for.
#[derive(Debug, Clone, Copy, PartialEq)]
pub struct Config<L> {
    pub page_size: PageSize<L>,
    pub margin: Margin<L>,
    pub landscape: bool,
    pub overrides: ConfigOverrides,
    pub paper: PaperSizes<L>,
}

} // verus!
