//! What drawing needs and the layout only carries along.

use vstd::prelude::*;

verus! {

/// The types of the values that are drawn with. A renderer chooses them.
pub trait Paint {
    /// A length on the page. The default is none at all.
    type Length: Clone + std::fmt::Debug + Default;
    /// How opaque something is. The default is fully.
    type Opacity: Clone + std::fmt::Debug + Default;
    /// Backgrounds, borders, shadows and clipping of a box. The default has
    /// none of them.
    type Style: Clone + std::fmt::Debug + Default;
    /// A line of shaped text.
    type Line: Clone + std::fmt::Debug;
    /// A parsed vector image.
    type Tree: Clone + std::fmt::Debug;
    /// The encoding of a raster image.
    type Encoding: Clone + std::fmt::Debug;
    /// A transformation.
    type Matrix: Clone + std::fmt::Debug;
    /// A point of a box.
    type Point: Clone + std::fmt::Debug;
    /// How the rules between columns look.
    type Rule: Clone + std::fmt::Debug;
    /// What only the renderer can draw, such as a paragraph.
    type Leaf: Clone + std::fmt::Debug;
    /// What an element means in the document's structure.
    type Role: Clone + std::fmt::Debug;
}

/// A size on the page.
#[derive(Debug, Clone, Copy)]
pub struct Size<L> {
    pub width: L,
    pub height: L,
}

} // verus!
